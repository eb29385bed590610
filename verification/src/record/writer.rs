//! Streaming append-only writer.
//!
//! What a writer puts where is a list of [`WriteStep`]s. A [`Writer`] carries
//! them out in memory; a program that records to a file carries the same steps
//! out there, and turns a failed one into an error with
//! [`WriteStep::failed`].

use vstd::prelude::*;
use vstd::string::*;

use super::format::{capture_image, frame, header, le32, little_endian, u32_bytes};
use super::{bincode_err, in_context, io_err, MAGIC, VERSION};
use crate::error::{framed_by, lemma_framed_by, Error, ErrorView};
use crate::text::{decimal, push_decimal};

verus! {

/// One thing to do to the file being written.
#[derive(Debug)]
pub enum WriteStep {
    /// Put these bytes behind what is there.
    Put { ctx: &'static str, bytes: Vec<u8> },
    /// Hand everything over to the operating system.
    Flush { ctx: &'static str },
}

impl WriteStep {
    /// What is being done, for an error that says so.
    pub open spec fn context(self) -> Seq<char> {
        match self {
            WriteStep::Put { ctx, .. } => ctx@,
            WriteStep::Flush { ctx } => ctx@,
        }
    }

    /// The bytes that this step adds to the file.
    pub open spec fn output(self) -> Seq<u8> {
        match self {
            WriteStep::Put { bytes, .. } => bytes@,
            WriteStep::Flush { .. } => Seq::empty(),
        }
    }

    /// The error to report when this step fails with `e`.
    pub fn failed(&self, e: &str) -> (r: Error)
        ensures
            r@ == ErrorView::Record(in_context(self.context(), e@)),
    {
        match self {
            WriteStep::Put { ctx, .. } => io_err(ctx, e),
            WriteStep::Flush { ctx } => io_err(ctx, e),
        }
    }
}

/// The bytes that a list of steps adds to the file.
pub open spec fn output_of(steps: Seq<WriteStep>) -> Seq<u8>
    decreases steps.len(),
{
    if steps.len() == 0 {
        Seq::empty()
    } else {
        output_of(steps.drop_last()) + steps.last().output()
    }
}

/// What the steps are called in errors.
pub open spec fn contexts_of(steps: Seq<WriteStep>) -> Seq<Seq<char>> {
    steps.map_values(|s: WriteStep| s.context())
}

/// The bytes that each of the steps adds to the file.
pub open spec fn outputs_of(steps: Seq<WriteStep>) -> Seq<Seq<u8>> {
    steps.map_values(|s: WriteStep| s.output())
}

/// A list of steps ends with a flush, and holds no other.
pub open spec fn flushed_once(steps: Seq<WriteStep>) -> bool {
    &&& steps.len() > 0
    &&& forall|i: int|
        0 <= i < steps.len() ==> ((#[trigger] steps[i] is Flush) <==> i == steps.len() - 1)
}

/// The steps that start a capture.
pub fn header_steps(tag: [u8; 4]) -> (r: Vec<WriteStep>)
    ensures
        output_of(r@) == header(tag@),
        contexts_of(r@) == seq!["write magic"@, "write version"@, "write tag"@, "flush header"@],
        outputs_of(r@) == seq![MAGIC@, le32(VERSION as nat), tag@, Seq::empty()],
        flushed_once(r@),
{
    let magic = WriteStep::Put { ctx: "write magic", bytes: bytes_of(&MAGIC) };
    let version = WriteStep::Put { ctx: "write version", bytes: bytes_of(&u32_bytes(VERSION)) };
    let tag_bytes = WriteStep::Put { ctx: "write tag", bytes: bytes_of(&tag) };
    let flush = WriteStep::Flush { ctx: "flush header" };
    let ghost parts = seq![magic, version, tag_bytes, flush];
    let mut r: Vec<WriteStep> = Vec::new();
    r.push(magic);
    r.push(version);
    r.push(tag_bytes);
    r.push(flush);
    proof {
        assert(r@ =~= parts);
        reveal_with_fuel(output_of, 5);
        assert(parts.drop_last().drop_last().drop_last() =~= seq![magic]);
        assert(parts.drop_last().drop_last() =~= seq![magic, version]);
        assert(parts.drop_last() =~= seq![magic, version, tag_bytes]);
        assert(output_of(r@) =~= header(tag@));
        assert(contexts_of(r@) =~= seq![
            "write magic"@,
            "write version"@,
            "write tag"@,
            "flush header"@,
        ]);
        assert(outputs_of(r@) =~= seq![MAGIC@, le32(VERSION as nat), tag@, Seq::empty()]);
    }
    r
}

/// The steps that add one entry.
pub fn frame_steps(body: Vec<u8>) -> (r: Vec<WriteStep>)
    requires
        body@.len() <= u32::MAX,
    ensures
        output_of(r@) == frame(body@),
        contexts_of(r@) == seq!["write len"@, "write body"@, "flush entry"@],
        outputs_of(r@) == seq![le32(body@.len()), body@, Seq::empty()],
        flushed_once(r@),
{
    let n: u32 = body.len() as u32;
    let len = WriteStep::Put { ctx: "write len", bytes: bytes_of(&u32_bytes(n)) };
    let ghost content = body@;
    let entry = WriteStep::Put { ctx: "write body", bytes: body };
    let flush = WriteStep::Flush { ctx: "flush entry" };
    let ghost parts = seq![len, entry, flush];
    let mut r: Vec<WriteStep> = Vec::new();
    r.push(len);
    r.push(entry);
    r.push(flush);
    proof {
        assert(r@ =~= parts);
        reveal_with_fuel(output_of, 4);
        assert(parts.drop_last().drop_last() =~= seq![len]);
        assert(parts.drop_last() =~= seq![len, entry]);
        assert(output_of(r@) =~= frame(content));
        assert(contexts_of(r@) =~= seq!["write len"@, "write body"@, "flush entry"@]);
        assert(outputs_of(r@) =~= seq![le32(content.len()), content, Seq::empty()]);
    }
    r
}

/// What a writer says about an entry whose length does not fit its prefix.
pub open spec fn too_long(len: nat) -> Seq<char> {
    "entry too long: "@ + decimal(len) + " bytes (the length prefix holds up to "@ + decimal(
        u32::MAX as nat,
    ) + ")"@
}

/// Whether the length of an entry fits its prefix.
pub fn check_len(len: usize) -> (r: Result<(), Error>)
    ensures
        if len <= u32::MAX {
            r is Ok
        } else {
            r is Err && r->Err_0@ == ErrorView::Record(too_long(len as nat))
        },
{
    if len as u64 <= u32::MAX as u64 {
        Ok(())
    } else {
        let mut msg = "entry too long: ".to_owned();
        push_decimal(&mut msg, len as u64);
        msg.append(" bytes (the length prefix holds up to ");
        push_decimal(&mut msg, u32::MAX as u64);
        msg.append(")");
        Err(Error::Record(msg))
    }
}

/// What stops an encoded message from being appended: it could not be encoded,
/// or its length does not fit its prefix.
pub open spec fn append_fault(encoded: Result<Seq<u8>, Seq<char>>) -> Option<Seq<char>> {
    match encoded {
        Err(e) => Some(in_context("encode"@, e)),
        Ok(body) => if body.len() <= u32::MAX {
            None
        } else {
            Some(too_long(body.len()))
        },
    }
}

/// The outcome of an encoding, with its contents as sequences.
pub open spec fn encoded_view(encoded: Result<Vec<u8>, String>) -> Result<Seq<u8>, Seq<char>> {
    match encoded {
        Ok(body) => Ok(body@),
        Err(e) => Err(e@),
    }
}

/// The steps that append a message, given the outcome of its encoding.
pub fn append_steps(encoded: Result<Vec<u8>, String>) -> (r: Result<Vec<WriteStep>, Error>)
    ensures
        match append_fault(encoded_view(encoded)) {
            None => {
                &&& r is Ok
                &&& output_of(r->Ok_0@) == frame(encoded->Ok_0@)
                &&& contexts_of(r->Ok_0@) == seq!["write len"@, "write body"@, "flush entry"@]
                &&& outputs_of(r->Ok_0@) == seq![
                    le32(encoded->Ok_0@.len()),
                    encoded->Ok_0@,
                    Seq::empty(),
                ]
                &&& flushed_once(r->Ok_0@)
            },
            Some(t) => r is Err && r->Err_0@ == ErrorView::Record(t),
        },
{
    match encoded {
        Ok(body) => match check_len(body.len()) {
            Ok(_) => Ok(frame_steps(body)),
            Err(e) => Err(e),
        },
        Err(e) => Err(bincode_err("encode", e.as_str())),
    }
}

/// Four bytes as a vector.
fn bytes_of(b: &[u8; 4]) -> (r: Vec<u8>)
    ensures
        r@ == b@,
{
    let mut r: Vec<u8> = Vec::new();
    let mut i: usize = 0;
    while i < 4
        invariant
            i <= 4,
            b@.len() == 4,
            r@ == b@.take(i as int),
        decreases 4 - i,
    {
        r.push(b[i]);
        i += 1;
        assert(r@ =~= b@.take(i as int));
    }
    assert(b@.take(4) =~= b@);
    r
}

/// A capture written in memory.
pub struct Writer {
    bytes: Vec<u8>,
}

impl View for Writer {
    type V = Seq<u8>;

    /// The capture written so far.
    closed spec fn view(&self) -> Seq<u8> {
        self.bytes@
    }
}

impl Writer {
    /// Starts a capture: writes the header. Subsequent calls to
    /// [`Writer::append`] append framed entries.
    pub fn create(tag: [u8; 4]) -> (r: Writer)
        ensures
            r@ == capture_image(tag@, Seq::empty()),
    {
        let mut w = Writer { bytes: Vec::new() };
        w.perform(header_steps(tag));
        assert(w@ =~= capture_image(tag@, Seq::empty()));
        w
    }

    /// Appends one encoded message as a length-prefixed frame. Takes the
    /// outcome of the encoding: a message that could not be encoded, or whose
    /// length does not fit the prefix, leaves the capture as it is.
    pub fn append(&mut self, encoded: Result<Vec<u8>, String>) -> (r: Result<(), Error>)
        ensures
            match append_fault(encoded_view(encoded)) {
                None => r is Ok && final(self)@ == old(self)@ + frame(encoded->Ok_0@),
                Some(t) => {
                    &&& r is Err
                    &&& r->Err_0@ == ErrorView::Record(t)
                    &&& final(self)@ == old(self)@
                },
            },
    {
        match append_steps(encoded) {
            Ok(steps) => {
                self.perform(steps);
                Ok(())
            },
            Err(e) => Err(e),
        }
    }

    /// The capture written so far.
    pub fn bytes(&self) -> (r: &[u8])
        ensures
            r@ == self@,
    {
        self.bytes.as_slice()
    }

    /// Carries out the steps in memory.
    fn perform(&mut self, steps: Vec<WriteStep>)
        ensures
            final(self)@ == old(self)@ + output_of(steps@),
    {
        let mut i: usize = 0;
        while i < steps.len()
            invariant
                i <= steps.len(),
                self.bytes@ == old(self).bytes@ + output_of(steps@.take(i as int)),
            decreases steps.len() - i,
        {
            let ghost before = steps@.take(i as int);
            let ghost after = steps@.take(i as int + 1);
            assert(after.drop_last() =~= before);
            match &steps[i] {
                WriteStep::Put { ctx: _, bytes } => {
                    self.bytes.extend_from_slice(bytes.as_slice());
                },
                WriteStep::Flush { ctx: _ } => {},
            }
            i += 1;
            assert(self.bytes@ =~= old(self).bytes@ + output_of(after));
        }
        assert(steps@.take(steps.len() as int) =~= steps@);
    }
}

/// Appending an entry to a capture gives the capture with that entry added at
/// the end: what was there stays.
pub proof fn append_adds_at_the_end(tag: Seq<u8>, bodies: Seq<Seq<u8>>, body: Seq<u8>)
    ensures
        capture_image(tag, bodies) + frame(body) == capture_image(tag, bodies.push(body)),
{
    assert(bodies.push(body).drop_last() =~= bodies);
    assert(capture_image(tag, bodies) + frame(body) =~= capture_image(tag, bodies.push(body)));
}

/// Steps carried out one after the other add their bytes one after the other.
pub proof fn steps_add_up(a: Seq<WriteStep>, b: Seq<WriteStep>)
    ensures
        output_of(a + b) == output_of(a) + output_of(b),
        a.len() == 1 ==> output_of(a) == a[0].output(),
    decreases b.len(),
{
    if a.len() == 1 {
        assert(a.drop_last() =~= Seq::<WriteStep>::empty());
        assert(output_of(a.drop_last()) =~= Seq::<u8>::empty());
        assert(output_of(a) =~= a[0].output());
    }
    if b.len() == 0 {
        assert(a + b =~= a);
        assert(output_of(a) + output_of(b) =~= output_of(a));
    } else {
        steps_add_up(a, b.drop_last());
        assert((a + b).drop_last() =~= a + b.drop_last());
        assert((a + b).last() == b.last());
        assert(output_of(a + b) =~= output_of(a) + output_of(b));
    }
}

/// A step that puts bytes adds exactly those, a flush adds none, and each is
/// named as it says.
pub proof fn steps_are_what_they_say(ctx: &'static str, bytes: Vec<u8>, steps: Seq<WriteStep>)
    ensures
        (WriteStep::Put { ctx, bytes }).output() == bytes@,
        (WriteStep::Put { ctx, bytes }).context() == ctx@,
        (WriteStep::Flush { ctx }).output().len() == 0,
        (WriteStep::Flush { ctx }).context() == ctx@,
        outputs_of(steps).len() == steps.len(),
        contexts_of(steps).len() == steps.len(),
        forall|i: int|
            0 <= i < steps.len() ==> (#[trigger] outputs_of(steps)[i]) == steps[i].output(),
        forall|i: int|
            0 <= i < steps.len() ==> (#[trigger] contexts_of(steps)[i]) == steps[i].context(),
{
}

/// Every message that could be encoded, up to the length that four bytes hold,
/// is appended; what is longer, or could not be encoded, is refused with its
/// length or its reason.
pub proof fn only_long_or_broken_messages_are_refused(body: Vec<u8>, e: String)
    ensures
        append_fault(encoded_view(Ok(body))) is None <==> body@.len() <= 4294967295,
        append_fault(encoded_view(Ok(body))) matches Some(t) ==> framed_by(
            t,
            "entry too long: "@,
            decimal(body@.len()),
            " bytes (the length prefix holds up to "@ + decimal(4294967295) + ")"@,
        ),
        append_fault(encoded_view(Err(e))) matches Some(t) && framed_by(
            t,
            "encode"@,
            ": "@,
            e@,
        ),
{
    let tail = " bytes (the length prefix holds up to "@ + decimal(4294967295) + ")"@;
    lemma_framed_by("entry too long: "@, decimal(body@.len()), tail);
    assert(too_long(body@.len()) =~= "entry too long: "@ + decimal(body@.len()) + tail);
    lemma_framed_by("encode"@, ": "@, e@);
}

/// A capture starts with three puts and a flush: the letters `FRGE`, the number
/// one in four bytes, the tag.
pub proof fn captures_start_with_letters_version_and_tag(tag: [u8; 4], r: Vec<WriteStep>)
    requires
        call_ensures(header_steps, (tag,), r),
    ensures
        r@.len() == 4,
        r@[0] is Put && r@[0]->bytes@ == seq![70u8, 82, 71, 69],
        r@[1] is Put && r@[1]->bytes@ == seq![1u8, 0, 0, 0],
        r@[2] is Put && r@[2]->bytes@ == tag@,
        r@[3] is Flush,
        r@[0].context() == "write magic"@,
        r@[1].context() == "write version"@,
        r@[2].context() == "write tag"@,
        r@[3].context() == "flush header"@,
        output_of(r@) == seq![70u8, 82, 71, 69, 1, 0, 0, 0] + tag@,
{
    super::format::format_has_its_numbers();
    super::format::captures_are_laid_out(tag@, Seq::empty());
    assert(le32(1) =~= seq![1u8, 0, 0, 0]);
    let parts = outputs_of(r@);
    let names = contexts_of(r@);
    assert(parts.len() == r@.len());
    assert(parts[0] == r@[0].output() && parts[1] == r@[1].output() && parts[2]
        == r@[2].output());
    assert(names[0] == r@[0].context() && names[1] == r@[1].context() && names[2]
        == r@[2].context() && names[3] == r@[3].context());
    assert(!(r@[0] is Flush) && !(r@[1] is Flush) && !(r@[2] is Flush) && r@[3] is Flush);
}

/// An entry is two puts and a flush: its length in four bytes with the lowest
/// first, and its bytes.
pub proof fn entries_are_length_and_bytes(body: Vec<u8>, r: Vec<WriteStep>)
    requires
        body@.len() <= u32::MAX,
        call_ensures(frame_steps, (body,), r),
    ensures
        r@.len() == 3,
        r@[0] is Put && r@[0]->bytes@.len() == 4 && little_endian(r@[0]->bytes@) == body@.len(),
        r@[1] is Put && r@[1]->bytes@ == body@,
        r@[2] is Flush,
        r@[0].context() == "write len"@,
        r@[1].context() == "write body"@,
        r@[2].context() == "flush entry"@,
        output_of(r@) == r@[0]->bytes@ + body@,
{
    super::format::lengths_are_little_endian(body@.len(), le32(body@.len()));
    let parts = outputs_of(r@);
    let names = contexts_of(r@);
    assert(parts.len() == r@.len());
    assert(parts[0] == r@[0].output() && parts[1] == r@[1].output());
    assert(names[0] == r@[0].context() && names[1] == r@[1].context() && names[2]
        == r@[2].context());
    assert(!(r@[0] is Flush) && !(r@[1] is Flush) && r@[2] is Flush);
}

/// A writer starts with the header, and an appended message adds its length and
/// its bytes behind what is there; one that is refused adds nothing.
pub proof fn writers_only_add()
    ensures
        forall|tag: [u8; 4], r: Writer| #[trigger] call_ensures(Writer::create, (tag,), r) ==> r@
            == seq![70u8, 82, 71, 69, 1, 0, 0, 0] + tag@,
        forall|w: &mut Writer, encoded: Result<Vec<u8>, String>, r: Result<(), Error>| #[trigger]
            call_ensures(Writer::append, (w, encoded), r) ==> {
                let before = (*w)@;
                let after = (*final(w))@;
                &&& r is Ok <==> encoded is Ok && encoded->Ok_0@.len() <= 4294967295
                &&& r is Err ==> after == before && r->Err_0@ is Record
                &&& r is Ok ==> {
                    &&& after.len() == before.len() + 4 + encoded->Ok_0@.len()
                    &&& after.take(before.len() as int) == before
                    &&& little_endian(after.skip(before.len() as int)) == encoded->Ok_0@.len()
                    &&& after.skip(before.len() + 4int) == encoded->Ok_0@
                }
            },
        forall|w: &Writer, r: &[u8]| #[trigger] call_ensures(Writer::bytes, (w,), r) ==> r@ == w@,
{
    assert forall|tag: [u8; 4], r: Writer| #[trigger]
        call_ensures(Writer::create, (tag,), r) implies r@ == seq![70u8, 82, 71, 69, 1, 0, 0, 0]
        + tag@ by {
        super::format::captures_are_laid_out(tag@, Seq::empty());
    }
    assert forall|w: &mut Writer, encoded: Result<Vec<u8>, String>, r: Result<(), Error>| #[trigger]
        call_ensures(Writer::append, (w, encoded), r) && r is Ok implies {
        let before = (*w)@;
        let after = (*final(w))@;
        &&& encoded is Ok
        &&& encoded->Ok_0@.len() <= 4294967295
        &&& after.len() == before.len() + 4 + encoded->Ok_0@.len()
        &&& after.take(before.len() as int) == before
        &&& little_endian(after.skip(before.len() as int)) == encoded->Ok_0@.len()
        &&& after.skip(before.len() + 4int) == encoded->Ok_0@
    } by {
        let before = (*w)@;
        let after = (*final(w))@;
        let body = encoded->Ok_0@;
        super::format::captures_are_laid_out(Seq::empty(), body);
        assert(after == before + frame(body));
        assert(after.take(before.len() as int) =~= before);
        assert(after.skip(before.len() as int) =~= frame(body));
        assert(after.skip(before.len() + 4int) =~= frame(body).skip(4));
    }
}

/// A step that failed is reported with what it was doing and why; a message that
/// is appended has the steps of its entry, and one that is refused has none.
pub proof fn steps_are_those_of_the_message(
    step: &WriteStep,
    why: &str,
    e: Error,
    encoded: Result<Vec<u8>, String>,
    r: Result<Vec<WriteStep>, Error>,
)
    requires
        call_ensures(append_steps, (encoded,), r),
    ensures
        call_ensures(WriteStep::failed, (step, why), e) ==> e is Record && framed_by(
            e->Record_0@,
            match *step {
                WriteStep::Put { ctx, .. } => ctx@,
                WriteStep::Flush { ctx } => ctx@,
            },
            ": "@,
            why@,
        ),
        r is Ok <==> encoded is Ok && encoded->Ok_0@.len() <= 4294967295,
        r matches Ok(steps) ==> {
            let body = encoded->Ok_0@;
            &&& steps@.len() == 3
            &&& steps@[0] is Put && steps@[0]->bytes@.len() == 4 && little_endian(
                steps@[0]->bytes@,
            ) == body.len()
            &&& steps@[1] is Put && steps@[1]->bytes@ == body
            &&& steps@[2] is Flush
        },
{
    lemma_framed_by(step.context(), ": "@, why@);
    if let Ok(steps) = r {
        let body = encoded->Ok_0@;
        super::format::lengths_are_little_endian(body.len(), le32(body.len()));
        let parts = outputs_of(steps@);
        assert(parts.len() == steps@.len());
        assert(parts[0] == steps@[0].output() && parts[1] == steps@[1].output());
        assert(!(steps@[0] is Flush) && !(steps@[1] is Flush) && steps@[2] is Flush);
    }
}

} // verus!
