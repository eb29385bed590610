//! Streaming and whole-capture readers.
//!
//! [`read_iter`] is the primitive: it verifies the header and returns an
//! iterator over the entries of a capture in memory. [`read_all`] and
//! [`read_all_with_progress`] are built on top of it.
//!
//! A program that streams a file makes the same decisions on what each read
//! gave: [`check_magic`], [`check_version`] and [`check_tag`] for the header,
//! then a [`FrameState`] for the entries.

use vstd::prelude::*;
use vstd::slice::slice_subrange;
use vstd::string::*;

use super::format::{
    all_fit, capture_image, decode_fault, ending, entries, extent, frame, framed, head,
    header_fault, le32_value, little_endian, magic_fault, push_byte_list, short_read, tag_fault,
    too_large, u32_value, version_fault, Head,
};
use super::{bincode_err, in_context, io_err, HEADER_LEN, MAGIC, MAX_FRAME_BYTES, VERSION};
use crate::error::{Error, ErrorView};
use crate::text::push_decimal;

verus! {

/// A read that did not give all the bytes asked for.
#[derive(Debug)]
pub struct ReadError {
    /// The end of the file came first.
    pub eof: bool,
    /// What the error says.
    pub text: String,
}

/// Whether two groups of four bytes are the same.
fn same_bytes(a: &[u8; 4], b: &[u8; 4]) -> (r: bool)
    ensures
        r == (a@ == b@),
{
    let r = a[0] == b[0] && a[1] == b[1] && a[2] == b[2] && a[3] == b[3];
    assert(r ==> a@ =~= b@);
    r
}

/// The first four bytes of a capture, as far as they could be read.
pub fn check_magic(got: Result<[u8; 4], ReadError>) -> (r: Result<(), Error>)
    ensures
        match got {
            Err(e) => r is Err && r->Err_0@ == ErrorView::Record(
                in_context("read magic"@, e.text@),
            ),
            Ok(b) => match magic_fault(b@) {
                None => r is Ok,
                Some(t) => r is Err && r->Err_0@ == ErrorView::Record(t),
            },
        },
{
    match got {
        Err(e) => Err(io_err("read magic", e.text.as_str())),
        Ok(b) => {
            if same_bytes(&b, &MAGIC) {
                Ok(())
            } else {
                let mut msg = "not a fridge capture (bad magic ".to_owned();
                push_byte_list(&mut msg, &b);
                msg.append(")");
                Err(Error::Record(msg))
            }
        },
    }
}

/// The version bytes of a capture, as far as they could be read.
pub fn check_version(got: Result<[u8; 4], ReadError>) -> (r: Result<(), Error>)
    ensures
        match got {
            Err(e) => r is Err && r->Err_0@ == ErrorView::Record(
                in_context("read version"@, e.text@),
            ),
            Ok(b) => match version_fault(b@) {
                None => r is Ok,
                Some(t) => r is Err && r->Err_0@ == ErrorView::Record(t),
            },
        },
{
    match got {
        Err(e) => Err(io_err("read version", e.text.as_str())),
        Ok(b) => {
            let v = u32_value(&b);
            if v == VERSION {
                Ok(())
            } else {
                let mut msg = "unsupported capture version ".to_owned();
                push_decimal(&mut msg, v as u64);
                msg.append(" (this build expects ");
                push_decimal(&mut msg, VERSION as u64);
                msg.append(")");
                Err(Error::Record(msg))
            }
        },
    }
}

/// The tag bytes of a capture, as far as they could be read, for a reader that
/// expects `tag`.
pub fn check_tag(got: Result<[u8; 4], ReadError>, tag: [u8; 4]) -> (r: Result<(), Error>)
    ensures
        match got {
            Err(e) => r is Err && r->Err_0@ == ErrorView::Record(in_context("read tag"@, e.text@)),
            Ok(b) => match tag_fault(b@, tag@) {
                None => r is Ok,
                Some(t) => r is Err && r->Err_0@ == ErrorView::Record(t),
            },
        },
{
    match got {
        Err(e) => Err(io_err("read tag", e.text.as_str())),
        Ok(b) => {
            if same_bytes(&b, &tag) {
                Ok(())
            } else {
                let mut msg = "wrong consumer tag: file has ".to_owned();
                push_byte_list(&mut msg, &b);
                msg.append(", reader expected ");
                push_byte_list(&mut msg, &tag);
                Err(Error::Record(msg))
            }
        },
    }
}

/// What to do after the length prefix of an entry.
#[derive(Debug)]
pub enum LenStep {
    /// Read an entry of this many bytes.
    Body(usize),
    /// There are no more entries, or none can be read.
    Stop(Option<Error>),
}

/// What to do after the bytes of an entry.
#[derive(Debug)]
pub enum BodyStep {
    /// Decode them.
    Decode,
    /// There are no more entries, or none can be read.
    Stop(Option<Error>),
}

/// Where a reader stands between entries.
#[derive(Debug, Clone, Copy)]
pub struct FrameState {
    /// Bytes consumed so far: the header and every entry read successfully.
    pub bytes_read: u64,
    /// Entries read successfully so far.
    pub frame_idx: usize,
    /// Nothing more is to be read.
    pub done: bool,
}

impl FrameState {
    /// Behind the header, before the first entry.
    pub fn start() -> (r: FrameState)
        ensures
            r == (FrameState { bytes_read: HEADER_LEN, frame_idx: 0, done: false }),
    {
        FrameState { bytes_read: HEADER_LEN, frame_idx: 0, done: false }
    }

    /// Takes what reading a length prefix gave. The end of the file ends the
    /// reading without an error.
    pub fn on_len(&mut self, got: Result<[u8; 4], ReadError>) -> (r: LenStep)
        ensures
            match got {
                Err(e) => {
                    &&& *final(self) == (FrameState { done: true, ..*old(self) })
                    &&& r matches LenStep::Stop(fault)
                    &&& match fault {
                        None => e.eof,
                        Some(err) => !e.eof && err@ == ErrorView::Record(
                            in_context("read len"@, e.text@),
                        ),
                    }
                },
                Ok(b) => if le32_value(b@) > MAX_FRAME_BYTES {
                    &&& *final(self) == (FrameState { done: true, ..*old(self) })
                    &&& r matches LenStep::Stop(Some(err))
                    &&& err@ == ErrorView::Record(too_large(le32_value(b@)))
                } else {
                    &&& *final(self) == *old(self)
                    &&& r matches LenStep::Body(n)
                    &&& n == le32_value(b@)
                },
            },
    {
        match got {
            Err(e) => {
                self.done = true;
                if e.eof {
                    LenStep::Stop(None)
                } else {
                    LenStep::Stop(Some(io_err("read len", e.text.as_str())))
                }
            },
            Ok(b) => {
                let len: usize = u32_value(&b) as usize;
                if len > MAX_FRAME_BYTES {
                    self.done = true;
                    let mut msg = "frame too large: ".to_owned();
                    push_decimal(&mut msg, len as u64);
                    msg.append(" bytes (cap ");
                    push_decimal(&mut msg, MAX_FRAME_BYTES as u64);
                    msg.append("); file likely corrupt");
                    LenStep::Stop(Some(Error::Record(msg)))
                } else {
                    LenStep::Body(len)
                }
            },
        }
    }

    /// Takes what reading the bytes of an entry gave. A partial entry at the
    /// end of the file, left by an interrupted writer, ends the reading
    /// without an error.
    pub fn on_body(&mut self, got: Result<(), ReadError>) -> (r: BodyStep)
        ensures
            match got {
                Err(e) => {
                    &&& *final(self) == (FrameState { done: true, ..*old(self) })
                    &&& r matches BodyStep::Stop(fault)
                    &&& match fault {
                        None => e.eof,
                        Some(err) => !e.eof && err@ == ErrorView::Record(
                            in_context("read body"@, e.text@),
                        ),
                    }
                },
                Ok(_) => *final(self) == *old(self) && r is Decode,
            },
    {
        match got {
            Err(e) => {
                self.done = true;
                if e.eof {
                    BodyStep::Stop(None)
                } else {
                    BodyStep::Stop(Some(io_err("read body", e.text.as_str())))
                }
            },
            Ok(_) => BodyStep::Decode,
        }
    }

    /// Takes what decoding an entry of `len` bytes gave. After an entry that
    /// does not decode nothing more is read.
    pub fn on_decoded<M>(&mut self, len: usize, got: Result<M, String>) -> (r: Result<M, Error>)
        requires
            old(self).frame_idx < usize::MAX,
            old(self).bytes_read + 4 + len <= u64::MAX,
        ensures
            match got {
                Ok(m) => {
                    &&& r is Ok
                    &&& r->Ok_0 == m
                    &&& *final(self) == (FrameState {
                        bytes_read: (old(self).bytes_read + 4 + len) as u64,
                        frame_idx: (old(self).frame_idx + 1) as usize,
                        done: old(self).done,
                    })
                },
                Err(e) => {
                    &&& r is Err
                    &&& r->Err_0@ == ErrorView::Record(
                        decode_fault(old(self).frame_idx as nat, e@),
                    )
                    &&& *final(self) == (FrameState { done: true, ..*old(self) })
                },
            },
    {
        match got {
            Ok(m) => {
                self.frame_idx = self.frame_idx + 1;
                self.bytes_read = self.bytes_read + 4 + len as u64;
                Ok(m)
            },
            Err(e) => {
                self.done = true;
                let mut ctx = "decode at frame#".to_owned();
                push_decimal(&mut ctx, self.frame_idx as u64);
                Err(bincode_err(ctx.as_str(), e.as_str()))
            },
        }
    }
}

/// A decoder that can be called on any bytes.
pub open spec fn takes_any<M, F: Fn(&[u8]) -> Result<M, String>>(decode: F) -> bool {
    forall|b: &[u8]| #[trigger] call_requires(decode, (b,))
}

/// `d` is what the decoder may make of `body`.
pub open spec fn may_decode<M, F: Fn(&[u8]) -> Result<M, String>>(
    decode: F,
    body: Seq<u8>,
    d: Result<M, String>,
) -> bool {
    exists|b: &[u8]| b@ == body && #[trigger] call_ensures(decode, (b,), d)
}

/// `e` reports that the decoder refused `body`, the entry with index `i`.
pub open spec fn refused<M, F: Fn(&[u8]) -> Result<M, String>>(
    decode: F,
    body: Seq<u8>,
    i: nat,
    e: ErrorView,
) -> bool {
    exists|t: String| #[trigger]
        may_decode(decode, body, Err::<M, String>(t)) && e == ErrorView::Record(
            decode_fault(i, t@),
        )
}

/// Four bytes of a capture in memory.
fn read_four(bytes: &[u8], at: usize) -> (r: Result<[u8; 4], ReadError>)
    requires
        at <= bytes@.len(),
    ensures
        match r {
            Ok(b) => at + 4 <= bytes@.len() && b@ == bytes@.subrange(at as int, at + 4),
            Err(e) => at + 4 > bytes@.len() && e.eof && e.text@ == short_read(),
        },
{
    if bytes.len() - at < 4 {
        Err(ReadError { eof: true, text: "failed to fill whole buffer".to_owned() })
    } else {
        let b = [bytes[at], bytes[at + 1], bytes[at + 2], bytes[at + 3]];
        assert(b@ =~= bytes@.subrange(at as int, at + 4));
        Ok(b)
    }
}

/// Iterator over the entries of a capture in memory.
pub struct ReadIter<'a> {
    bytes: &'a [u8],
    pos: usize,
    state: FrameState,
}

impl<'a> ReadIter<'a> {
    /// The reader stands between entries, and has counted what it consumed.
    pub closed spec fn wf(self) -> bool {
        &&& HEADER_LEN <= self.pos <= self.bytes@.len()
        &&& self.state.bytes_read == self.pos
        &&& 4 * self.state.frame_idx <= self.pos
    }

    /// What has not been read yet.
    pub closed spec fn rest(self) -> Seq<u8> {
        self.bytes@.skip(self.pos as int)
    }

    /// How many entries have been read.
    pub closed spec fn index(self) -> nat {
        self.state.frame_idx as nat
    }

    /// How many bytes the header and the entries read so far take.
    pub closed spec fn consumed(self) -> nat {
        self.state.bytes_read as nat
    }

    /// Whether the reading is over.
    pub closed spec fn done(self) -> bool {
        self.state.done
    }

    /// Total bytes consumed so far: the header and every entry read
    /// successfully.
    pub fn bytes_read(&self) -> (r: u64)
        ensures
            r == self.consumed(),
    {
        self.state.bytes_read
    }

    /// The next entry, decoded. The end of the capture, clean or in the middle
    /// of an entry, gives `None`; an oversized frame or an entry that does not
    /// decode gives an error once, and `None` from there on.
    pub fn next<M, F: Fn(&[u8]) -> Result<M, String>>(&mut self, decode: &F) -> (r: Option<
        Result<M, Error>,
    >)
        requires
            old(self).wf(),
            takes_any(*decode),
        ensures
            final(self).wf(),
            old(self).done() ==> r is None && *final(self) == *old(self),
            !old(self).done() ==> match head(old(self).rest()) {
                Head::End => {
                    &&& r is None
                    &&& final(self).done()
                    &&& final(self).index() == old(self).index()
                    &&& final(self).consumed() == old(self).consumed()
                },
                Head::TooLarge(n) => {
                    &&& r matches Some(Err(e))
                    &&& e@ == ErrorView::Record(too_large(n))
                    &&& final(self).done()
                    &&& final(self).index() == old(self).index()
                    &&& final(self).consumed() == old(self).consumed()
                },
                Head::Entry(n) => {
                    let body = old(self).rest().subrange(4, 4 + n as int);
                    &&& r is Some
                    &&& match r->0 {
                        Ok(m) => {
                            &&& may_decode(*decode, body, Ok(m))
                            &&& !final(self).done()
                            &&& final(self).rest() == old(self).rest().skip(4 + n as int)
                            &&& final(self).index() == old(self).index() + 1
                            &&& final(self).consumed() == old(self).consumed() + 4 + n
                        },
                        Err(e) => {
                            &&& refused(*decode, body, old(self).index(), e@)
                            &&& final(self).done()
                            &&& final(self).index() == old(self).index()
                            &&& final(self).consumed() == old(self).consumed()
                        },
                    }
                },
            },
    {
        if self.state.done {
            return None;
        }
        let ghost rest = self.rest();
        let prefix = read_four(self.bytes, self.pos);
        proof {
            if prefix is Ok {
                assert(prefix->Ok_0@ =~= rest.take(4));
            }
        }
        let len: usize = match self.state.on_len(prefix) {
            LenStep::Body(n) => n,
            LenStep::Stop(None) => return None,
            LenStep::Stop(Some(e)) => return Some(Err(e)),
        };
        let got = if self.bytes.len() - self.pos - 4 < len {
            Err(ReadError { eof: true, text: "failed to fill whole buffer".to_owned() })
        } else {
            Ok(())
        };
        match self.state.on_body(got) {
            BodyStep::Decode => {},
            BodyStep::Stop(None) => return None,
            BodyStep::Stop(Some(e)) => return Some(Err(e)),
        }
        let body = slice_subrange(self.bytes, self.pos + 4, self.pos + 4 + len);
        assert(body@ =~= rest.subrange(4, 4 + len as int));
        let d = decode(body);
        let ghost outcome = d;
        assert(call_ensures(*decode, (body,), outcome));
        assert(may_decode(*decode, body@, outcome));
        let r = self.state.on_decoded(len, d);
        if r.is_ok() {
            self.pos = self.pos + 4 + len;
            assert(self.rest() =~= rest.skip(4 + len as int));
        } else {
            assert(outcome == Err::<M, String>(outcome->Err_0));
            assert(refused(*decode, body@, old(self).index(), r->Err_0@));
        }
        Some(r)
    }
}

/// Verifies the header of a capture (magic, version and tag) and returns an
/// iterator over its entries. Header errors come from here; the iterator
/// itself only fails on an entry.
pub fn read_iter<'a>(bytes: &'a [u8], tag: [u8; 4]) -> (r: Result<ReadIter<'a>, Error>)
    ensures
        match header_fault(bytes@, tag@) {
            Some(t) => r is Err && r->Err_0@ == ErrorView::Record(t),
            None => {
                &&& r is Ok
                &&& r->Ok_0.wf()
                &&& !r->Ok_0.done()
                &&& r->Ok_0.index() == 0
                &&& r->Ok_0.consumed() == HEADER_LEN
                &&& r->Ok_0.rest() == bytes@.skip(HEADER_LEN as int)
            },
        },
{
    match check_magic(read_four(bytes, 0)) {
        Ok(_) => {},
        Err(e) => return Err(e),
    }
    match check_version(read_four(bytes, 4)) {
        Ok(_) => {},
        Err(e) => return Err(e),
    }
    match check_tag(read_four(bytes, 8), tag) {
        Ok(_) => {},
        Err(e) => return Err(e),
    }
    Ok(ReadIter { bytes, pos: 12, state: FrameState::start() })
}

/// `ms` is what the decoder may make of the entries, one for each.
pub open spec fn all_decoded<M, F: Fn(&[u8]) -> Result<M, String>>(
    decode: F,
    bodies: Seq<Seq<u8>>,
    ms: Seq<M>,
) -> bool {
    &&& ms.len() == bodies.len()
    &&& forall|i: int|
        0 <= i < ms.len() ==> may_decode(decode, bodies[i], Ok::<M, String>(#[trigger] ms[i]))
}

/// Reading `rest` fails with `e` after `k` entries: the next one does not
/// decode, or there is an oversized frame in its place.
pub open spec fn fails_after<M, F: Fn(&[u8]) -> Result<M, String>>(
    decode: F,
    rest: Seq<u8>,
    k: nat,
    e: ErrorView,
) -> bool {
    &&& k <= entries(rest).len()
    &&& exists|ms: Seq<M>| #[trigger] all_decoded(decode, entries(rest).take(k as int), ms)
    &&& if k < entries(rest).len() {
        refused(decode, entries(rest)[k as int], k, e)
    } else {
        ending(rest) is TooLarge && e == ErrorView::Record(too_large(ending(rest)->TooLarge_0))
    }
}

/// `r` is what reading all of `rest` gives: every entry decoded, or the first
/// failure met.
pub open spec fn reads_as<M, F: Fn(&[u8]) -> Result<M, String>>(
    decode: F,
    rest: Seq<u8>,
    r: Result<Seq<M>, ErrorView>,
) -> bool {
    match r {
        Ok(ms) => ending(rest) is End && all_decoded(decode, entries(rest), ms),
        Err(e) => exists|k: nat| fails_after(decode, rest, k, e),
    }
}

/// What a reading gave, with an error as a mathematical value.
pub open spec fn result_view<M>(r: Result<Vec<M>, Error>) -> Result<Seq<M>, ErrorView> {
    match r {
        Ok(v) => Ok(v@),
        Err(e) => Err(e@),
    }
}

/// `r` is what reading the whole capture `bytes` gives a reader that expects
/// `tag`: what is wrong with the header, or what its entries read as.
pub open spec fn capture_reads_as<M, F: Fn(&[u8]) -> Result<M, String>>(
    decode: F,
    bytes: Seq<u8>,
    tag: Seq<u8>,
    r: Result<Seq<M>, ErrorView>,
) -> bool {
    match header_fault(bytes, tag) {
        Some(t) => r == Err::<Seq<M>, ErrorView>(ErrorView::Record(t)),
        None => reads_as(decode, bytes.skip(HEADER_LEN as int), r),
    }
}

/// Reads the whole capture. For one that does not fit comfortably into memory
/// once decoded, use [`read_iter`] instead.
pub fn read_all<M, F: Fn(&[u8]) -> Result<M, String>>(
    bytes: &[u8],
    tag: [u8; 4],
    decode: F,
) -> (r: Result<Vec<M>, Error>)
    requires
        takes_any(decode),
    ensures
        capture_reads_as(decode, bytes@, tag@, result_view(r)),
{
    let mut iter = match read_iter(bytes, tag) {
        Ok(it) => it,
        Err(e) => return Err(e),
    };
    let ghost rest = bytes@.skip(HEADER_LEN as int);
    let ghost all = entries(rest);
    let mut out: Vec<M> = Vec::new();
    assert(all.take(0) =~= Seq::<Seq<u8>>::empty());
    assert(all.skip(0) =~= all);
    loop
        invariant
            takes_any(decode),
            all == entries(rest),
            iter.wf(),
            !iter.done(),
            iter.index() == out@.len(),
            out@.len() <= all.len(),
            all_decoded(decode, all.take(out@.len() as int), out@),
            all.skip(out@.len() as int) == entries(iter.rest()),
            ending(rest) == ending(iter.rest()),
            header_fault(bytes@, tag@) is None,
            rest == bytes@.skip(HEADER_LEN as int),
        decreases iter.rest().len(),
    {
        let ghost before = iter.rest();
        let ghost k = out@.len() as int;
        proof {
            lemma_next_entry(rest, before, k);
        }
        match iter.next(&decode) {
            None => {
                assert(all.take(k) =~= all);
                return Ok(out);
            },
            Some(Err(e)) => {
                assert(fails_after(decode, rest, k as nat, e@));
                return Err(e);
            },
            Some(Ok(m)) => {
                let ghost old_out = out@;
                out.push(m);
                proof {
                    lemma_one_more(decode, all, old_out, m);
                }
            },
        }
    }
}

/// One more entry decoded.
proof fn lemma_one_more<M, F: Fn(&[u8]) -> Result<M, String>>(
    decode: F,
    all: Seq<Seq<u8>>,
    ms: Seq<M>,
    m: M,
)
    requires
        ms.len() < all.len(),
        all_decoded(decode, all.take(ms.len() as int), ms),
        may_decode(decode, all[ms.len() as int], Ok::<M, String>(m)),
    ensures
        all_decoded(decode, all.take(ms.len() as int + 1), ms.push(m)),
{
    let k = ms.len() as int;
    let more = ms.push(m);
    assert forall|i: int| 0 <= i < more.len() implies may_decode(
        decode,
        all.take(k + 1)[i],
        Ok::<M, String>(#[trigger] more[i]),
    ) by {
        if i < k {
            assert(may_decode(decode, all.take(k)[i], Ok::<M, String>(ms[i])));
        }
    }
}

/// The same message, or an error that says the same.
pub open spec fn same_outcome<M>(d1: Result<M, String>, d2: Result<M, String>) -> bool {
    match (d1, d2) {
        (Ok(m1), Ok(m2)) => m1 == m2,
        (Err(t1), Err(t2)) => t1@ == t2@,
        _ => false,
    }
}

/// What the decoder makes of some bytes depends on the bytes alone.
pub open spec fn decodes_by_bytes<M, F: Fn(&[u8]) -> Result<M, String>>(decode: F) -> bool {
    forall|body: Seq<u8>, d1: Result<M, String>, d2: Result<M, String>|
        #[trigger] may_decode(decode, body, d1) && #[trigger] may_decode(decode, body, d2)
            ==> same_outcome(d1, d2)
}

/// Two whole readings of one capture agree, be it with [`read_all`] or
/// [`read_all_with_progress`]: the same messages, or the same error. Reporting
/// progress does not change what is read.
pub proof fn whole_readings_agree<M, F: Fn(&[u8]) -> Result<M, String>>(
    decode: F,
    bytes: Seq<u8>,
    tag: Seq<u8>,
    r1: Result<Seq<M>, ErrorView>,
    r2: Result<Seq<M>, ErrorView>,
)
    requires
        decodes_by_bytes(decode),
        capture_reads_as(decode, bytes, tag, r1),
        capture_reads_as(decode, bytes, tag, r2),
    ensures
        r1 == r2,
{
    if header_fault(bytes, tag) is None {
        let rest = bytes.skip(HEADER_LEN as int);
        let bodies = entries(rest);
        match (r1, r2) {
            (Ok(a), Ok(b)) => {
                lemma_decoded_agree(decode, bodies, a, b);
            },
            (Ok(a), Err(e)) => {
                lemma_read_does_not_fail(decode, rest, a, e);
            },
            (Err(e), Ok(b)) => {
                lemma_read_does_not_fail(decode, rest, b, e);
            },
            (Err(e1), Err(e2)) => {
                let k1 = choose|k: nat| fails_after(decode, rest, k, e1);
                let k2 = choose|k: nat| fails_after(decode, rest, k, e2);
                if k1 < k2 {
                    lemma_first_failure(decode, rest, k1, e1, k2, e2);
                } else if k2 < k1 {
                    lemma_first_failure(decode, rest, k2, e2, k1, e1);
                } else if k1 < bodies.len() {
                    let body = bodies[k1 as int];
                    let t1 = choose|t: String| #[trigger]
                        may_decode(decode, body, Err::<M, String>(t)) && e1 == ErrorView::Record(
                            decode_fault(k1, t@),
                        );
                    let t2 = choose|t: String| #[trigger]
                        may_decode(decode, body, Err::<M, String>(t)) && e2 == ErrorView::Record(
                            decode_fault(k1, t@),
                        );
                    assert(same_outcome(Err::<M, String>(t1), Err::<M, String>(t2)));
                }
            },
        }
    }
}

/// Entries decode to one list of messages.
proof fn lemma_decoded_agree<M, F: Fn(&[u8]) -> Result<M, String>>(
    decode: F,
    bodies: Seq<Seq<u8>>,
    a: Seq<M>,
    b: Seq<M>,
)
    requires
        decodes_by_bytes(decode),
        all_decoded(decode, bodies, a),
        all_decoded(decode, bodies, b),
    ensures
        a == b,
{
    assert forall|i: int| 0 <= i < a.len() implies a[i] == b[i] by {
        assert(may_decode(decode, bodies[i], Ok::<M, String>(a[i])));
        assert(may_decode(decode, bodies[i], Ok::<M, String>(b[i])));
        assert(same_outcome(Ok::<M, String>(a[i]), Ok::<M, String>(b[i])));
    }
    assert(a =~= b);
}

/// A capture that can be read does not also fail.
proof fn lemma_read_does_not_fail<M, F: Fn(&[u8]) -> Result<M, String>>(
    decode: F,
    rest: Seq<u8>,
    ms: Seq<M>,
    e: ErrorView,
)
    requires
        decodes_by_bytes(decode),
        reads_as(decode, rest, Ok::<Seq<M>, ErrorView>(ms)),
    ensures
        !reads_as(decode, rest, Err::<Seq<M>, ErrorView>(e)),
{
    let bodies = entries(rest);
    if exists|k: nat| fails_after(decode, rest, k, e) {
        let k = choose|k: nat| fails_after(decode, rest, k, e);
        assert(refused(decode, bodies[k as int], k, e));
        let t = choose|t: String| #[trigger]
            may_decode(decode, bodies[k as int], Err::<M, String>(t)) && e == ErrorView::Record(
                decode_fault(k, t@),
            );
        assert(may_decode(decode, bodies[k as int], Ok::<M, String>(ms[k as int])));
        assert(same_outcome(Ok::<M, String>(ms[k as int]), Err::<M, String>(t)));
    }
}

/// A reading does not get past an entry that does not decode.
proof fn lemma_first_failure<M, F: Fn(&[u8]) -> Result<M, String>>(
    decode: F,
    rest: Seq<u8>,
    k1: nat,
    e1: ErrorView,
    k2: nat,
    e2: ErrorView,
)
    requires
        decodes_by_bytes(decode),
        fails_after(decode, rest, k2, e2),
        k1 < k2,
    ensures
        !fails_after(decode, rest, k1, e1),
{
    let bodies = entries(rest);
    let body = bodies[k1 as int];
    if fails_after(decode, rest, k1, e1) {
        let t = choose|t: String| #[trigger]
            may_decode(decode, body, Err::<M, String>(t)) && e1 == ErrorView::Record(
                decode_fault(k1, t@),
            );
        let ms = choose|ms: Seq<M>| #[trigger] all_decoded(decode, bodies.take(k2 as int), ms);
        assert(bodies.take(k2 as int)[k1 as int] == body);
        assert(may_decode(decode, body, Ok::<M, String>(ms[k1 as int])));
        assert(same_outcome(Ok::<M, String>(ms[k1 as int]), Err::<M, String>(t)));
    }
}

/// Messages that were written are read back: where decoding undoes the
/// encoding of every message, reading the whole capture gives the messages, in
/// order, and no error.
pub proof fn recorded_messages_read_back<M, F: Fn(&[u8]) -> Result<M, String>>(
    decode: F,
    tag: Seq<u8>,
    bodies: Seq<Seq<u8>>,
    ms: Seq<M>,
    r: Result<Seq<M>, ErrorView>,
)
    requires
        tag.len() == 4,
        all_fit(bodies),
        ms.len() == bodies.len(),
        forall|i: int, d: Result<M, String>|
            0 <= i < bodies.len() && #[trigger] may_decode(decode, bodies[i], d) ==> d == Ok::<
                M,
                String,
            >(ms[i]),
        capture_reads_as(decode, capture_image(tag, bodies), tag, r),
    ensures
        r == Ok::<Seq<M>, ErrorView>(ms),
{
    super::format::capture_reads_back(tag, bodies);
    match r {
        Ok(got) => {
            assert forall|i: int| 0 <= i < got.len() implies got[i] == ms[i] by {
                assert(may_decode(decode, bodies[i], Ok::<M, String>(got[i])));
            }
            assert(got =~= ms);
        },
        Err(e) => {
            let rest = capture_image(tag, bodies).skip(HEADER_LEN as int);
            let k = choose|k: nat| fails_after(decode, rest, k, e);
            assert(fails_after(decode, rest, k, e));
            assert(refused(decode, bodies[k as int], k, e));
            let t = choose|t: String| #[trigger]
                may_decode(decode, bodies[k as int], Err::<M, String>(t)) && e
                    == ErrorView::Record(decode_fault(k, t@));
            assert(may_decode(decode, bodies[k as int], Err::<M, String>(t)));
        },
    }
}

/// How many bytes have to be read before progress is reported again.
pub const PROGRESS_STEP: u64 = 65536;

/// Decides when to report progress.
#[derive(Debug)]
pub struct Throttle {
    /// The position reported last.
    pub last: u64,
}

impl Throttle {
    /// A position that has just been reported.
    pub fn start(now: u64) -> (r: Throttle)
        ensures
            r.last == now,
    {
        Throttle { last: now }
    }

    /// Whether to report the position `now`.
    pub fn due(&mut self, now: u64) -> (r: bool)
        requires
            old(self).last <= now,
        ensures
            r == (now - old(self).last >= PROGRESS_STEP),
            final(self).last == if r {
                now
            } else {
                old(self).last
            },
    {
        if now - self.last >= PROGRESS_STEP {
            self.last = now;
            true
        } else {
            false
        }
    }
}

/// The positions reported up to the end of the last of `bodies`: the end of
/// the header, then the end of every entry that is far enough behind the
/// position reported before it.
pub open spec fn reported(bodies: Seq<Seq<u8>>) -> Seq<nat>
    decreases bodies.len(),
{
    if bodies.len() == 0 {
        seq![HEADER_LEN as nat]
    } else {
        let before = reported(bodies.drop_last());
        if extent(bodies) - before.last() >= PROGRESS_STEP {
            before.push(extent(bodies))
        } else {
            before
        }
    }
}

/// Reported positions, each with the size of the whole.
pub open spec fn ticks_of(positions: Seq<nat>, total: u64) -> Seq<(u64, u64)> {
    positions.map_values(|p: nat| (p as u64, total))
}

/// Same as [`read_all`], but reports `(bytes read, total)` along the way: once
/// behind the header, then whenever at least [`PROGRESS_STEP`] bytes have been
/// read since the last report, and at the end if all went well. The reports
/// are added to `ticks` in order.
pub fn read_all_with_progress<M, F: Fn(&[u8]) -> Result<M, String>>(
    bytes: &[u8],
    tag: [u8; 4],
    total: u64,
    decode: F,
    ticks: &mut Vec<(u64, u64)>,
) -> (r: Result<Vec<M>, Error>)
    requires
        takes_any(decode),
    ensures
        capture_reads_as(decode, bytes@, tag@, result_view(r)),
        match header_fault(bytes@, tag@) {
            Some(_) => final(ticks)@ == old(ticks)@,
            None => {
                let rest = bytes@.skip(HEADER_LEN as int);
                let bodies = entries(rest);
                match r {
                    Ok(_) => final(ticks)@ == old(ticks)@ + ticks_of(
                        reported(bodies).push(extent(bodies)),
                        total,
                    ),
                    Err(e) => exists|k: nat|
                        {
                            &&& #[trigger] fails_after(decode, rest, k, e@)
                            &&& final(ticks)@ == old(ticks)@ + ticks_of(
                                reported(bodies.take(k as int)),
                                total,
                            )
                        },
                }
            },
        },
{
    let mut iter = match read_iter(bytes, tag) {
        Ok(it) => it,
        Err(e) => return Err(e),
    };
    let ghost rest = bytes@.skip(HEADER_LEN as int);
    let ghost all = entries(rest);
    let ghost before_ticks = ticks@;
    let mut out: Vec<M> = Vec::new();
    let here: u64 = iter.bytes_read();
    ticks.push((here, total));
    let mut throttle = Throttle::start(here);
    assert(all.take(0) =~= Seq::<Seq<u8>>::empty());
    assert(all.skip(0) =~= all);
    assert(ticks@ =~= before_ticks + ticks_of(reported(all.take(0)), total));
    loop
        invariant
            takes_any(decode),
            all == entries(rest),
            iter.wf(),
            !iter.done(),
            iter.index() == out@.len(),
            iter.consumed() == extent(all.take(out@.len() as int)),
            iter.consumed() <= u64::MAX,
            out@.len() <= all.len(),
            all_decoded(decode, all.take(out@.len() as int), out@),
            all.skip(out@.len() as int) == entries(iter.rest()),
            ending(rest) == ending(iter.rest()),
            throttle.last == reported(all.take(out@.len() as int)).last(),
            reported(all.take(out@.len() as int)).len() > 0,
            throttle.last <= iter.consumed(),
            ticks@ == before_ticks + ticks_of(reported(all.take(out@.len() as int)), total),
            before_ticks == old(ticks)@,
            header_fault(bytes@, tag@) is None,
            rest == bytes@.skip(HEADER_LEN as int),
        decreases iter.rest().len(),
    {
        let ghost before = iter.rest();
        let ghost k = out@.len() as int;
        proof {
            lemma_next_entry(rest, before, k);
        }
        match iter.next(&decode) {
            None => {
                assert(all.take(k) =~= all);
                let now: u64 = iter.bytes_read();
                ticks.push((now, total));
                assert(ticks@ =~= before_ticks + ticks_of(
                    reported(all).push(extent(all)),
                    total,
                ));
                return Ok(out);
            },
            Some(Err(e)) => {
                assert(fails_after(decode, rest, k as nat, e@));
                return Err(e);
            },
            Some(Ok(m)) => {
                let ghost old_out = out@;
                out.push(m);
                proof {
                    lemma_one_more(decode, all, old_out, m);
                    assert(all.take(k + 1).drop_last() =~= all.take(k));
                    assert(all.take(k + 1).last() == all[k]);
                }
                let now: u64 = iter.bytes_read();
                if throttle.due(now) {
                    ticks.push((now, total));
                    assert(ticks@ =~= before_ticks + ticks_of(reported(all.take(k + 1)), total));
                }
            },
        }
    }
}

/// Progress starts behind the header and moves forward; two reports made while
/// entries are read are at least [`PROGRESS_STEP`] bytes apart, and none is
/// ahead of what has been read.
pub proof fn progress_is_throttled(bodies: Seq<Seq<u8>>)
    ensures
        reported(bodies).len() > 0,
        reported(bodies)[0] == HEADER_LEN,
        reported(bodies).last() <= extent(bodies) < reported(bodies).last() + PROGRESS_STEP,
        forall|i: int, j: int|
            0 <= i < j < reported(bodies).len() ==> (#[trigger] reported(bodies)[j])
                >= (#[trigger] reported(bodies)[i]) + PROGRESS_STEP,
    decreases bodies.len(),
{
    if bodies.len() > 0 {
        progress_is_throttled(bodies.drop_last());
    }
}

/// What stands at position `k` of the entries, seen from where a reader is
/// that has read `k` of them.
pub proof fn lemma_next_entry(rest: Seq<u8>, here: Seq<u8>, k: int)
    requires
        0 <= k <= entries(rest).len(),
        entries(rest).skip(k) == entries(here),
    ensures
        match head(here) {
            Head::Entry(n) => {
                &&& k < entries(rest).len()
                &&& entries(rest)[k] == here.subrange(4, 4 + n as int)
                &&& entries(rest).skip(k + 1) == entries(here.skip(4 + n as int))
                &&& ending(here) == ending(here.skip(4 + n as int))
            },
            h => k == entries(rest).len() && ending(here) == h,
        },
{
    let all = entries(rest);
    match head(here) {
        Head::Entry(n) => {
            let body = here.subrange(4, 4 + n as int);
            let tail = entries(here.skip(4 + n as int));
            assert(entries(here) == seq![body] + tail);
            assert(all.skip(k).len() == 1 + tail.len());
            assert(all[k] == all.skip(k)[0]);
            assert(all.skip(k + 1) =~= all.skip(k).skip(1));
            assert((seq![body] + tail).skip(1) =~= tail);
        },
        _ => {
            assert(all.skip(k).len() == 0);
        },
    }
}

/// `d` is what the decoder gives when it is called on `body`.
pub proof fn decoders_are_called_on_the_entry<M, F: Fn(&[u8]) -> Result<M, String>>(
    decode: F,
    body: Seq<u8>,
    d: Result<M, String>,
)
    ensures
        may_decode(decode, body, d) <==> exists|b: &[u8]|
            b@ == body && #[trigger] call_ensures(decode, (b,), d),
{
}

/// Whatever the decoder gives when it is called on `body` is a message.
pub open spec fn always_decodes<M, F: Fn(&[u8]) -> Result<M, String>>(
    decode: F,
    body: Seq<u8>,
    m: M,
) -> bool {
    forall|b: &[u8], d: Result<M, String>|
        b@ == body && #[trigger] call_ensures(decode, (b,), d) ==> d == Ok::<M, String>(m)
}

/// Whatever the decoder gives when it is called on `body` is this error.
pub open spec fn always_refuses<M, F: Fn(&[u8]) -> Result<M, String>>(
    decode: F,
    body: Seq<u8>,
    t: Seq<char>,
) -> bool {
    forall|b: &[u8], d: Result<M, String>|
        b@ == body && #[trigger] call_ensures(decode, (b,), d) ==> d is Err && d->Err_0@ == t
}

/// Reading frames that were written one behind the other, followed by a tail
/// that is no whole frame, gives the message of every frame in order; a tail
/// whose length is above the cap gives the error that says so.
pub proof fn frames_are_read_in_order<M, F: Fn(&[u8]) -> Result<M, String>>(
    decode: F,
    tag: Seq<u8>,
    bodies: Seq<Seq<u8>>,
    tail: Seq<u8>,
    ms: Seq<M>,
    r: Result<Seq<M>, ErrorView>,
)
    requires
        tag.len() == 4,
        ms.len() == bodies.len(),
        forall|i: int|
            0 <= i < bodies.len() ==> (#[trigger] bodies[i]).len() <= 16777216 && always_decodes(
                decode,
                bodies[i],
                ms[i],
            ),
        capture_reads_as(decode, capture_image(tag, bodies) + tail, tag, r),
        tail.len() < 4 || little_endian(tail) > 16777216 || tail.len() < 4 + little_endian(tail),
    ensures
        tail.len() < 4 || little_endian(tail) <= 16777216 ==> r == Ok::<Seq<M>, ErrorView>(ms),
        tail.len() >= 4 && little_endian(tail) > 16777216 ==> r == Err::<Seq<M>, ErrorView>(
            ErrorView::Record(too_large(little_endian(tail) as nat)),
        ),
{
    let image = capture_image(tag, bodies) + tail;
    let rest = image.skip(HEADER_LEN as int);
    assert(all_fit(bodies)) by {
        assert forall|i: int| 0 <= i < bodies.len() implies super::format::fits(
            #[trigger] bodies[i],
        ) by {
            assert(bodies[i].len() <= 16777216);
        }
    }
    super::format::entries_come_before_what_follows(tag, bodies, tail);
    if tail.len() >= 4 {
        assert(little_endian(tail.take(4)) == little_endian(tail));
    }
    assert(entries(tail) =~= Seq::<Seq<u8>>::empty());
    assert(entries(rest) =~= bodies);
    match r {
        Ok(got) => {
            assert forall|i: int| 0 <= i < got.len() implies got[i] == ms[i] by {
                assert(may_decode(decode, entries(rest)[i], Ok::<M, String>(got[i])));
                let b = choose|b: &[u8]|
                    b@ == bodies[i] && #[trigger] call_ensures(
                        decode,
                        (b,),
                        Ok::<M, String>(got[i]),
                    );
                assert(bodies[i].len() <= 16777216);
                assert(call_ensures(decode, (b,), Ok::<M, String>(got[i])));
            }
            assert(got =~= ms);
        },
        Err(e) => {
            let k = choose|k: nat| fails_after(decode, rest, k, e);
            assert(fails_after(decode, rest, k, e));
            if k < bodies.len() {
                assert(refused(decode, bodies[k as int], k, e));
                let t = choose|t: String| #[trigger]
                    may_decode(decode, bodies[k as int], Err::<M, String>(t)) && e
                        == ErrorView::Record(decode_fault(k, t@));
                let b = choose|b: &[u8]|
                    b@ == bodies[k as int] && #[trigger] call_ensures(
                        decode,
                        (b,),
                        Err::<M, String>(t),
                    );
                assert(bodies[k as int].len() <= 16777216);
                assert(call_ensures(decode, (b,), Err::<M, String>(t)));
            }
        },
    }
}

/// The first entry that does not decode ends the reading, with its index and
/// the decoder's reason, whatever follows.
pub proof fn first_bad_entry_ends_the_reading<M, F: Fn(&[u8]) -> Result<M, String>>(
    decode: F,
    tag: Seq<u8>,
    good: Seq<Seq<u8>>,
    bad: Seq<u8>,
    rest: Seq<u8>,
    ms: Seq<M>,
    t: Seq<char>,
    r: Result<Seq<M>, ErrorView>,
)
    requires
        tag.len() == 4,
        ms.len() == good.len(),
        forall|i: int|
            0 <= i < good.len() ==> (#[trigger] good[i]).len() <= 16777216 && always_decodes(
                decode,
                good[i],
                ms[i],
            ),
        bad.len() <= 16777216,
        always_refuses::<M, F>(decode, bad, t),
        capture_reads_as(decode, capture_image(tag, good.push(bad)) + rest, tag, r),
    ensures
        r == Err::<Seq<M>, ErrorView>(ErrorView::Record(decode_fault(good.len(), t))),
{
    let bodies = good.push(bad);
    let image = capture_image(tag, bodies) + rest;
    let after = image.skip(HEADER_LEN as int);
    assert(all_fit(bodies)) by {
        assert forall|i: int| 0 <= i < bodies.len() implies super::format::fits(
            #[trigger] bodies[i],
        ) by {
            if i < good.len() {
                assert(good[i].len() <= 16777216);
            }
        }
    }
    super::format::entries_come_before_what_follows(tag, bodies, rest);
    let all = entries(after);
    let n = good.len();
    assert(all == bodies + entries(rest));
    assert(all[n as int] == bad);
    match r {
        Ok(got) => {
            assert(may_decode(decode, all[n as int], Ok::<M, String>(got[n as int])));
            let b = choose|b: &[u8]|
                b@ == bad && #[trigger] call_ensures(decode, (b,), Ok::<M, String>(got[n as int]));
            assert(call_ensures(decode, (b,), Ok::<M, String>(got[n as int])));
        },
        Err(e) => {
            let k = choose|k: nat| fails_after(decode, after, k, e);
            assert(fails_after(decode, after, k, e));
            if k < n {
                assert(all[k as int] == good[k as int]);
                let s = choose|s: String| #[trigger]
                    may_decode(decode, all[k as int], Err::<M, String>(s)) && e
                        == ErrorView::Record(decode_fault(k, s@));
                let b = choose|b: &[u8]|
                    b@ == good[k as int] && #[trigger] call_ensures(
                        decode,
                        (b,),
                        Err::<M, String>(s),
                    );
                assert(good[k as int].len() <= 16777216);
                assert(call_ensures(decode, (b,), Err::<M, String>(s)));
            } else if k > n {
                let got = choose|got: Seq<M>| #[trigger]
                    all_decoded(decode, all.take(k as int), got);
                assert(may_decode(decode, all.take(k as int)[n as int], Ok::<M, String>(
                    got[n as int],
                )));
                let b = choose|b: &[u8]|
                    b@ == bad && #[trigger] call_ensures(
                        decode,
                        (b,),
                        Ok::<M, String>(got[n as int]),
                    );
                assert(call_ensures(decode, (b,), Ok::<M, String>(got[n as int])));
            } else {
                let s = choose|s: String| #[trigger]
                    may_decode(decode, all[n as int], Err::<M, String>(s)) && e
                        == ErrorView::Record(decode_fault(n, s@));
                let b = choose|b: &[u8]|
                    b@ == bad && #[trigger] call_ensures(decode, (b,), Err::<M, String>(s));
                assert(call_ensures(decode, (b,), Err::<M, String>(s)));
            }
        },
    }
}

/// A reader that refuses the header gives that fault and reads nothing.
pub proof fn bad_headers_are_not_read_past<M, F: Fn(&[u8]) -> Result<M, String>>(
    decode: F,
    bytes: Seq<u8>,
    tag: Seq<u8>,
    r: Result<Seq<M>, ErrorView>,
)
    requires
        tag.len() == 4,
        bytes.len() < 12 || bytes.take(12) != seq![70u8, 82, 71, 69, 1, 0, 0, 0] + tag,
        capture_reads_as(decode, bytes, tag, r),
    ensures
        r is Err,
        header_fault(bytes, tag) matches Some(t) && r == Err::<Seq<M>, ErrorView>(
            ErrorView::Record(t),
        ),
{
    super::format::only_the_right_header_is_accepted(bytes, tag);
}

/// Progress is reported at ends of entries only, counted from the start of the
/// capture, and never again for what was reported before; between two ends no
/// 64 KiB go unreported.
pub proof fn progress_is_reported_where_entries_end(bodies: Seq<Seq<u8>>, k: int)
    requires
        0 <= k <= bodies.len(),
    ensures
        PROGRESS_STEP == 65536,
        reported(bodies.take(k)).is_prefix_of(reported(bodies)),
        capture_extent(bodies.take(k)) - reported(bodies.take(k)).last() < 65536,
        forall|i: int|
            0 <= i < reported(bodies).len() ==> exists|n: int|
                0 <= n <= bodies.len() && #[trigger] reported(bodies)[i] == capture_extent(
                    #[trigger] bodies.take(n),
                ),
    decreases bodies.len(),
{
    progress_is_throttled(bodies.take(k));
    lemma_extent(bodies.take(k));
    if bodies.len() == 0 {
        assert(bodies.take(0) =~= bodies);
    } else {
        let init = bodies.drop_last();
        if k < bodies.len() {
            progress_is_reported_where_entries_end(init, k);
            assert(init.take(k) =~= bodies.take(k));
            assert(reported(init).is_prefix_of(reported(bodies)));
        } else {
            progress_is_reported_where_entries_end(init, 0);
            assert(bodies.take(k) =~= bodies);
        }
        assert forall|i: int| 0 <= i < reported(bodies).len() implies exists|n: int|
            0 <= n <= bodies.len() && #[trigger] reported(bodies)[i] == capture_extent(
                #[trigger] bodies.take(n),
            ) by {
            if i < reported(init).len() {
                assert(reported(bodies)[i] == reported(init)[i]);
                let n = choose|n: int|
                    0 <= n <= init.len() && reported(init)[i] == capture_extent(
                        #[trigger] init.take(n),
                    );
                assert(init.take(n) =~= bodies.take(n));
            } else {
                lemma_extent(bodies);
                assert(bodies.take(bodies.len() as int) =~= bodies);
            }
        }
    }
}

/// How many bytes a capture of these entries takes.
pub open spec fn capture_extent(bodies: Seq<Seq<u8>>) -> nat {
    12 + framed(bodies).len()
}

/// [`extent`] is how many bytes a capture takes.
proof fn lemma_extent(bodies: Seq<Seq<u8>>)
    ensures
        extent(bodies) == capture_extent(bodies),
{
    super::format::lemma_framed_len(bodies);
}

/// Reports pair each position with the total, in order.
pub proof fn ticks_pair_positions_with_the_total(positions: Seq<nat>, total: u64)
    ensures
        ticks_of(positions, total).len() == positions.len(),
        forall|i: int|
            0 <= i < positions.len() && positions[i] <= u64::MAX ==> (#[trigger] ticks_of(
                positions,
                total,
            )[i]).0 == positions[i] && ticks_of(positions, total)[i].1 == total,
{
}

/// A length prefix up to 16 MiB asks for that many bytes and changes nothing; a
/// larger one, or one that cannot be read, ends the reading, silently at the end
/// of the file and else with an error.
pub proof fn lengths_are_capped()
    ensures
        forall|s: &mut FrameState, got: Result<[u8; 4], ReadError>, r: LenStep| #[trigger]
            call_ensures(FrameState::on_len, (s, got), r) ==> {
                let after = *final(s);
                &&& after.bytes_read == (*s).bytes_read
                &&& after.frame_idx == (*s).frame_idx
                &&& match got {
                    Ok(b) => if little_endian(b@) <= 16777216 {
                        &&& after.done == (*s).done
                        &&& r is Body
                        &&& r->Body_0 == little_endian(b@)
                    } else {
                        &&& after.done
                        &&& r matches LenStep::Stop(Some(Error::Record(t)))
                        &&& t@ == too_large(little_endian(b@) as nat)
                    },
                    Err(e) => {
                        &&& after.done
                        &&& r is Stop
                        &&& r->Stop_0 is None <==> e.eof
                    },
                }
            },
        forall|s: &mut FrameState, got: Result<(), ReadError>, r: BodyStep| #[trigger]
            call_ensures(FrameState::on_body, (s, got), r) ==> {
                let after = *final(s);
                &&& after.bytes_read == (*s).bytes_read
                &&& after.frame_idx == (*s).frame_idx
                &&& match got {
                    Ok(_) => r is Decode && after.done == (*s).done,
                    Err(e) => after.done && r is Stop && (r->Stop_0 is None <==> e.eof),
                }
            },
{
}

/// An entry that decodes counts: one more entry, and its bytes with its length
/// prefix. One that does not ends the reading and counts nothing.
pub proof fn decoded_entries_count<M>()
    ensures
        forall|s: &mut FrameState, len: usize, got: Result<M, String>, r: Result<M, Error>|
            (*s).frame_idx < usize::MAX && (*s).bytes_read + 4 + len <= u64::MAX && #[trigger]
                call_ensures(FrameState::on_decoded::<M>, (s, len, got), r) ==> {
                let after = *final(s);
                match got {
                    Ok(m) => {
                        &&& r is Ok && r->Ok_0 == m
                        &&& after.bytes_read == (*s).bytes_read + 4 + len
                        &&& after.frame_idx == (*s).frame_idx + 1
                        &&& after.done == (*s).done
                    },
                    Err(t) => {
                        &&& r is Err
                        &&& after.bytes_read == (*s).bytes_read
                        &&& after.frame_idx == (*s).frame_idx
                        &&& after.done
                    },
                }
            },
{
}

/// The magic, the version and the tag are each accepted exactly if they are the
/// letters `FRGE`, the number one, and the tag that is expected.
pub proof fn header_parts_are_checked(
    got: Result<[u8; 4], ReadError>,
    tag: [u8; 4],
    r: Result<(), Error>,
)
    ensures
        call_ensures(check_magic, (got,), r) ==> (r is Ok <==> got is Ok && got->Ok_0@ == seq![
            70u8,
            82,
            71,
            69,
        ]),
        call_ensures(check_version, (got,), r) ==> (r is Ok <==> got is Ok && little_endian(
            got->Ok_0@,
        ) == 1),
        call_ensures(check_tag, (got, tag), r) ==> (r is Ok <==> got is Ok && got->Ok_0@ == tag@),
{
    super::format::format_has_its_numbers();
    if let Ok(b) = got {
        super::format::lengths_are_little_endian(0, b@);
    }
}

/// Progress is due exactly if 64 KiB have been read since it was reported last.
pub proof fn progress_is_due_by_distance()
    ensures
        forall|t: &mut Throttle, now: u64, r: bool|
            (*t).last <= now && #[trigger] call_ensures(Throttle::due, (t, now), r) ==> {
                &&& r <==> now - (*t).last >= 65536
                &&& r ==> (*final(t)).last == now
                &&& !r ==> (*final(t)).last == (*t).last
            },
{
}

/// An iterator whose next bytes are a frame calls the decoder on the body of the
/// frame. With the message it moves behind the frame, and counts one entry and
/// the bytes of the frame; with a refusal it is over and counts nothing.
pub proof fn iterators_decode_the_next_frame<'a, M, F: Fn(&[u8]) -> Result<M, String>>(
    decode: &F,
    body: Seq<u8>,
    more: Seq<u8>,
)
    requires
        takes_any(*decode),
        body.len() <= 16777216,
    ensures
        forall|it: &mut ReadIter<'a>, r: Option<Result<M, Error>>|
            (*it).wf() && !(*it).done() && (*it).rest() == frame(body) + more && #[trigger]
                call_ensures(ReadIter::<'a>::next::<M, F>, (it, decode), r) ==> {
                let after = *final(it);
                match r {
                    Some(Ok(m)) => {
                        &&& exists|b: &[u8]|
                            b@ == body && #[trigger] call_ensures(*decode, (b,), Ok::<M, String>(m))
                        &&& after.wf()
                        &&& !after.done()
                        &&& after.rest() == more
                        &&& after.index() == (*it).index() + 1
                        &&& after.consumed() == (*it).consumed() + 4 + body.len()
                    },
                    Some(Err(e)) => {
                        &&& exists|b: &[u8], t: String|
                            b@ == body && #[trigger] call_ensures(
                                *decode,
                                (b,),
                                Err::<M, String>(t),
                            ) && e@ == ErrorView::Record(decode_fault((*it).index(), t@))
                        &&& after.done()
                        &&& after.index() == (*it).index()
                        &&& after.consumed() == (*it).consumed()
                    },
                    None => false,
                }
            },
{
    super::format::lemma_frame_head(body, more);
    assert forall|it: &mut ReadIter<'a>, r: Option<Result<M, Error>>|
        (*it).wf() && !(*it).done() && (*it).rest() == frame(body) + more && #[trigger]
            call_ensures(ReadIter::<'a>::next::<M, F>, (it, decode), r) implies (r matches Some(
        Err(e),
    ) ==> exists|b: &[u8], t: String|
        b@ == body && #[trigger] call_ensures(*decode, (b,), Err::<M, String>(t)) && e@
            == ErrorView::Record(decode_fault((*it).index(), t@))) by {
        if let Some(Err(e)) = r {
            assert(refused::<M, F>(*decode, body, (*it).index(), e@));
            let t = choose|t: String| #[trigger]
                may_decode(*decode, body, Err::<M, String>(t)) && e@ == ErrorView::Record(
                    decode_fault((*it).index(), t@),
                );
            let b = choose|b: &[u8]|
                b@ == body && #[trigger] call_ensures(*decode, (b,), Err::<M, String>(t));
            assert(call_ensures(*decode, (b,), Err::<M, String>(t)));
        }
    }
}

/// An iterator before fewer than four bytes, or before a length that reaches past
/// the end, gives nothing; before a length above 16 MiB it gives an error that
/// says so. Either way it is over and counts nothing, and one that is over gives
/// nothing and stays as it is.
pub proof fn iterators_end_where_no_frame_is_left<'a, M, F: Fn(&[u8]) -> Result<M, String>>(
    decode: &F,
)
    requires
        takes_any(*decode),
    ensures
        forall|it: &mut ReadIter<'a>, r: Option<Result<M, Error>>|
            (*it).wf() && #[trigger] call_ensures(
                ReadIter::<'a>::next::<M, F>,
                (it, decode),
                r,
            ) ==> {
                let tail = (*it).rest();
                let after = *final(it);
                &&& (*it).done() ==> r is None && after == *it
                &&& !(*it).done() && (tail.len() < 4 || little_endian(tail) <= 16777216
                    && tail.len() < 4 + little_endian(tail)) ==> r is None && after.done()
                    && after.index() == (*it).index() && after.consumed() == (*it).consumed()
                &&& !(*it).done() && tail.len() >= 4 && little_endian(tail) > 16777216 ==> (r
                    matches Some(Err(e)) && e@ == ErrorView::Record(
                    too_large(little_endian(tail) as nat),
                )) && after.done() && after.index() == (*it).index() && after.consumed()
                    == (*it).consumed()
            },
{
    assert forall|it: &mut ReadIter<'a>, r: Option<Result<M, Error>>|
        (*it).wf() && #[trigger] call_ensures(
            ReadIter::<'a>::next::<M, F>,
            (it, decode),
            r,
        ) && (*it).rest().len() >= 4 implies little_endian((*it).rest().take(4)) == little_endian(
        (*it).rest(),
    ) by {}
}

/// An iterator is given exactly for the right header, and stands behind it.
pub proof fn iterators_start_behind_the_header<'a>(
    bytes: &'a [u8],
    tag: [u8; 4],
    r: Result<ReadIter<'a>, Error>,
)
    requires
        call_ensures(read_iter, (bytes, tag), r),
    ensures
        r is Ok <==> bytes@.len() >= 12 && bytes@.take(12) == seq![70u8, 82, 71, 69, 1, 0, 0, 0]
            + tag@,
        r matches Ok(it) ==> {
            &&& it.wf()
            &&& !it.done()
            &&& it.index() == 0
            &&& it.consumed() == 12
            &&& it.rest() == bytes@.skip(12)
        },
{
    super::format::only_the_right_header_is_accepted(bytes@, tag@);
}

} // verus!
