//! The capture format as a mathematical object: integers in little-endian
//! order, the header, and how a byte sequence divides into frames.

use vstd::prelude::*;
use vstd::string::*;

use super::{in_context, HEADER_LEN, MAGIC, MAX_FRAME_BYTES, VERSION};
use crate::error::{framed_by, lemma_framed_by};
use crate::text::{decimal, push_decimal};

verus! {

/// The four bytes of `n`, lowest first.
pub open spec fn le32(n: nat) -> Seq<u8> {
    seq![
        (n % 256) as u8,
        (n / 256 % 256) as u8,
        (n / 65536 % 256) as u8,
        (n / 16777216 % 256) as u8,
    ]
}

/// The number that four bytes denote, lowest first.
pub open spec fn le32_value(s: Seq<u8>) -> nat {
    (s[0] + 256 * s[1] + 65536 * s[2] + 16777216 * s[3]) as nat
}

/// Reading four bytes gives back the number that was written.
pub proof fn lemma_le32(n: nat)
    requires
        n <= u32::MAX,
    ensures
        le32(n).len() == 4,
        le32_value(le32(n)) == n,
{
    assert(n / 65536 == n / 256 / 256);
    assert(n / 16777216 == n / 65536 / 256);
}

/// The four bytes of `n`.
pub fn u32_bytes(n: u32) -> (r: [u8; 4])
    ensures
        r@ == le32(n as nat),
{
    [(n % 256) as u8, (n / 256 % 256) as u8, (n / 65536 % 256) as u8, (n / 16777216) as u8]
}

/// The number that four bytes denote.
pub fn u32_value(b: &[u8; 4]) -> (r: u32)
    ensures
        r == le32_value(b@),
{
    b[0] as u32 + 256 * (b[1] as u32) + 65536 * (b[2] as u32) + 16777216 * (b[3] as u32)
}

/// `1, 2, 3`: bytes as a list of decimal numbers, without the brackets.
pub open spec fn byte_items(s: Seq<u8>) -> Seq<char>
    decreases s.len(),
{
    if s.len() == 0 {
        Seq::empty()
    } else if s.len() == 1 {
        decimal(s[0] as nat)
    } else {
        byte_items(s.drop_last()) + ", "@ + decimal(s.last() as nat)
    }
}

/// `[1, 2, 3]`: bytes as a list of decimal numbers.
pub open spec fn byte_list(s: Seq<u8>) -> Seq<char> {
    "["@ + byte_items(s) + "]"@
}

/// Appends four bytes as a list of decimal numbers.
pub fn push_byte_list(out: &mut String, b: &[u8; 4])
    ensures
        final(out)@ == old(out)@ + byte_list(b@),
{
    out.append("[");
    let mut i: usize = 0;
    let ghost start = out@;
    while i < 4
        invariant
            i <= 4,
            b@.len() == 4,
            out@ == start + byte_items(b@.take(i as int)),
        decreases 4 - i,
    {
        let ghost before = b@.take(i as int);
        let ghost after = b@.take(i as int + 1);
        assert(after.drop_last() =~= before);
        assert(after.last() == b@[i as int]);
        if i > 0 {
            out.append(", ");
        } else {
            assert(byte_items(before) =~= Seq::<char>::empty());
        }
        push_decimal(out, b[i] as u64);
        i += 1;
        assert(out@ =~= start + byte_items(after));
    }
    assert(b@.take(4) =~= b@);
    out.append("]");
    assert(out@ =~= old(out)@ + byte_list(b@));
}

/// The header of a capture with the given tag.
pub open spec fn header(tag: Seq<u8>) -> Seq<u8> {
    MAGIC@ + le32(VERSION as nat) + tag
}

/// One entry as it stands in a capture: its length, then its bytes.
pub open spec fn frame(body: Seq<u8>) -> Seq<u8>
    recommends
        body.len() <= u32::MAX,
{
    le32(body.len()) + body
}

/// Entries one after the other.
pub open spec fn framed(bodies: Seq<Seq<u8>>) -> Seq<u8>
    decreases bodies.len(),
{
    if bodies.len() == 0 {
        Seq::empty()
    } else {
        framed(bodies.drop_last()) + frame(bodies.last())
    }
}

/// A whole capture.
pub open spec fn capture_image(tag: Seq<u8>, bodies: Seq<Seq<u8>>) -> Seq<u8> {
    header(tag) + framed(bodies)
}

/// What stands at the start of the bytes after a header or an entry.
pub enum Head {
    /// Nothing, or the partial frame of an interrupted writer.
    End,
    /// A length prefix above the cap.
    TooLarge(nat),
    /// An entry of this many bytes.
    Entry(nat),
}

/// What stands at the start of `rest`.
pub open spec fn head(rest: Seq<u8>) -> Head {
    if rest.len() < 4 {
        Head::End
    } else {
        let n = le32_value(rest.take(4));
        if n > MAX_FRAME_BYTES {
            Head::TooLarge(n)
        } else if rest.len() < 4 + n {
            Head::End
        } else {
            Head::Entry(n)
        }
    }
}

/// The entries at the start of `rest`, up to its end or an oversized frame.
pub open spec fn entries(rest: Seq<u8>) -> Seq<Seq<u8>>
    decreases rest.len(),
{
    match head(rest) {
        Head::Entry(n) => seq![rest.subrange(4, 4 + n as int)] + entries(rest.skip(4 + n as int)),
        _ => Seq::empty(),
    }
}

/// What stands behind the last entry of `rest`: its end or an oversized frame.
pub open spec fn ending(rest: Seq<u8>) -> Head
    decreases rest.len(),
{
    match head(rest) {
        Head::Entry(n) => ending(rest.skip(4 + n as int)),
        other => other,
    }
}

/// How many bytes a capture holds up to the end of its last entry.
pub open spec fn extent(bodies: Seq<Seq<u8>>) -> nat
    decreases bodies.len(),
{
    if bodies.len() == 0 {
        HEADER_LEN as nat
    } else {
        extent(bodies.drop_last()) + 4 + bodies.last().len()
    }
}

/// What a read from memory says when too few bytes are left.
pub open spec fn short_read() -> Seq<char> {
    "failed to fill whole buffer"@
}

/// What is wrong with the first four bytes.
pub open spec fn magic_fault(got: Seq<u8>) -> Option<Seq<char>> {
    if got == MAGIC@ {
        None
    } else {
        Some("not a fridge capture (bad magic "@ + byte_list(got) + ")"@)
    }
}

/// What is wrong with the version bytes.
pub open spec fn version_fault(got: Seq<u8>) -> Option<Seq<char>> {
    let v = le32_value(got);
    if v == VERSION {
        None
    } else {
        Some(
            "unsupported capture version "@ + decimal(v) + " (this build expects "@ + decimal(
                VERSION as nat,
            ) + ")"@,
        )
    }
}

/// What is wrong with the tag bytes for a reader that expects `tag`.
pub open spec fn tag_fault(got: Seq<u8>, tag: Seq<u8>) -> Option<Seq<char>> {
    if got == tag {
        None
    } else {
        Some(
            "wrong consumer tag: file has "@ + byte_list(got) + ", reader expected "@ + byte_list(
                tag,
            ),
        )
    }
}

/// What is wrong with the header of `bytes` for a reader that expects `tag`:
/// the first fault met, reading from the front.
pub open spec fn header_fault(bytes: Seq<u8>, tag: Seq<u8>) -> Option<Seq<char>> {
    if bytes.len() < 4 {
        Some(in_context("read magic"@, short_read()))
    } else if magic_fault(bytes.subrange(0, 4)) is Some {
        magic_fault(bytes.subrange(0, 4))
    } else if bytes.len() < 8 {
        Some(in_context("read version"@, short_read()))
    } else if version_fault(bytes.subrange(4, 8)) is Some {
        version_fault(bytes.subrange(4, 8))
    } else if bytes.len() < 12 {
        Some(in_context("read tag"@, short_read()))
    } else {
        tag_fault(bytes.subrange(8, 12), tag)
    }
}

/// What a reader says about a length prefix above the cap.
pub open spec fn too_large(n: nat) -> Seq<char> {
    "frame too large: "@ + decimal(n) + " bytes (cap "@ + decimal(MAX_FRAME_BYTES as nat)
        + "); file likely corrupt"@
}

/// What a reader says when the entry with index `i` does not decode.
pub open spec fn decode_fault(i: nat, e: Seq<char>) -> Seq<char> {
    in_context("decode at frame#"@ + decimal(i), e)
}

/// An entry that a reader accepts: at most the cap.
pub open spec fn fits(body: Seq<u8>) -> bool {
    body.len() <= MAX_FRAME_BYTES
}

/// Entries that a reader accepts.
pub open spec fn all_fit(bodies: Seq<Seq<u8>>) -> bool {
    forall|i: int| 0 <= i < bodies.len() ==> fits(#[trigger] bodies[i])
}

/// A frame is read back as the entry it was made of, and what follows it is
/// untouched.
pub proof fn lemma_frame_head(body: Seq<u8>, rest: Seq<u8>)
    requires
        fits(body),
    ensures
        head(frame(body) + rest) == Head::Entry(body.len()),
        (frame(body) + rest).subrange(4, 4 + body.len() as int) == body,
        (frame(body) + rest).skip(4 + body.len() as int) == rest,
{
    let n = body.len();
    lemma_le32(n);
    let all = frame(body) + rest;
    assert(all.take(4) =~= le32(n));
    assert(all.subrange(4, 4 + n as int) =~= body);
    assert(all.skip(4 + n as int) =~= rest);
}

/// Frames written one after the other and followed by anything are read back
/// first, in order.
pub proof fn lemma_framed(bodies: Seq<Seq<u8>>, rest: Seq<u8>)
    requires
        all_fit(bodies),
    ensures
        entries(framed(bodies) + rest) == bodies + entries(rest),
        ending(framed(bodies) + rest) == ending(rest),
    decreases bodies.len(),
{
    if bodies.len() == 0 {
        assert(framed(bodies) + rest =~= rest);
        assert(bodies + entries(rest) =~= entries(rest));
    } else {
        let init = bodies.drop_last();
        let body = bodies.last();
        assert(fits(bodies[bodies.len() - 1]));
        assert forall|i: int| 0 <= i < init.len() implies fits(#[trigger] init[i]) by {
            assert(fits(bodies[i]));
        }
        lemma_framed(init, frame(body) + rest);
        lemma_frame_head(body, rest);
        assert(framed(bodies) + rest =~= framed(init) + (frame(body) + rest));
        assert(entries(frame(body) + rest) == seq![body] + entries(rest));
        assert(bodies + entries(rest) =~= init + (seq![body] + entries(rest)));
    }
}

/// The length of frames written one after the other.
pub proof fn lemma_framed_len(bodies: Seq<Seq<u8>>)
    ensures
        framed(bodies).len() + HEADER_LEN == extent(bodies),
    decreases bodies.len(),
{
    if bodies.len() > 0 {
        lemma_framed_len(bodies.drop_last());
    }
}

/// A capture is read back as the entries that were written, and nothing is
/// wrong with it.
pub proof fn capture_reads_back(tag: Seq<u8>, bodies: Seq<Seq<u8>>)
    requires
        tag.len() == 4,
        all_fit(bodies),
    ensures
        header_fault(capture_image(tag, bodies), tag) is None,
        entries(capture_image(tag, bodies).skip(HEADER_LEN as int)) == bodies,
        ending(capture_image(tag, bodies).skip(HEADER_LEN as int)) == Head::End,
        capture_image(tag, bodies).len() == extent(bodies),
{
    let image = capture_image(tag, bodies);
    lemma_header(tag, framed(bodies));
    lemma_framed(bodies, Seq::empty());
    lemma_framed_len(bodies);
    assert(image.skip(12) =~= framed(bodies) + Seq::<u8>::empty());
    assert(bodies + entries(Seq::empty()) =~= bodies);
}

/// Whatever stands behind the entries of a capture is read after them: a
/// partial frame there is dropped and the entries before it stay, and a frame
/// above the cap is refused once they have been read.
pub proof fn entries_come_before_what_follows(tag: Seq<u8>, bodies: Seq<Seq<u8>>, rest: Seq<u8>)
    requires
        tag.len() == 4,
        all_fit(bodies),
    ensures
        header_fault(capture_image(tag, bodies) + rest, tag) is None,
        entries((capture_image(tag, bodies) + rest).skip(HEADER_LEN as int)) == bodies + entries(
            rest,
        ),
        ending((capture_image(tag, bodies) + rest).skip(HEADER_LEN as int)) == ending(rest),
        head(rest) is End ==> entries(rest) == Seq::<Seq<u8>>::empty() && ending(rest) is End,
        head(rest) is TooLarge ==> entries(rest) == Seq::<Seq<u8>>::empty() && ending(rest)
            is TooLarge,
{
    lemma_header(tag, framed(bodies) + rest);
    lemma_framed(bodies, rest);
    assert(capture_image(tag, bodies) + rest =~= header(tag) + (framed(bodies) + rest));
}

/// The header of a capture is accepted by a reader with its tag, whatever
/// follows.
pub proof fn lemma_header(tag: Seq<u8>, rest: Seq<u8>)
    requires
        tag.len() == 4,
    ensures
        header(tag).len() == HEADER_LEN,
        header_fault(header(tag) + rest, tag) is None,
        (header(tag) + rest).skip(HEADER_LEN as int) == rest,
{
    let all = header(tag) + rest;
    lemma_le32(VERSION as nat);
    assert(all.subrange(0, 4) =~= MAGIC@);
    assert(all.subrange(4, 8) =~= le32(VERSION as nat));
    assert(all.subrange(8, 12) =~= tag);
    assert(all.skip(12) =~= rest);
}

/// A reader with another tag refuses a capture, and says so.
pub proof fn other_tag_is_refused(tag: Seq<u8>, other: Seq<u8>, bodies: Seq<Seq<u8>>)
    requires
        tag.len() == 4,
        other != tag,
    ensures
        header_fault(capture_image(tag, bodies), other) == tag_fault(tag, other),
        tag_fault(tag, other) is Some,
{
    let all = capture_image(tag, bodies);
    lemma_le32(VERSION as nat);
    assert(all.subrange(0, 4) =~= MAGIC@);
    assert(all.subrange(4, 8) =~= le32(VERSION as nat));
    assert(all.subrange(8, 12) =~= tag);
}

/// How many of the entries end at or before the offset `cut` of a capture.
pub open spec fn whole_before(bodies: Seq<Seq<u8>>, cut: int) -> nat
    decreases bodies.len(),
{
    if bodies.len() == 0 || extent(bodies) <= cut {
        bodies.len()
    } else {
        whole_before(bodies.drop_last(), cut)
    }
}

/// A capture cut off anywhere behind its header still reads as the entries
/// that are whole in it: those before the cut, none of them altered, and no
/// error. With a flush behind every append the file holds at least what was
/// there before the last one, so a crash loses at most the entry in flight.
pub proof fn cut_capture_keeps_whole_entries(tag: Seq<u8>, bodies: Seq<Seq<u8>>, cut: int)
    requires
        tag.len() == 4,
        all_fit(bodies),
        HEADER_LEN <= cut <= capture_image(tag, bodies).len(),
    ensures
        header_fault(capture_image(tag, bodies).take(cut), tag) is None,
        entries(capture_image(tag, bodies).take(cut).skip(HEADER_LEN as int)) == bodies.take(
            whole_before(bodies, cut) as int,
        ),
        ending(capture_image(tag, bodies).take(cut).skip(HEADER_LEN as int)) == Head::End,
    decreases bodies.len(),
{
    let image = capture_image(tag, bodies);
    lemma_header(tag, framed(bodies));
    lemma_framed_len(bodies);
    if cut == image.len() {
        capture_reads_back(tag, bodies);
        assert(image.take(cut) =~= image);
        assert(bodies.take(bodies.len() as int) =~= bodies);
    } else {
        let init = bodies.drop_last();
        let body = bodies.last();
        assert(fits(bodies[bodies.len() - 1]));
        assert forall|i: int| 0 <= i < init.len() implies fits(#[trigger] init[i]) by {
            assert(fits(bodies[i]));
        }
        lemma_framed_len(init);
        lemma_whole_before(init, cut);
        let before = capture_image(tag, init);
        assert(image =~= before + frame(body));
        assert(init.take(whole_before(init, cut) as int) =~= bodies.take(
            whole_before(init, cut) as int,
        ));
        if cut <= before.len() {
            cut_capture_keeps_whole_entries(tag, init, cut);
            assert(image.take(cut) =~= before.take(cut));
        } else {
            let part = frame(body).take(cut - before.len());
            lemma_header(tag, framed(init) + part);
            assert(image.take(cut) =~= header(tag) + (framed(init) + part));
            lemma_framed(init, part);
            lemma_partial_frame(body, part.len());
            assert(init + entries(part) =~= init);
            assert(init.take(init.len() as int) =~= init);
        }
    }
}

/// A strict part of a frame holds no entry.
proof fn lemma_partial_frame(body: Seq<u8>, n: nat)
    requires
        fits(body),
        n < frame(body).len(),
    ensures
        head(frame(body).take(n as int)) == Head::End,
{
    lemma_le32(body.len());
    let part = frame(body).take(n as int);
    if n >= 4 {
        assert(part.take(4) =~= le32(body.len()));
    }
}

/// [`whole_before`] counts the entries that end at or before the cut, and no
/// others.
pub proof fn lemma_whole_before(bodies: Seq<Seq<u8>>, cut: int)
    ensures
        whole_before(bodies, cut) <= bodies.len(),
        whole_before(bodies, cut) > 0 ==> extent(
            bodies.take(whole_before(bodies, cut) as int),
        ) <= cut,
        whole_before(bodies, cut) < bodies.len() ==> cut < extent(
            bodies.take(whole_before(bodies, cut) as int + 1),
        ),
    decreases bodies.len(),
{
    let k = whole_before(bodies, cut) as int;
    assert(bodies.take(bodies.len() as int) =~= bodies);
    if bodies.len() > 0 && extent(bodies) > cut {
        let init = bodies.drop_last();
        lemma_whole_before(init, cut);
        assert(init.take(k) =~= bodies.take(k));
        if k < init.len() {
            assert(init.take(k + 1) =~= bodies.take(k + 1));
        } else {
            assert(bodies.take(k + 1) =~= bodies);
        }
    }
}

/// The numbers of the format.
pub proof fn format_has_its_numbers()
    ensures
        MAGIC@ == seq![70u8, 82, 71, 69],
        VERSION == 1,
        HEADER_LEN == 12,
        MAX_FRAME_BYTES == 16 * 1024 * 1024,
{
    assert(MAGIC@ =~= seq![70u8, 82, 71, 69]);
}

/// The number whose bytes these are, the lowest first.
pub open spec fn little_endian(s: Seq<u8>) -> int {
    s[0] as int + 256 * s[1] as int + 65536 * s[2] as int + 16777216 * s[3] as int
}

/// Four bytes stand for the number that they spell with the lowest first, and
/// a number is written as the four bytes that spell it.
pub proof fn lengths_are_little_endian(n: nat, s: Seq<u8>)
    requires
        n <= u32::MAX,
        s.len() == 4,
    ensures
        le32(n).len() == 4,
        little_endian(le32(n)) == n,
        le32_value(s) == little_endian(s),
        le32(le32_value(s)) == s,
{
    lemma_le32(n);
    let v = le32_value(s);
    assert(v % 256 == s[0]);
    assert(v / 256 == s[1] + 256 * s[2] + 65536 * s[3]);
    assert(v / 256 % 256 == s[1]);
    assert(v / 65536 == s[2] + 256 * s[3]);
    assert(v / 65536 % 256 == s[2]);
    assert(v / 16777216 == s[3]);
    assert(le32(v) =~= s);
}

/// A header is the letters `FRGE`, the version one and the tag; a frame is the
/// length of its body, then the body.
pub proof fn captures_are_laid_out(tag: Seq<u8>, body: Seq<u8>)
    requires
        body.len() <= u32::MAX,
    ensures
        header(tag) == seq![70u8, 82, 71, 69, 1, 0, 0, 0] + tag,
        frame(body).len() == 4 + body.len(),
        little_endian(frame(body)) == body.len(),
        frame(body).skip(4) == body,
        capture_image(tag, Seq::empty()) == header(tag),
        capture_image(tag, seq![body]) == header(tag) + frame(body),
{
    lemma_le32(body.len());
    assert(header(tag) =~= seq![70u8, 82, 71, 69, 1, 0, 0, 0] + tag);
    assert(frame(body).skip(4) =~= body);
    assert(frame(body).take(4) =~= le32(body.len()));
    assert(capture_image(tag, Seq::empty()) =~= header(tag));
    let one = seq![body];
    assert(one.drop_last() =~= Seq::<Seq<u8>>::empty());
    assert(framed(one.drop_last()) =~= Seq::<u8>::empty());
    assert(capture_image(tag, one) =~= header(tag) + frame(body));
}

/// Frames of two lists, one after the other, are the frames of the joined list.
pub proof fn frames_follow_each_other(a: Seq<Seq<u8>>, b: Seq<Seq<u8>>)
    ensures
        framed(a + b) == framed(a) + framed(b),
    decreases b.len(),
{
    if b.len() == 0 {
        assert(a + b =~= a);
        assert(framed(a) + framed(b) =~= framed(a));
    } else {
        frames_follow_each_other(a, b.drop_last());
        assert((a + b).drop_last() =~= a + b.drop_last());
        assert((a + b).last() == b.last());
        assert(framed(a + b) =~= framed(a) + framed(b));
    }
}

/// The bytes behind a header are the frames of their entries, none of them
/// above 16 MiB, and a tail that is no whole frame: fewer than four bytes, or a
/// length above 16 MiB, or a length that reaches past the end. A reading ends
/// with an error for such a length, and else cleanly.
pub proof fn bytes_are_entries_and_a_tail(rest: Seq<u8>) -> (tail: Seq<u8>)
    ensures
        rest == framed(entries(rest)) + tail,
        forall|i: int|
            0 <= i < entries(rest).len() ==> (#[trigger] entries(rest)[i]).len() <= 16777216,
        tail.len() < 4 || little_endian(tail) > 16777216 || tail.len() < 4 + little_endian(tail),
        match ending(rest) {
            Head::End => tail.len() < 4 || little_endian(tail) <= 16777216,
            Head::TooLarge(n) => tail.len() >= 4 && little_endian(tail) == n && n > 16777216,
            Head::Entry(_) => false,
        },
    decreases rest.len(),
{
    match head(rest) {
        Head::Entry(n) => {
            let body = rest.subrange(4, 4 + n as int);
            let after = rest.skip(4 + n as int);
            let tail = bytes_are_entries_and_a_tail(after);
            let first = seq![body];
            lengths_are_little_endian(0, rest.take(4));
            assert(le32(n) == rest.take(4));
            assert(rest =~= frame(body) + after);
            frames_follow_each_other(first, entries(after));
            assert(first.drop_last() =~= Seq::<Seq<u8>>::empty());
            assert(framed(first.drop_last()) =~= Seq::<u8>::empty());
            assert(framed(first) =~= frame(body));
            assert(rest =~= framed(entries(rest)) + tail);
            assert forall|i: int| 0 <= i < entries(rest).len() implies (#[trigger] entries(
                rest,
            )[i]).len() <= 16777216 by {
                if i > 0 {
                    assert(entries(rest)[i] == entries(after)[i - 1]);
                }
            }
            tail
        },
        _ => {
            if rest.len() >= 4 {
                assert(little_endian(rest.take(4)) == little_endian(rest));
            }
            assert(rest =~= framed(entries(rest)) + rest);
            rest
        },
    }
}

/// A header is accepted exactly if it is the letters `FRGE`, the version one
/// and the tag that the reader expects.
pub proof fn only_the_right_header_is_accepted(bytes: Seq<u8>, tag: Seq<u8>)
    requires
        tag.len() == 4,
    ensures
        header_fault(bytes, tag) is None <==> bytes.len() >= 12 && bytes.take(12) == seq![
            70u8,
            82,
            71,
            69,
            1,
            0,
            0,
            0,
        ] + tag,
{
    let want = seq![70u8, 82, 71, 69, 1, 0, 0, 0] + tag;
    format_has_its_numbers();
    if header_fault(bytes, tag) is None {
        lengths_are_little_endian(1, bytes.subrange(4, 8));
        assert(le32(1) =~= seq![1u8, 0, 0, 0]);
        let a = bytes.subrange(0, 4);
        let b = bytes.subrange(4, 8);
        let c = bytes.subrange(8, 12);
        assert(bytes.take(12) =~= a + b + c);
        assert(a + b + c =~= want);
    }
    if bytes.len() >= 12 && bytes.take(12) == want {
        assert forall|i: int| 0 <= i < 12 implies bytes[i] == want[i] by {
            assert(bytes.take(12)[i] == bytes[i]);
        }
        assert(bytes.subrange(0, 4) =~= MAGIC@);
        assert(le32_value(bytes.subrange(4, 8)) == 1);
        assert(bytes.subrange(8, 12) =~= tag);
    }
}

/// Four bytes are shown as their decimal numbers in brackets.
pub proof fn bytes_are_shown_in_brackets(a: u8, b: u8, c: u8, d: u8)
    ensures
        byte_list(seq![a, b, c, d]) == "["@ + decimal(a as nat) + ", "@ + decimal(b as nat) + ", "@
            + decimal(c as nat) + ", "@ + decimal(d as nat) + "]"@,
{
    reveal_with_fuel(byte_items, 5);
    let s = seq![a, b, c, d];
    assert(s.drop_last() =~= seq![a, b, c]);
    assert(seq![a, b, c].drop_last() =~= seq![a, b]);
    assert(seq![a, b].drop_last() =~= seq![a]);
    assert(byte_list(s) =~= "["@ + decimal(a as nat) + ", "@ + decimal(b as nat) + ", "@ + decimal(
        c as nat,
    ) + ", "@ + decimal(d as nat) + "]"@);
}

/// What is wrong with a header is told by where it first departs: too short, or
/// other letters, another version, another tag, each shown as it stands.
pub proof fn header_faults_tell_what_stands_there(bytes: Seq<u8>, tag: Seq<u8>)
    requires
        tag.len() == 4,
    ensures
        ({
            let letters = seq![70u8, 82, 71, 69];
            let fault = header_fault(bytes, tag);
            if bytes.len() < 4 {
                fault == Some("read magic"@ + ": "@ + "failed to fill whole buffer"@)
            } else if bytes.take(4) != letters {
                fault matches Some(t) && framed_by(
                    t,
                    "not a fridge capture (bad magic "@,
                    byte_list(bytes.take(4)),
                    ")"@,
                )
            } else if bytes.len() < 8 {
                fault == Some("read version"@ + ": "@ + "failed to fill whole buffer"@)
            } else if little_endian(bytes.skip(4)) != 1 {
                fault matches Some(t) && framed_by(
                    t,
                    "unsupported capture version "@,
                    decimal(little_endian(bytes.skip(4)) as nat),
                    " (this build expects "@ + decimal(1) + ")"@,
                )
            } else if bytes.len() < 12 {
                fault == Some("read tag"@ + ": "@ + "failed to fill whole buffer"@)
            } else if bytes.subrange(8, 12) != tag {
                fault matches Some(t) && framed_by(
                    t,
                    "wrong consumer tag: file has "@,
                    byte_list(bytes.subrange(8, 12)) + ", reader expected "@,
                    byte_list(tag),
                )
            } else {
                fault is None
            }
        }),
{
    format_has_its_numbers();
    if bytes.len() >= 4 {
        assert(bytes.subrange(0, 4) =~= bytes.take(4));
        lemma_framed_by("not a fridge capture (bad magic "@, byte_list(bytes.take(4)), ")"@);
    }
    if bytes.len() >= 8 {
        let v = le32_value(bytes.subrange(4, 8));
        assert(v == little_endian(bytes.skip(4)));
        let tail = " (this build expects "@ + decimal(1) + ")"@;
        lemma_framed_by("unsupported capture version "@, decimal(v), tail);
        assert("unsupported capture version "@ + decimal(v) + tail
            =~= "unsupported capture version "@ + decimal(v) + " (this build expects "@ + decimal(1)
            + ")"@);
    }
    if bytes.len() >= 12 {
        let got = byte_list(bytes.subrange(8, 12));
        let middle = got + ", reader expected "@;
        lemma_framed_by("wrong consumer tag: file has "@, middle, byte_list(tag));
        assert("wrong consumer tag: file has "@ + middle + byte_list(tag)
            =~= "wrong consumer tag: file has "@ + got + ", reader expected "@ + byte_list(tag));
    }
}

/// An oversized length and a failed decoding are reported with the length, the
/// index and the reason.
pub proof fn entry_faults_tell_what_failed(n: nat, i: nat, e: Seq<char>)
    ensures
        framed_by(
            too_large(n),
            "frame too large: "@,
            decimal(n),
            " bytes (cap "@ + decimal(16777216) + "); file likely corrupt"@,
        ),
        framed_by(decode_fault(i, e), "decode at frame#"@, decimal(i), ": "@ + e),
{
    let tail = " bytes (cap "@ + decimal(16777216) + "); file likely corrupt"@;
    lemma_framed_by("frame too large: "@, decimal(n), tail);
    assert(too_large(n) =~= "frame too large: "@ + decimal(n) + tail);
    lemma_framed_by("decode at frame#"@, decimal(i), ": "@ + e);
    assert(decode_fault(i, e) =~= "decode at frame#"@ + decimal(i) + (": "@ + e));
}

} // verus!
