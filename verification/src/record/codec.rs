//! How `bincode` lays out the values that entries are made of: integers of
//! variable length, texts and optional byte strings.

use vstd::prelude::*;
use vstd::string::*;
use vstd::utf8::{decode_utf8, encode_utf8, valid_utf8};

use super::format::{le32, le32_value, lemma_le32, lengths_are_little_endian, little_endian};

verus! {

/// The two bytes of `n`, lowest first.
pub open spec fn le16(n: nat) -> Seq<u8> {
    seq![(n % 256) as u8, (n / 256 % 256) as u8]
}

/// The eight bytes of `n`, lowest first.
pub open spec fn le64(n: nat) -> Seq<u8> {
    le32(n % 0x1_0000_0000) + le32(n / 0x1_0000_0000)
}

/// An unsigned integer: one byte where it is small, else a mark for the width
/// and the number in little-endian order.
pub open spec fn varint(n: nat) -> Seq<u8> {
    if n < 251 {
        seq![n as u8]
    } else if n < 0x1_0000 {
        seq![251u8] + le16(n)
    } else if n < 0x1_0000_0000 {
        seq![252u8] + le32(n)
    } else {
        seq![253u8] + le64(n)
    }
}

/// The integer at the start of `s`, at most `widest` bytes wide, and how many
/// bytes it takes; `None` where there is none.
pub open spec fn varint_at(s: Seq<u8>, widest: nat) -> Option<(nat, nat)> {
    if s.len() == 0 {
        None
    } else if s[0] < 251 {
        Some((s[0] as nat, 1))
    } else if s[0] == 251 && s.len() >= 3 {
        Some(((s[1] + 256 * s[2]) as nat, 3))
    } else if s[0] == 252 && widest >= 4 && s.len() >= 5 {
        Some((le32_value(s.subrange(1, 5)), 5))
    } else if s[0] == 253 && widest >= 8 && s.len() >= 9 {
        Some(
            (le32_value(s.subrange(1, 5)) + 0x1_0000_0000 * le32_value(s.subrange(5, 9)), 9),
        )
    } else {
        None
    }
}

/// A text: its length in bytes, then its UTF-8 bytes.
pub open spec fn text_bytes(t: Seq<char>) -> Seq<u8> {
    varint(encode_utf8(t).len()) + encode_utf8(t)
}

/// The text at the start of `s`, and how many bytes it takes.
pub open spec fn text_at(s: Seq<u8>) -> Option<(Seq<char>, nat)> {
    match varint_at(s, 8) {
        Some((len, used)) => if used + len <= s.len() && len <= usize::MAX && valid_utf8(
            s.subrange(used as int, (used + len) as int),
        ) {
            Some((decode_utf8(s.subrange(used as int, (used + len) as int)), used + len))
        } else {
            None
        },
        None => None,
    }
}

/// A byte string that may be missing: one byte that says whether it is there,
/// then its length and its bytes.
pub open spec fn data_bytes(d: Option<Seq<u8>>) -> Seq<u8> {
    match d {
        None => seq![0u8],
        Some(b) => seq![1u8] + varint(b.len()) + b,
    }
}

/// The optional byte string at the start of `s`, and how many bytes it takes.
pub open spec fn data_at(s: Seq<u8>) -> Option<(Option<Seq<u8>>, nat)> {
    if s.len() == 0 || s[0] > 1 {
        None
    } else if s[0] == 0 {
        Some((None, 1))
    } else {
        match varint_at(s.skip(1), 8) {
            Some((value, used)) => {
                let len = (value as usize) as nat;
                if 1 + used + len <= s.len() {
                    Some(
                        (
                            Some(s.subrange(1 + used as int, (1 + used + len) as int)),
                            1 + used + len,
                        ),
                    )
                } else {
                    None
                }
            },
            None => None,
        }
    }
}

/// An integer is read back as it was written, whatever follows it.
pub proof fn lemma_varint(n: nat, rest: Seq<u8>)
    requires
        n <= u64::MAX,
    ensures
        varint_at(varint(n) + rest, 8) == Some((n, varint(n).len())),
        n <= u32::MAX ==> varint_at(varint(n) + rest, 4) == Some((n, varint(n).len())),
        0 < varint(n).len() <= 9,
{
    let s = varint(n) + rest;
    if n < 251 {
    } else if n < 0x1_0000 {
        assert(s[1] == (n % 256) as u8);
        assert(s[2] == (n / 256 % 256) as u8);
    } else if n < 0x1_0000_0000 {
        lemma_le32(n);
        assert(s.subrange(1, 5) =~= le32(n));
    } else {
        lemma_le32(n % 0x1_0000_0000);
        lemma_le32(n / 0x1_0000_0000);
        assert(s.subrange(1, 5) =~= le32(n % 0x1_0000_0000));
        assert(s.subrange(5, 9) =~= le32(n / 0x1_0000_0000));
    }
}

/// A text is read back as it was written, whatever follows it.
pub proof fn lemma_text(t: Seq<char>, rest: Seq<u8>)
    requires
        encode_utf8(t).len() <= usize::MAX,
    ensures
        text_at(text_bytes(t) + rest) == Some((t, text_bytes(t).len())),
{
    let bytes = encode_utf8(t);
    let s = text_bytes(t) + rest;
    lemma_varint(bytes.len(), bytes + rest);
    assert(s =~= varint(bytes.len()) + (bytes + rest));
    let used = varint(bytes.len()).len() as int;
    assert(s.subrange(used, used + bytes.len()) =~= bytes);
    vstd::utf8::encode_utf8_valid_utf8(t);
    vstd::utf8::encode_utf8_decode_utf8(t);
}

/// An optional byte string is read back as it was written, whatever follows it.
pub proof fn lemma_data(d: Option<Seq<u8>>, rest: Seq<u8>)
    requires
        d is Some ==> d->0.len() <= usize::MAX,
    ensures
        data_at(data_bytes(d) + rest) == Some((d, data_bytes(d).len())),
{
    match d {
        None => {},
        Some(b) => {
            let s = data_bytes(d) + rest;
            lemma_varint(b.len(), b + rest);
            assert(s.skip(1) =~= varint(b.len()) + (b + rest));
            let used = varint(b.len()).len() as int;
            assert(s.subrange(1 + used, 1 + used + b.len()) =~= b);
        },
    }
}

/// What the error of `bincode::serde::decode_from_slice` says about bytes that
/// do not start with a `u32`.
pub uninterp spec fn u32_complaint(bytes: Seq<u8>) -> Seq<char>;

/// What the error of `bincode::serde::decode_from_slice` says about bytes that
/// do not start with a `usize`.
pub uninterp spec fn usize_complaint(bytes: Seq<u8>) -> Seq<char>;

/// What the error of `bincode::serde::borrow_decode_from_slice` says about
/// bytes that do not start with a text.
pub uninterp spec fn text_complaint(bytes: Seq<u8>) -> Seq<char>;

/// What the error of `bincode::serde::decode_from_slice` says about bytes that
/// do not start with an optional byte string.
pub uninterp spec fn data_complaint(bytes: Seq<u8>) -> Seq<char>;

/// `bincode::serde::encode_to_vec` of a `u32` in the standard configuration:
/// the integer in variable length. Writing to memory does not fail.
#[verifier::external_body]
pub(crate) fn encode_u32(n: u32) -> (r: Result<Vec<u8>, String>)
    ensures
        r is Ok,
        r->Ok_0@ == varint(n as nat),
{
    bincode::serde::encode_to_vec(n, bincode::config::standard()).map_err(|e| e.to_string())
}

/// `bincode::serde::encode_to_vec` of a `usize` in the standard configuration:
/// the integer in variable length. Writing to memory does not fail.
#[verifier::external_body]
pub(crate) fn encode_usize(n: usize) -> (r: Result<Vec<u8>, String>)
    ensures
        r is Ok,
        r->Ok_0@ == varint(n as nat),
{
    bincode::serde::encode_to_vec(n, bincode::config::standard()).map_err(|e| e.to_string())
}

/// `bincode::serde::encode_to_vec` of a text in the standard configuration:
/// its length in bytes and its UTF-8 bytes. Writing to memory does not fail.
#[verifier::external_body]
pub(crate) fn encode_text(t: &str) -> (r: Result<Vec<u8>, String>)
    ensures
        r is Ok,
        r->Ok_0@ == text_bytes(t@),
{
    bincode::serde::encode_to_vec(t, bincode::config::standard()).map_err(|e| e.to_string())
}

/// `bincode::serde::encode_to_vec` of an optional byte string in the standard
/// configuration. Writing to memory does not fail.
#[verifier::external_body]
pub(crate) fn encode_data(d: Option<&[u8]>) -> (r: Result<Vec<u8>, String>)
    ensures
        r is Ok,
        r->Ok_0@ == data_bytes(
            match d {
                Some(b) => Some(b@),
                None => None,
            },
        ),
{
    bincode::serde::encode_to_vec(d, bincode::config::standard()).map_err(|e| e.to_string())
}

/// `bincode::serde::decode_from_slice` into a `u32` in the standard
/// configuration: the integer at the start and how many bytes it took. The
/// text of the error depends on the bytes alone.
#[verifier::external_body]
pub(crate) fn decode_u32(bytes: &[u8]) -> (r: Result<(u32, usize), String>)
    ensures
        match r {
            Ok((n, used)) => varint_at(bytes@, 4) == Some((n as nat, used as nat)),
            Err(e) => varint_at(bytes@, 4) is None && e@ == u32_complaint(bytes@),
        },
{
    bincode::serde::decode_from_slice(bytes, bincode::config::standard()).map_err(|e| e.to_string())
}

/// `bincode::serde::decode_from_slice` into a `usize` in the standard
/// configuration: the integer at the start, where it fits, and how many bytes
/// it took. The text of the error depends on the bytes alone.
#[verifier::external_body]
pub(crate) fn decode_usize(bytes: &[u8]) -> (r: Result<(usize, usize), String>)
    ensures
        match r {
            Ok((n, used)) => varint_at(bytes@, 8) == Some((n as nat, used as nat)),
            Err(e) => {
                &&& varint_at(bytes@, 8) matches Some((n, _)) ==> n > usize::MAX
                &&& e@ == usize_complaint(bytes@)
            },
        },
{
    bincode::serde::decode_from_slice(bytes, bincode::config::standard()).map_err(|e| e.to_string())
}

/// `bincode::serde::borrow_decode_from_slice` into a text in the standard
/// configuration: the text at the start and how many bytes it took. The text
/// of the error depends on the bytes alone.
#[verifier::external_body]
pub(crate) fn decode_text(bytes: &[u8]) -> (r: Result<(String, usize), String>)
    ensures
        match r {
            Ok((t, used)) => text_at(bytes@) == Some((t@, used as nat)),
            Err(e) => text_at(bytes@) is None && e@ == text_complaint(bytes@),
        },
{
    match bincode::serde::borrow_decode_from_slice::<&str, _>(bytes, bincode::config::standard()) {
        Ok((t, used)) => Ok((t.to_owned(), used)),
        Err(e) => Err(e.to_string()),
    }
}

/// `bincode::serde::decode_from_slice` into an optional byte string in the
/// standard configuration: the byte string at the start and how many bytes it
/// took. The text of the error depends on the bytes alone.
#[verifier::external_body]
pub(crate) fn decode_data(bytes: &[u8]) -> (r: Result<(Option<Vec<u8>>, usize), String>)
    ensures
        match r {
            Ok((d, used)) => data_at(bytes@) == Some(
                (
                    match d {
                        Some(b) => Some(b@),
                        None => None,
                    },
                    used as nat,
                ),
            ),
            Err(e) => data_at(bytes@) is None && e@ == data_complaint(bytes@),
        },
{
    bincode::serde::decode_from_slice(bytes, bincode::config::standard()).map_err(|e| e.to_string())
}

/// An integer below 251 is one byte; a larger one is the mark 251, 252 or 253
/// and the two, four or eight bytes that spell it with the lowest first,
/// whichever is the first that is wide enough.
pub proof fn integers_are_laid_out(n: nat)
    requires
        n <= u64::MAX,
    ensures
        n < 251 ==> varint(n) == seq![n as u8],
        251 <= n < 65536 ==> varint(n).len() == 3 && varint(n)[0] == 251 && varint(n)[1] + 256
            * varint(n)[2] == n,
        65536 <= n < 4294967296 ==> varint(n).len() == 5 && varint(n)[0] == 252 && little_endian(
            varint(n).skip(1),
        ) == n,
        4294967296 <= n ==> varint(n).len() == 9 && varint(n)[0] == 253 && little_endian(
            varint(n).skip(1),
        ) + 4294967296 * little_endian(varint(n).skip(5)) == n,
{
    if 65536 <= n && n < 4294967296 {
        lengths_are_little_endian(n, le32(n));
        assert(varint(n).skip(1) =~= le32(n));
    } else if 4294967296 <= n {
        let low = n % 4294967296;
        let high = n / 4294967296;
        lengths_are_little_endian(low, le32(low));
        lengths_are_little_endian(high, le32(high));
        assert(varint(n).skip(1) =~= le32(low) + le32(high));
        assert(varint(n).skip(5) =~= le32(high));
    }
}

/// A text is its length in bytes and its UTF-8 bytes; an optional byte string is
/// a zero, or a one, its length and its bytes.
pub proof fn texts_and_data_are_laid_out(t: Seq<char>, b: Seq<u8>)
    ensures
        text_bytes(t) == varint(encode_utf8(t).len()) + encode_utf8(t),
        data_bytes(None) == seq![0u8],
        data_bytes(Some(b)) == seq![1u8] + varint(b.len()) + b,
{
}

} // verus!
