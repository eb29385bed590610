//! The shape of an event inside a capture.
//!
//! A JSON value cannot be decoded from a format that does not describe itself,
//! so payloads travel as JSON text and are parsed again on the way back. Each
//! entry holds the event and the binary `data` argument of
//! `send(payload, data)`; a partial trailing frame loses both together.

use vstd::prelude::*;
use vstd::slice::slice_subrange;
use vstd::string::*;

use super::codec::{
    data_at, data_bytes, data_complaint, decode_data, decode_text, decode_u32, decode_usize,
    encode_data, encode_text, encode_u32, encode_usize, lemma_data, lemma_text, lemma_varint,
    text_at, text_bytes, text_complaint, u32_complaint, usize_complaint, varint, varint_at,
};
use super::format::fits;
use super::MAX_FRAME_BYTES;
use crate::error::{framed_by, lemma_framed_by, Error, ErrorView};
use crate::event::{Event, EventView, LogLevel};
use crate::json::{
    json, max_nesting, parse, parse_complaint, parsed, print, printed, reads_back, storable, Json,
};
use crate::text::{decimal, join, push_decimal};

verus! {

/// Mirror of [`Event`] with JSON text in place of JSON values.
#[derive(Debug, Clone)]
pub enum WireEvent {
    Send { payload_json: String },
    Log { level: LogLevel, message: String },
    Error {
        description: String,
        stack: String,
        file_name: String,
        line_number: usize,
        column_number: usize,
    },
    Unknown { json: String },
}

/// One entry of a capture of events.
#[derive(Debug, Clone)]
pub struct WireEntry {
    pub event: WireEvent,
    pub data: Option<Vec<u8>>,
}

/// [`WireEvent`] with its texts as character sequences.
pub enum WireEventView {
    Send(Seq<char>),
    Log(LogLevel, Seq<char>),
    Error {
        description: Seq<char>,
        stack: Seq<char>,
        file_name: Seq<char>,
        line_number: usize,
        column_number: usize,
    },
    Unknown(Seq<char>),
}

/// [`WireEntry`] with its contents as mathematical values.
pub struct WireView {
    pub event: WireEventView,
    pub data: Option<Seq<u8>>,
}

impl View for WireEvent {
    type V = WireEventView;

    open spec fn view(&self) -> WireEventView {
        match self {
            WireEvent::Send { payload_json } => WireEventView::Send(payload_json@),
            WireEvent::Log { level, message } => WireEventView::Log(*level, message@),
            WireEvent::Error { description, stack, file_name, line_number, column_number } =>
                WireEventView::Error {
                description: description@,
                stack: stack@,
                file_name: file_name@,
                line_number: *line_number,
                column_number: *column_number,
            },
            WireEvent::Unknown { json } => WireEventView::Unknown(json@),
        }
    }
}

/// The contents of an optional byte string.
pub open spec fn data_view(d: Option<Vec<u8>>) -> Option<Seq<u8>> {
    match d {
        Some(b) => Some(b@),
        None => None,
    }
}

/// The contents of an optional byte slice.
pub open spec fn slice_view(d: Option<&[u8]>) -> Option<Seq<u8>> {
    match d {
        Some(b) => Some(b@),
        None => None,
    }
}

impl View for WireEntry {
    type V = WireView;

    open spec fn view(&self) -> WireView {
        WireView { event: self.event@, data: data_view(self.data) }
    }
}

/// An event with its JSON values written out.
pub open spec fn wire_event_of(e: EventView) -> WireEventView {
    match e {
        EventView::Send(j) => WireEventView::Send(printed(j)),
        EventView::Log(level, message) => WireEventView::Log(level, message),
        EventView::Error { description, stack, file_name, line_number, column_number } =>
            WireEventView::Error { description, stack, file_name, line_number, column_number },
        EventView::Unknown(j) => WireEventView::Unknown(printed(j)),
    }
}

/// The event in an entry, with its JSON text parsed; or what is wrong with it.
pub open spec fn event_of_wire(w: WireView) -> Result<(EventView, Option<Seq<u8>>), ErrorView> {
    match w.event {
        WireEventView::Send(t) => match parsed(t) {
            Some(j) => Ok((EventView::Send(j), w.data)),
            None => Err(ErrorView::Record("parse send payload: "@ + parse_complaint(t))),
        },
        WireEventView::Log(level, message) => Ok((EventView::Log(level, message), w.data)),
        WireEventView::Error { description, stack, file_name, line_number, column_number } => Ok(
            (
                EventView::Error { description, stack, file_name, line_number, column_number },
                w.data,
            ),
        ),
        WireEventView::Unknown(t) => match parsed(t) {
            Some(j) => Ok((EventView::Unknown(j), w.data)),
            None => Err(ErrorView::Record("parse unknown value: "@ + parse_complaint(t))),
        },
    }
}

/// The JSON values of an event come back from the text written for them.
pub open spec fn event_reads_back(e: EventView) -> bool {
    match e {
        EventView::Send(j) => reads_back(j),
        EventView::Unknown(j) => reads_back(j),
        _ => true,
    }
}

/// The JSON values of an event nest no deeper than the parser follows and hold
/// no floating point.
pub open spec fn event_storable(e: EventView) -> bool {
    match e {
        EventView::Send(j) => storable(j, max_nesting()),
        EventView::Unknown(j) => storable(j, max_nesting()),
        _ => true,
    }
}

impl WireEntry {
    /// The entry for an event and its binary data.
    pub fn from_event(evt: &Event, data: Option<&[u8]>) -> (r: Result<WireEntry, Error>)
        ensures
            r is Ok,
            r->Ok_0@ == (WireView { event: wire_event_of(evt@), data: slice_view(data) }),
            event_storable(evt@) ==> event_reads_back(evt@),
    {
        let event = match evt {
            Event::Send { payload } => match print(payload) {
                Ok(payload_json) => WireEvent::Send { payload_json },
                Err(e) => return Err(Error::Record(join("serialize send payload: ", e.as_str()))),
            },
            Event::Log { level, message } => WireEvent::Log {
                level: *level,
                message: message.clone(),
            },
            Event::Error { description, stack, file_name, line_number, column_number } =>
                WireEvent::Error {
                description: description.clone(),
                stack: stack.clone(),
                file_name: file_name.clone(),
                line_number: *line_number,
                column_number: *column_number,
            },
            Event::Unknown(v) => match print(v) {
                Ok(json) => WireEvent::Unknown { json },
                Err(e) => return Err(Error::Record(join("serialize unknown value: ", e.as_str()))),
            },
        };
        let owned_data = match data {
            Some(b) => {
                let mut owned: Vec<u8> = Vec::new();
                owned.extend_from_slice(b);
                assert(owned@ =~= b@);
                Some(owned)
            },
            None => None,
        };
        Ok(WireEntry { event, data: owned_data })
    }

    /// The event and its binary data, with the JSON text parsed again.
    pub fn into_event(self) -> (r: Result<(Event, Option<Vec<u8>>), Error>)
        ensures
            match event_of_wire(self@) {
                Ok((e, d)) => r is Ok && r->Ok_0.0@ == e && data_view(r->Ok_0.1) == d,
                Err(e) => r is Err && r->Err_0@ == e,
            },
    {
        let evt = match self.event {
            WireEvent::Send { payload_json } => match parse(payload_json.as_str()) {
                Ok(payload) => Event::Send { payload },
                Err(e) => return Err(Error::Record(join("parse send payload: ", e.as_str()))),
            },
            WireEvent::Log { level, message } => Event::Log { level, message },
            WireEvent::Error { description, stack, file_name, line_number, column_number } =>
                Event::Error { description, stack, file_name, line_number, column_number },
            WireEvent::Unknown { json } => match parse(json.as_str()) {
                Ok(v) => Event::Unknown(v),
                Err(e) => return Err(Error::Record(join("parse unknown value: ", e.as_str()))),
            },
        };
        Ok((evt, self.data))
    }
}

/// An event comes back from its entry, with the data that was stored beside
/// it.
pub proof fn entry_gives_back_the_event(e: EventView, data: Option<Seq<u8>>)
    requires
        event_reads_back(e),
    ensures
        event_of_wire(WireView { event: wire_event_of(e), data }) == Ok::<
            (EventView, Option<Seq<u8>>),
            ErrorView,
        >((e, data)),
{
}

/// The number that stands for a level.
pub open spec fn level_index(l: LogLevel) -> nat {
    match l {
        LogLevel::Info => 0,
        LogLevel::Debug => 1,
        LogLevel::Warning => 2,
        LogLevel::Error => 3,
    }
}

/// The level that a number stands for.
pub open spec fn level_at(i: nat) -> Option<LogLevel> {
    if i == 0 {
        Some(LogLevel::Info)
    } else if i == 1 {
        Some(LogLevel::Debug)
    } else if i == 2 {
        Some(LogLevel::Warning)
    } else if i == 3 {
        Some(LogLevel::Error)
    } else {
        None
    }
}

/// The number of an event's variant.
pub open spec fn variant_index(e: WireEventView) -> nat {
    match e {
        WireEventView::Send(_) => 0,
        WireEventView::Log(_, _) => 1,
        WireEventView::Error { .. } => 2,
        WireEventView::Unknown(_) => 3,
    }
}

/// The bytes of an event's fields.
pub open spec fn field_bytes(e: WireEventView) -> Seq<u8> {
    match e {
        WireEventView::Send(t) => text_bytes(t),
        WireEventView::Log(level, message) => varint(level_index(level)) + text_bytes(message),
        WireEventView::Error { description, stack, file_name, line_number, column_number } =>
            text_bytes(description) + text_bytes(stack) + text_bytes(file_name) + varint(
                line_number as nat,
            ) + varint(column_number as nat),
        WireEventView::Unknown(t) => text_bytes(t),
    }
}

/// The bytes of an event: the number of its variant, then its fields.
pub open spec fn wire_event_bytes(e: WireEventView) -> Seq<u8> {
    varint(variant_index(e)) + field_bytes(e)
}

/// The bytes of an entry: the event, then its data.
pub open spec fn wire_bytes(w: WireView) -> Seq<u8> {
    wire_event_bytes(w.event) + data_bytes(w.data)
}

/// What the decoder says about a variant number that stands for nothing.
pub open spec fn unknown_variant(i: nat) -> Seq<char> {
    "OtherString(\"invalid value: integer `"@ + decimal(i)
        + "`, expected variant index 0 <= i < 4\")"@
}

/// A value at the start of some bytes and what is left behind it, or what is
/// wrong.
pub type Taken<T> = Result<(T, Seq<u8>), Seq<char>>;

/// Takes a `u32`.
pub open spec fn take_u32(s: Seq<u8>) -> Taken<nat> {
    match varint_at(s, 4) {
        Some((n, used)) => Ok((n, s.skip(used as int))),
        None => Err(u32_complaint(s)),
    }
}

/// Takes a `usize`.
pub open spec fn take_usize(s: Seq<u8>) -> Taken<usize> {
    match varint_at(s, 8) {
        Some((n, used)) => if n <= usize::MAX {
            Ok((n as usize, s.skip(used as int)))
        } else {
            Err(usize_complaint(s))
        },
        None => Err(usize_complaint(s)),
    }
}

/// Takes a text.
pub open spec fn take_text(s: Seq<u8>) -> Taken<Seq<char>> {
    match text_at(s) {
        Some((t, used)) => Ok((t, s.skip(used as int))),
        None => Err(text_complaint(s)),
    }
}

/// Takes a level.
pub open spec fn take_level(s: Seq<u8>) -> Taken<LogLevel> {
    match take_u32(s) {
        Ok((i, rest)) => match level_at(i) {
            Some(l) => Ok((l, rest)),
            None => Err(unknown_variant(i)),
        },
        Err(e) => Err(e),
    }
}

/// Takes the fields of a runtime error.
pub open spec fn take_error(s: Seq<u8>) -> Taken<WireEventView> {
    match take_text(s) {
        Ok((description, s1)) => match take_text(s1) {
            Ok((stack, s2)) => match take_text(s2) {
                Ok((file_name, s3)) => match take_usize(s3) {
                    Ok((line_number, s4)) => match take_usize(s4) {
                        Ok((column_number, s5)) => Ok(
                            (
                                WireEventView::Error {
                                    description,
                                    stack,
                                    file_name,
                                    line_number,
                                    column_number,
                                },
                                s5,
                            ),
                        ),
                        Err(e) => Err(e),
                    },
                    Err(e) => Err(e),
                },
                Err(e) => Err(e),
            },
            Err(e) => Err(e),
        },
        Err(e) => Err(e),
    }
}

/// Takes the fields of a console message.
pub open spec fn take_log(s: Seq<u8>) -> Taken<WireEventView> {
    match take_level(s) {
        Ok((level, s1)) => match take_text(s1) {
            Ok((message, s2)) => Ok((WireEventView::Log(level, message), s2)),
            Err(e) => Err(e),
        },
        Err(e) => Err(e),
    }
}

/// Takes an event.
pub open spec fn take_event(s: Seq<u8>) -> Taken<WireEventView> {
    match take_u32(s) {
        Ok((i, rest)) => if i == 0 {
            match take_text(rest) {
                Ok((t, s1)) => Ok((WireEventView::Send(t), s1)),
                Err(e) => Err(e),
            }
        } else if i == 1 {
            take_log(rest)
        } else if i == 2 {
            take_error(rest)
        } else if i == 3 {
            match take_text(rest) {
                Ok((t, s1)) => Ok((WireEventView::Unknown(t), s1)),
                Err(e) => Err(e),
            }
        } else {
            Err(unknown_variant(i))
        },
        Err(e) => Err(e),
    }
}

/// The entry that some bytes start with, or what is wrong with them. Bytes
/// behind the entry are not looked at.
pub open spec fn wire_read(s: Seq<u8>) -> Result<WireView, Seq<char>> {
    match take_event(s) {
        Ok((event, rest)) => match data_at(rest) {
            Some((data, _)) => Ok(WireView { event, data }),
            None => Err(data_complaint(rest)),
        },
        Err(e) => Err(e),
    }
}

/// An entry that was encoded decodes to what it was, whatever stands behind
/// it.
pub proof fn encoded_entry_decodes(w: WireView, rest: Seq<u8>)
    requires
        fits(wire_bytes(w)),
    ensures
        wire_read(wire_bytes(w) + rest) == Ok::<WireView, Seq<char>>(w),
{
    let tail = data_bytes(w.data) + rest;
    let s = wire_bytes(w) + rest;
    assert(s =~= wire_event_bytes(w.event) + tail);
    lemma_event_taken(w.event, tail);
    lemma_data(w.data, rest);
}

/// An encoded event is taken back, and what follows it is left.
#[verifier::spinoff_prover]
proof fn lemma_event_taken(e: WireEventView, tail: Seq<u8>)
    requires
        fits(wire_event_bytes(e)),
    ensures
        take_event(wire_event_bytes(e) + tail) == Ok::<(WireEventView, Seq<u8>), Seq<char>>(
            (e, tail),
        ),
{
    let s1 = field_bytes(e) + tail;
    assert(wire_event_bytes(e) + tail =~= varint(variant_index(e)) + s1);
    lemma_u32_taken(variant_index(e), s1);
    match e {
        WireEventView::Send(t) => {
            lemma_text_taken(t, tail);
        },
        WireEventView::Log(level, message) => {
            lemma_log_taken(level, message, tail);
        },
        WireEventView::Error { description, stack, file_name, line_number, column_number } => {
            assert(text_bytes(description).len() + text_bytes(stack).len() + text_bytes(
                file_name,
            ).len() <= field_bytes(e).len());
            lemma_error_taken(description, stack, file_name, line_number, column_number, tail);
        },
        WireEventView::Unknown(t) => {
            lemma_text_taken(t, tail);
        },
    }
}

/// The encoded fields of a console message are taken back.
proof fn lemma_log_taken(level: LogLevel, message: Seq<char>, tail: Seq<u8>)
    requires
        text_bytes(message).len() <= MAX_FRAME_BYTES,
    ensures
        take_log(varint(level_index(level)) + text_bytes(message) + tail) == Ok::<
            (WireEventView, Seq<u8>),
            Seq<char>,
        >((WireEventView::Log(level, message), tail)),
{
    let i = level_index(level);
    let s1 = text_bytes(message) + tail;
    assert(varint(i) + text_bytes(message) + tail =~= varint(i) + s1);
    lemma_u32_taken(i, s1);
    lemma_text_taken(message, tail);
}

/// Joining from the left gives the same as joining from the right.
proof fn lemma_regrouped(
    a: Seq<u8>,
    b: Seq<u8>,
    c: Seq<u8>,
    d: Seq<u8>,
    e: Seq<u8>,
    f: Seq<u8>,
)
    ensures
        a + b + c + d + e + f == a + (b + (c + (d + (e + f)))),
{
    assert(a + b + c + d + e + f =~= a + (b + (c + (d + (e + f)))));
}

/// The encoded fields of a runtime error are taken back.
#[verifier::spinoff_prover]
proof fn lemma_error_taken(
    description: Seq<char>,
    stack: Seq<char>,
    file_name: Seq<char>,
    line_number: usize,
    column_number: usize,
    tail: Seq<u8>,
)
    requires
        text_bytes(description).len() <= MAX_FRAME_BYTES,
        text_bytes(stack).len() <= MAX_FRAME_BYTES,
        text_bytes(file_name).len() <= MAX_FRAME_BYTES,
    ensures
        take_error(
            text_bytes(description) + text_bytes(stack) + text_bytes(file_name) + varint(
                line_number as nat,
            ) + varint(column_number as nat) + tail,
        ) == Ok::<(WireEventView, Seq<u8>), Seq<char>>(
            (
                WireEventView::Error { description, stack, file_name, line_number, column_number },
                tail,
            ),
        ),
{
    let a = text_bytes(description);
    let b = text_bytes(stack);
    let c = text_bytes(file_name);
    let d = varint(line_number as nat);
    let e = varint(column_number as nat);
    let s4 = e + tail;
    let s3 = d + s4;
    let s2 = c + s3;
    let s1 = b + s2;
    lemma_regrouped(a, b, c, d, e, tail);
    lemma_text_taken(description, s1);
    lemma_text_taken(stack, s2);
    lemma_text_taken(file_name, s3);
    lemma_usize_taken(line_number, s4);
    lemma_usize_taken(column_number, tail);
}

proof fn lemma_u32_taken(n: nat, rest: Seq<u8>)
    requires
        n <= u32::MAX,
    ensures
        take_u32(varint(n) + rest) == Ok::<(nat, Seq<u8>), Seq<char>>((n, rest)),
{
    lemma_varint(n, rest);
    assert((varint(n) + rest).skip(varint(n).len() as int) =~= rest);
}

proof fn lemma_usize_taken(n: usize, rest: Seq<u8>)
    ensures
        take_usize(varint(n as nat) + rest) == Ok::<(usize, Seq<u8>), Seq<char>>((n, rest)),
{
    lemma_varint(n as nat, rest);
    assert((varint(n as nat) + rest).skip(varint(n as nat).len() as int) =~= rest);
}

proof fn lemma_text_taken(t: Seq<char>, rest: Seq<u8>)
    requires
        text_bytes(t).len() <= MAX_FRAME_BYTES,
    ensures
        take_text(text_bytes(t) + rest) == Ok::<(Seq<char>, Seq<u8>), Seq<char>>((t, rest)),
{
    lemma_text(t, rest);
    assert((text_bytes(t) + rest).skip(text_bytes(t).len() as int) =~= rest);
}

/// Appends an encoded value.
fn put(out: &mut Vec<u8>, part: Result<Vec<u8>, String>) -> (r: Result<(), String>)
    requires
        part is Ok,
    ensures
        r is Ok,
        final(out)@ == old(out)@ + part->Ok_0@,
{
    match part {
        Ok(bytes) => {
            out.extend_from_slice(bytes.as_slice());
            Ok(())
        },
        Err(e) => Err(e),
    }
}

/// The number that stands for a level.
fn level_number(l: LogLevel) -> (r: u32)
    ensures
        r == level_index(l),
{
    match l {
        LogLevel::Info => 0,
        LogLevel::Debug => 1,
        LogLevel::Warning => 2,
        LogLevel::Error => 3,
    }
}

impl WireEvent {
    /// The bytes of this event.
    fn encode(&self) -> (r: Result<Vec<u8>, String>)
        ensures
            r is Ok,
            r->Ok_0@ == wire_event_bytes(self@),
    {
        let mut out: Vec<u8> = Vec::new();
        match self {
            WireEvent::Send { payload_json } => {
                put(&mut out, encode_u32(0))?;
                put(&mut out, encode_text(payload_json.as_str()))?;
            },
            WireEvent::Log { level, message } => {
                put(&mut out, encode_u32(1))?;
                put(&mut out, encode_u32(level_number(*level)))?;
                put(&mut out, encode_text(message.as_str()))?;
            },
            WireEvent::Error { description, stack, file_name, line_number, column_number } => {
                put(&mut out, encode_u32(2))?;
                put(&mut out, encode_text(description.as_str()))?;
                put(&mut out, encode_text(stack.as_str()))?;
                put(&mut out, encode_text(file_name.as_str()))?;
                put(&mut out, encode_usize(*line_number))?;
                put(&mut out, encode_usize(*column_number))?;
            },
            WireEvent::Unknown { json } => {
                put(&mut out, encode_u32(3))?;
                put(&mut out, encode_text(json.as_str()))?;
            },
        }
        assert(out@ =~= wire_event_bytes(self@));
        Ok(out)
    }
}

impl WireEntry {
    /// The bytes of this entry.
    pub fn encode(&self) -> (r: Result<Vec<u8>, String>)
        ensures
            r is Ok,
            r->Ok_0@ == wire_bytes(self@),
    {
        let mut out = self.event.encode()?;
        let data = match &self.data {
            Some(b) => Some(b.as_slice()),
            None => None,
        };
        put(&mut out, encode_data(data))?;
        Ok(out)
    }
}

/// What is left behind the first `used` bytes.
fn behind(bytes: &[u8], used: usize) -> (r: &[u8])
    requires
        used <= bytes@.len(),
    ensures
        r@ == bytes@.skip(used as int),
{
    slice_subrange(bytes, used, bytes.len())
}

/// Takes a `u32` from the front.
fn next_u32(bytes: &[u8]) -> (r: Result<(u32, &[u8]), String>)
    ensures
        match take_u32(bytes@) {
            Ok((n, rest)) => r is Ok && r->Ok_0.0 == n && r->Ok_0.1@ == rest,
            Err(e) => r is Err && r->Err_0@ == e,
        },
{
    match decode_u32(bytes) {
        Ok((n, used)) => Ok((n, behind(bytes, used))),
        Err(e) => Err(e),
    }
}

/// Takes a `usize` from the front.
fn next_usize(bytes: &[u8]) -> (r: Result<(usize, &[u8]), String>)
    ensures
        match take_usize(bytes@) {
            Ok((n, rest)) => r is Ok && r->Ok_0.0 == n && r->Ok_0.1@ == rest,
            Err(e) => r is Err && r->Err_0@ == e,
        },
{
    match decode_usize(bytes) {
        Ok((n, used)) => Ok((n, behind(bytes, used))),
        Err(e) => Err(e),
    }
}

/// Takes a text from the front.
fn next_text(bytes: &[u8]) -> (r: Result<(String, &[u8]), String>)
    ensures
        match take_text(bytes@) {
            Ok((t, rest)) => r is Ok && r->Ok_0.0@ == t && r->Ok_0.1@ == rest,
            Err(e) => r is Err && r->Err_0@ == e,
        },
{
    match decode_text(bytes) {
        Ok((t, used)) => Ok((t, behind(bytes, used))),
        Err(e) => Err(e),
    }
}

/// Says that a variant number stands for nothing.
fn no_variant(i: u32) -> (r: String)
    ensures
        r@ == unknown_variant(i as nat),
{
    let mut msg = "OtherString(\"invalid value: integer `".to_owned();
    push_decimal(&mut msg, i as u64);
    msg.append("`, expected variant index 0 <= i < 4\")");
    msg
}

/// Takes a level from the front.
fn next_level(bytes: &[u8]) -> (r: Result<(LogLevel, &[u8]), String>)
    ensures
        match take_level(bytes@) {
            Ok((l, rest)) => r is Ok && r->Ok_0.0 == l && r->Ok_0.1@ == rest,
            Err(e) => r is Err && r->Err_0@ == e,
        },
{
    match next_u32(bytes) {
        Ok((i, rest)) => {
            if i == 0 {
                Ok((LogLevel::Info, rest))
            } else if i == 1 {
                Ok((LogLevel::Debug, rest))
            } else if i == 2 {
                Ok((LogLevel::Warning, rest))
            } else if i == 3 {
                Ok((LogLevel::Error, rest))
            } else {
                Err(no_variant(i))
            }
        },
        Err(e) => Err(e),
    }
}

/// Takes the fields of a console message from the front.
fn next_log(bytes: &[u8]) -> (r: Result<(WireEvent, &[u8]), String>)
    ensures
        match take_log(bytes@) {
            Ok((e, rest)) => r is Ok && r->Ok_0.0@ == e && r->Ok_0.1@ == rest,
            Err(e) => r is Err && r->Err_0@ == e,
        },
{
    let (level, rest) = match next_level(bytes) {
        Ok(x) => x,
        Err(e) => return Err(e),
    };
    match next_text(rest) {
        Ok((message, rest)) => Ok((WireEvent::Log { level, message }, rest)),
        Err(e) => Err(e),
    }
}

/// Takes the fields of a runtime error from the front.
fn next_error(bytes: &[u8]) -> (r: Result<(WireEvent, &[u8]), String>)
    ensures
        match take_error(bytes@) {
            Ok((e, rest)) => r is Ok && r->Ok_0.0@ == e && r->Ok_0.1@ == rest,
            Err(e) => r is Err && r->Err_0@ == e,
        },
{
    let (description, rest) = match next_text(bytes) {
        Ok(x) => x,
        Err(e) => return Err(e),
    };
    let (stack, rest) = match next_text(rest) {
        Ok(x) => x,
        Err(e) => return Err(e),
    };
    let (file_name, rest) = match next_text(rest) {
        Ok(x) => x,
        Err(e) => return Err(e),
    };
    let (line_number, rest) = match next_usize(rest) {
        Ok(x) => x,
        Err(e) => return Err(e),
    };
    let (column_number, rest) = match next_usize(rest) {
        Ok(x) => x,
        Err(e) => return Err(e),
    };
    Ok((WireEvent::Error { description, stack, file_name, line_number, column_number }, rest))
}

/// Takes an event from the front.
fn next_event(bytes: &[u8]) -> (r: Result<(WireEvent, &[u8]), String>)
    ensures
        match take_event(bytes@) {
            Ok((e, rest)) => r is Ok && r->Ok_0.0@ == e && r->Ok_0.1@ == rest,
            Err(e) => r is Err && r->Err_0@ == e,
        },
{
    let (i, rest) = match next_u32(bytes) {
        Ok(x) => x,
        Err(e) => return Err(e),
    };
    if i == 0 {
        match next_text(rest) {
            Ok((payload_json, rest)) => Ok((WireEvent::Send { payload_json }, rest)),
            Err(e) => Err(e),
        }
    } else if i == 1 {
        next_log(rest)
    } else if i == 2 {
        next_error(rest)
    } else if i == 3 {
        match next_text(rest) {
            Ok((json, rest)) => Ok((WireEvent::Unknown { json }, rest)),
            Err(e) => Err(e),
        }
    } else {
        Err(no_variant(i))
    }
}

/// Decodes the bytes of one entry.
pub fn decode_entry(bytes: &[u8]) -> (r: Result<WireEntry, String>)
    ensures
        match wire_read(bytes@) {
            Ok(w) => r is Ok && r->Ok_0@ == w,
            Err(e) => r is Err && r->Err_0@ == e,
        },
{
    let (event, rest) = match next_event(bytes) {
        Ok(x) => x,
        Err(e) => return Err(e),
    };
    match decode_data(rest) {
        Ok((data, _)) => Ok(WireEntry { event, data }),
        Err(e) => Err(e),
    }
}

/// An entry is one byte for the kind of event, its fields in order, and its
/// data: a send is kind 0, a console message kind 1 with its level as a byte
/// from 0 to 3, a runtime error kind 2, anything else kind 3.
pub proof fn entries_are_laid_out(
    t: Seq<char>,
    description: Seq<char>,
    stack: Seq<char>,
    file_name: Seq<char>,
    line_number: usize,
    column_number: usize,
    data: Option<Seq<u8>>,
)
    ensures
        wire_bytes(WireView { event: WireEventView::Send(t), data }) == seq![0u8] + text_bytes(t)
            + data_bytes(data),
        wire_bytes(WireView { event: WireEventView::Log(LogLevel::Info, t), data }) == seq![
            1u8,
            0u8,
        ] + text_bytes(t) + data_bytes(data),
        wire_bytes(WireView { event: WireEventView::Log(LogLevel::Debug, t), data }) == seq![
            1u8,
            1u8,
        ] + text_bytes(t) + data_bytes(data),
        wire_bytes(WireView { event: WireEventView::Log(LogLevel::Warning, t), data }) == seq![
            1u8,
            2u8,
        ] + text_bytes(t) + data_bytes(data),
        wire_bytes(WireView { event: WireEventView::Log(LogLevel::Error, t), data }) == seq![
            1u8,
            3u8,
        ] + text_bytes(t) + data_bytes(data),
        wire_bytes(
            WireView {
                event: WireEventView::Error {
                    description,
                    stack,
                    file_name,
                    line_number,
                    column_number,
                },
                data,
            },
        ) == seq![2u8] + (text_bytes(description) + text_bytes(stack) + text_bytes(file_name)
            + varint(line_number as nat) + varint(column_number as nat)) + data_bytes(data),
        wire_bytes(WireView { event: WireEventView::Unknown(t), data }) == seq![3u8] + text_bytes(t)
            + data_bytes(data),
{
    lemma_log_layout(LogLevel::Info, t, data);
    lemma_log_layout(LogLevel::Debug, t, data);
    lemma_log_layout(LogLevel::Warning, t, data);
    lemma_log_layout(LogLevel::Error, t, data);
}

/// The layout of a console message.
proof fn lemma_log_layout(level: LogLevel, t: Seq<char>, data: Option<Seq<u8>>)
    ensures
        wire_bytes(WireView { event: WireEventView::Log(level, t), data }) == seq![
            1u8,
            level_index(level) as u8,
        ] + text_bytes(t) + data_bytes(data),
{
    let i = level_index(level);
    assert(seq![1u8] + (seq![i as u8] + text_bytes(t)) + data_bytes(data) =~= seq![1u8, i as u8]
        + text_bytes(t) + data_bytes(data));
}

/// The entry of an event holds the text that is written for its JSON value, or
/// each of its fields.
pub proof fn wire_events_hold_the_fields(
    j: Json,
    level: LogLevel,
    t: Seq<char>,
    description: Seq<char>,
    stack: Seq<char>,
    file_name: Seq<char>,
    line_number: usize,
    column_number: usize,
)
    ensures
        wire_event_of(EventView::Send(j)) == WireEventView::Send(printed(j)),
        wire_event_of(EventView::Unknown(j)) == WireEventView::Unknown(printed(j)),
        wire_event_of(EventView::Log(level, t)) == WireEventView::Log(level, t),
        wire_event_of(
            EventView::Error { description, stack, file_name, line_number, column_number },
        ) == (WireEventView::Error { description, stack, file_name, line_number, column_number }),
{
}

/// JSON text in an entry that parses gives the event with that value and the
/// data beside it; text that does not parse gives an error with the parser's
/// reason.
pub proof fn entries_give_what_their_text_parses_to(t: Seq<char>, data: Option<Seq<u8>>)
    ensures
        ({
            let send = event_of_wire(WireView { event: WireEventView::Send(t), data });
            let unknown = event_of_wire(WireView { event: WireEventView::Unknown(t), data });
            match parsed(t) {
                Some(j) => {
                    &&& send == Ok::<(EventView, Option<Seq<u8>>), ErrorView>(
                        (EventView::Send(j), data),
                    )
                    &&& unknown == Ok::<(EventView, Option<Seq<u8>>), ErrorView>(
                        (EventView::Unknown(j), data),
                    )
                },
                None => {
                    &&& send is Err
                    &&& send->Err_0 matches ErrorView::Record(text) && framed_by(
                        text,
                        "parse send payload: "@,
                        parse_complaint(t),
                        Seq::empty(),
                    )
                    &&& unknown is Err
                    &&& unknown->Err_0 matches ErrorView::Record(text) && framed_by(
                        text,
                        "parse unknown value: "@,
                        parse_complaint(t),
                        Seq::empty(),
                    )
                },
            }
        }),
{
    let e = parse_complaint(t);
    let none = Seq::<char>::empty();
    lemma_framed_by("parse send payload: "@, e, none);
    assert("parse send payload: "@ + e + none =~= "parse send payload: "@ + e);
    lemma_framed_by("parse unknown value: "@, e, none);
    assert("parse unknown value: "@ + e + none =~= "parse unknown value: "@ + e);
}

/// A kind or a level above 3 is refused, with the number.
pub proof fn unknown_numbers_are_refused(i: nat, rest: Seq<u8>)
    requires
        3 < i <= u32::MAX,
    ensures
        wire_read(varint(i) + rest) matches Err(t) && framed_by(
            t,
            "OtherString(\"invalid value: integer `"@,
            decimal(i),
            "`, expected variant index 0 <= i < 4\")"@,
        ),
        wire_read(varint(1) + (varint(i) + rest)) matches Err(t) && framed_by(
            t,
            "OtherString(\"invalid value: integer `"@,
            decimal(i),
            "`, expected variant index 0 <= i < 4\")"@,
        ),
{
    lemma_framed_by(
        "OtherString(\"invalid value: integer `"@,
        decimal(i),
        "`, expected variant index 0 <= i < 4\")"@,
    );
    lemma_u32_taken(i, rest);
    lemma_u32_taken(1, varint(i) + rest);
}

/// The views of entries keep what they hold.
pub proof fn views_keep_the_entry(
    text: String,
    level: LogLevel,
    trace: String,
    file: String,
    line: usize,
    column: usize,
    bytes: Vec<u8>,
    slice: &[u8],
    entry: WireEntry,
)
    ensures
        (WireEvent::Send { payload_json: text })@ == WireEventView::Send(text@),
        (WireEvent::Log { level, message: text })@ == WireEventView::Log(level, text@),
        (WireEvent::Error {
            description: text,
            stack: trace,
            file_name: file,
            line_number: line,
            column_number: column,
        })@ == (WireEventView::Error {
            description: text@,
            stack: trace@,
            file_name: file@,
            line_number: line,
            column_number: column,
        }),
        (WireEvent::Unknown { json: text })@ == WireEventView::Unknown(text@),
        data_view(None) is None,
        data_view(Some(bytes)) == Some(bytes@),
        slice_view(None) is None,
        slice_view(Some(slice)) == Some(slice@),
        entry@.event == entry.event@,
        entry@.data == data_view(entry.data),
{
}

/// An entry is read part by part from the front, each where the one before it
/// ended; the first part that is not there is what is reported.
pub proof fn entries_are_read_part_by_part(s: Seq<u8>)
    ensures
        match varint_at(s, 4) {
            None => wire_read(s) == Err::<WireView, Seq<char>>(u32_complaint(s)),
            Some((kind, used)) => {
                let s1 = s.skip(used as int);
                &&& kind == 0 ==> reads_text_then_data(s, s1, |t: Seq<char>| WireEventView::Send(t))
                &&& kind == 3 ==> reads_text_then_data(
                    s,
                    s1,
                    |t: Seq<char>| WireEventView::Unknown(t),
                )
                &&& kind == 1 ==> match varint_at(s1, 4) {
                    None => wire_read(s) == Err::<WireView, Seq<char>>(u32_complaint(s1)),
                    Some((level, used1)) => {
                        let s2 = s1.skip(used1 as int);
                        &&& level == 0 ==> reads_text_then_data(
                            s,
                            s2,
                            |t: Seq<char>| WireEventView::Log(LogLevel::Info, t),
                        )
                        &&& level == 1 ==> reads_text_then_data(
                            s,
                            s2,
                            |t: Seq<char>| WireEventView::Log(LogLevel::Debug, t),
                        )
                        &&& level == 2 ==> reads_text_then_data(
                            s,
                            s2,
                            |t: Seq<char>| WireEventView::Log(LogLevel::Warning, t),
                        )
                        &&& level == 3 ==> reads_text_then_data(
                            s,
                            s2,
                            |t: Seq<char>| WireEventView::Log(LogLevel::Error, t),
                        )
                        &&& level > 3 ==> wire_read(s) is Err
                    },
                }
                &&& kind > 3 ==> wire_read(s) is Err
            },
        },
{
}

/// Reading `all` goes on with a text at `s` and the data behind it.
pub open spec fn reads_text_then_data(
    all: Seq<u8>,
    s: Seq<u8>,
    event: spec_fn(Seq<char>) -> WireEventView,
) -> bool {
    match text_at(s) {
        None => wire_read(all) == Err::<WireView, Seq<char>>(text_complaint(s)),
        Some((t, used)) => match data_at(s.skip(used as int)) {
            None => wire_read(all) == Err::<WireView, Seq<char>>(
                data_complaint(s.skip(used as int)),
            ),
            Some((data, _)) => wire_read(all) == Ok::<WireView, Seq<char>>(
                WireView { event: event(t), data },
            ),
        },
    }
}

/// The entry of a runtime error is its three texts, its two numbers and its
/// data, one behind the other; the first that is not there is what is reported.
pub proof fn runtime_errors_are_read_part_by_part(s: Seq<u8>)
    requires
        varint_at(s, 4) matches Some((kind, _)) && kind == 2,
    ensures
        ({
            let s1 = s.skip(varint_at(s, 4)->Some_0.1 as int);
            let s2 = s1.skip(text_at(s1)->Some_0.1 as int);
            let s3 = s2.skip(text_at(s2)->Some_0.1 as int);
            let s4 = s3.skip(text_at(s3)->Some_0.1 as int);
            let s5 = s4.skip(varint_at(s4, 8)->Some_0.1 as int);
            let s6 = s5.skip(varint_at(s5, 8)->Some_0.1 as int);
            if text_at(s1) is None {
                wire_read(s) == Err::<WireView, Seq<char>>(text_complaint(s1))
            } else if text_at(s2) is None {
                wire_read(s) == Err::<WireView, Seq<char>>(text_complaint(s2))
            } else if text_at(s3) is None {
                wire_read(s) == Err::<WireView, Seq<char>>(text_complaint(s3))
            } else if varint_at(s4, 8) is None || varint_at(s4, 8)->Some_0.0 > usize::MAX {
                wire_read(s) == Err::<WireView, Seq<char>>(usize_complaint(s4))
            } else if varint_at(s5, 8) is None || varint_at(s5, 8)->Some_0.0 > usize::MAX {
                wire_read(s) == Err::<WireView, Seq<char>>(usize_complaint(s5))
            } else if data_at(s6) is None {
                wire_read(s) == Err::<WireView, Seq<char>>(data_complaint(s6))
            } else {
                &&& wire_read(s) matches Ok(WireView { event, data })
                &&& data == data_at(s6)->Some_0.0
                &&& event matches WireEventView::Error {
                    description,
                    stack,
                    file_name,
                    line_number,
                    column_number,
                }
                &&& description == text_at(s1)->Some_0.0
                &&& stack == text_at(s2)->Some_0.0
                &&& file_name == text_at(s3)->Some_0.0
                &&& line_number == varint_at(s4, 8)->Some_0.0
                &&& column_number == varint_at(s5, 8)->Some_0.0
            }
        }),
{
}

/// What an entry holds of an event is what comes back when the entry is turned
/// into an event: the level, the texts, the numbers and the data as they were,
/// and a JSON value as its text parses.
pub proof fn entries_hold_events(
    evt: &Event,
    data: Option<&[u8]>,
    stored: Result<WireEntry, Error>,
    r: Result<(Event, Option<Vec<u8>>), Error>,
)
    requires
        call_ensures(WireEntry::from_event, (evt, data), stored),
        stored is Ok,
        call_ensures(WireEntry::into_event, (stored->Ok_0,), r),
    ensures
        match *evt {
            Event::Log { level, message } => {
                &&& r is Ok
                &&& r->Ok_0.0 is Log
                &&& r->Ok_0.0->level == level
                &&& r->Ok_0.0->message@ == message@
            },
            Event::Error { description, stack, file_name, line_number, column_number } => {
                &&& r is Ok
                &&& r->Ok_0.0 is Error
                &&& r->Ok_0.0->description@ == description@
                &&& r->Ok_0.0->stack@ == stack@
                &&& r->Ok_0.0->file_name@ == file_name@
                &&& r->Ok_0.0->line_number == line_number
                &&& r->Ok_0.0->column_number == column_number
            },
            Event::Send { payload } => {
                &&& r is Ok <==> parsed(printed(json(payload))) is Some
                &&& r is Ok ==> r->Ok_0.0 is Send && Some(json(r->Ok_0.0->payload)) == parsed(
                    printed(json(payload)),
                )
            },
            Event::Unknown(v) => {
                &&& r is Ok <==> parsed(printed(json(v))) is Some
                &&& r is Ok ==> r->Ok_0.0 is Unknown && Some(json(r->Ok_0.0->Unknown_0)) == parsed(
                    printed(json(v)),
                )
            },
        },
        r is Ok ==> (r->Ok_0.1 is Some <==> data is Some),
        r is Ok && data is Some ==> r->Ok_0.1->0@ == data->0@,
{
}

} // verus!
