//! What the consumer actually sees.
//!
//! The toolkit's own message type is strict: a `send` only arrives as one when
//! its payload has the shape `{type, id, result, returns}` of an RPC reply. A
//! plain `send({...})` from a script arrives as an unclassified message with
//! the raw JSON text buried inside.
//!
//! [`Event`] smooths this over: any `send()` of a script becomes
//! [`Event::Send`] with the payload as an untyped JSON value.

use serde_json::Value;
use vstd::prelude::*;
use vstd::string::*;

use crate::json::{
    from_pairs, from_text, from_uint, get, json, member, member_text, members_of, parse, parsed,
    uint_of, Json,
};
use crate::text::same_text;

verus! {

/// How urgent a console message is.
#[derive(Debug, Clone, Copy, PartialEq, Eq, Structural)]
pub enum LogLevel {
    Info,
    Debug,
    Warning,
    Error,
}

/// Normalized script event.
#[derive(Debug, Clone)]
pub enum Event {
    /// A `send(payload, data)` call of the script. The payload has whatever
    /// shape the script chose to emit.
    Send { payload: Value },
    /// `console.log` / `console.warn` / `console.error` of the script.
    Log { level: LogLevel, message: String },
    /// A JS runtime error.
    Error {
        description: String,
        stack: String,
        file_name: String,
        line_number: usize,
        column_number: usize,
    },
    /// A message that could not be classified, kept as it came.
    Unknown(Value),
}

/// [`Event`] with its contents as mathematical values.
pub enum EventView {
    Send(Json),
    Log(LogLevel, Seq<char>),
    Error {
        description: Seq<char>,
        stack: Seq<char>,
        file_name: Seq<char>,
        line_number: usize,
        column_number: usize,
    },
    Unknown(Json),
}

impl View for Event {
    type V = EventView;

    open spec fn view(&self) -> EventView {
        match self {
            Event::Send { payload } => EventView::Send(json(*payload)),
            Event::Log { level, message } => EventView::Log(*level, message@),
            Event::Error { description, stack, file_name, line_number, column_number } =>
                EventView::Error {
                description: description@,
                stack: stack@,
                file_name: file_name@,
                line_number: *line_number,
                column_number: *column_number,
            },
            Event::Unknown(v) => EventView::Unknown(json(*v)),
        }
    }
}

/// The payload of a `send` in the shape of an RPC reply.
#[derive(Debug)]
pub struct SendPayload {
    /// The member `type`.
    pub kind: String,
    pub id: usize,
    pub result: String,
    pub returns: Value,
}

/// The level that the toolkit gives a console message.
#[derive(Debug, Clone, Copy, PartialEq, Eq, Structural)]
pub enum MessageLogLevel {
    Info,
    Debug,
    Warning,
    Error,
}

/// A message as the toolkit delivers it.
#[derive(Debug)]
pub enum Message {
    /// A `send` in the shape of an RPC reply.
    Send(SendPayload),
    /// A console message.
    Log { level: MessageLogLevel, payload: String },
    /// A runtime error.
    Error {
        description: String,
        stack: String,
        file_name: String,
        line_number: usize,
        column_number: usize,
    },
    /// Anything else.
    Other(Value),
}

/// The level that a script names: `debug`, `warning` or `warn`, `error`;
/// anything else is `Info`.
pub open spec fn level_named(s: Seq<char>) -> LogLevel {
    if s == "debug"@ {
        LogLevel::Debug
    } else if s == "warning"@ || s == "warn"@ {
        LogLevel::Warning
    } else if s == "error"@ {
        LogLevel::Error
    } else {
        LogLevel::Info
    }
}

/// The text under `key`, or the empty text.
pub open spec fn text_under(j: Json, key: Seq<char>) -> Seq<char> {
    match member_text(j, key) {
        Some(t) => t,
        None => Seq::empty(),
    }
}

/// The unsigned integer under `key`, or zero.
pub open spec fn uint_under(j: Json, key: Seq<char>) -> u64 {
    match member(j, key) {
        Some(x) => match uint_of(x) {
            Some(n) => n,
            None => 0,
        },
        None => 0,
    }
}

/// What a message that a script emitted says, told by its member `type`.
pub open spec fn event_of_script(j: Json) -> EventView {
    let kind = text_under(j, "type"@);
    if kind == "send"@ {
        EventView::Send(
            match member(j, "payload"@) {
                Some(p) => p,
                None => Json::Null,
            },
        )
    } else if kind == "log"@ {
        EventView::Log(
            match member_text(j, "level"@) {
                Some(l) => level_named(l),
                None => LogLevel::Info,
            },
            text_under(j, "payload"@),
        )
    } else if kind == "error"@ {
        EventView::Error {
            description: text_under(j, "description"@),
            stack: text_under(j, "stack"@),
            file_name: text_under(j, "fileName"@),
            line_number: uint_under(j, "lineNumber"@) as usize,
            column_number: uint_under(j, "columnNumber"@) as usize,
        }
    } else {
        EventView::Unknown(j)
    }
}

/// What an unclassified message says: its member `data` holds the JSON text
/// that the script emitted; without one that parses it stays unknown.
pub open spec fn event_of_other(j: Json) -> EventView {
    match member_text(j, "data"@) {
        Some(t) => match parsed(t) {
            Some(inner) => event_of_script(inner),
            None => EventView::Unknown(j),
        },
        None => EventView::Unknown(j),
    }
}

/// The same level under the toolkit's name.
pub open spec fn level_of(l: MessageLogLevel) -> LogLevel {
    match l {
        MessageLogLevel::Info => LogLevel::Info,
        MessageLogLevel::Debug => LogLevel::Debug,
        MessageLogLevel::Warning => LogLevel::Warning,
        MessageLogLevel::Error => LogLevel::Error,
    }
}

/// The object `{type, id, result, returns}`.
pub open spec fn rpc_object(p: SendPayload) -> Json {
    Json::Object(
        map![
            "type"@ => Json::Text(p.kind@),
            "id"@ => Json::Int(p.id as int),
            "result"@ => Json::Text(p.result@),
            "returns"@ => json(p.returns),
        ],
    )
}

/// What a message of the toolkit says.
pub open spec fn event_of(m: Message) -> EventView {
    match m {
        Message::Send(p) => EventView::Send(rpc_object(p)),
        Message::Log { level, payload } => EventView::Log(level_of(level), payload@),
        Message::Error { description, stack, file_name, line_number, column_number } =>
            EventView::Error {
            description: description@,
            stack: stack@,
            file_name: file_name@,
            line_number,
            column_number,
        },
        Message::Other(v) => event_of_other(json(v)),
    }
}

impl Event {
    /// The event that a message of the toolkit stands for. A `send` that is no
    /// RPC reply arrives unclassified and is recovered from the raw JSON text.
    pub fn from_frida(msg: &Message) -> (r: Event)
        ensures
            r@ == event_of(*msg),
    {
        match msg {
            Message::Send(p) => Event::Send { payload: rpc_value(p) },
            Message::Log { level, payload } => Event::Log {
                level: log_level_from_frida(level),
                message: payload.clone(),
            },
            Message::Error { description, stack, file_name, line_number, column_number } =>
                Event::Error {
                description: description.clone(),
                stack: stack.clone(),
                file_name: file_name.clone(),
                line_number: *line_number,
                column_number: *column_number,
            },
            Message::Other(v) => Event::from_other(v),
        }
    }

    /// The event in an unclassified message `{"data": "<json>", ..}`.
    pub fn from_other(v: &Value) -> (r: Event)
        ensures
            r@ == event_of_other(json(*v)),
    {
        let inner = match get(v, "data") {
            Some(d) => match d.as_str() {
                Some(s) => s,
                None => return Event::Unknown(v.clone()),
            },
            None => return Event::Unknown(v.clone()),
        };
        match parse(inner) {
            Ok(p) => Event::from_script(p),
            Err(_) => Event::Unknown(v.clone()),
        }
    }

    /// The event that a script emitted as this JSON value.
    pub fn from_script(v: Value) -> (r: Event)
        ensures
            r@ == event_of_script(json(v)),
    {
        let kind = str_field(&v, "type");
        if same_text(kind.as_str(), "send") {
            Event::Send {
                payload: match get(&v, "payload") {
                    Some(p) => p.clone(),
                    None => Value::default(),
                },
            }
        } else if same_text(kind.as_str(), "log") {
            let level = match get(&v, "level") {
                Some(l) => match l.as_str() {
                    Some(s) => parse_level(s),
                    None => LogLevel::Info,
                },
                None => LogLevel::Info,
            };
            Event::Log { level, message: str_field(&v, "payload") }
        } else if same_text(kind.as_str(), "error") {
            Event::Error {
                description: str_field(&v, "description"),
                stack: str_field(&v, "stack"),
                file_name: str_field(&v, "fileName"),
                line_number: u64_field(&v, "lineNumber") as usize,
                column_number: u64_field(&v, "columnNumber") as usize,
            }
        } else {
            Event::Unknown(v)
        }
    }
}

/// An RPC reply as one JSON object.
fn rpc_value(p: &SendPayload) -> (r: Value)
    ensures
        json(r) == rpc_object(*p),
{
    let mut pairs: Vec<(String, Value)> = Vec::new();
    pairs.push(("type".to_owned(), from_text(p.kind.clone())));
    pairs.push(("id".to_owned(), from_uint(p.id)));
    pairs.push(("result".to_owned(), from_text(p.result.clone())));
    pairs.push(("returns".to_owned(), p.returns.clone()));
    proof {
        let s = pairs@;
        reveal_with_fuel(members_of, 5);
        reveal_strlit("type");
        reveal_strlit("id");
        reveal_strlit("result");
        reveal_strlit("returns");
        assert("type"@.len() == 4 && "id"@.len() == 2 && "result"@.len() == 6 && "returns"@.len()
            == 7);
        let want = map![
            "type"@ => Json::Text(p.kind@),
            "id"@ => Json::Int(p.id as int),
            "result"@ => Json::Text(p.result@),
            "returns"@ => json(p.returns),
        ];
        assert(s.drop_last().drop_last().drop_last().drop_last().len() == 0);
        assert(members_of(s) =~= want);
    }
    from_pairs(pairs)
}

/// The same level under this crate's name.
pub fn log_level_from_frida(l: &MessageLogLevel) -> (r: LogLevel)
    ensures
        r == level_of(*l),
{
    match l {
        MessageLogLevel::Info => LogLevel::Info,
        MessageLogLevel::Debug => LogLevel::Debug,
        MessageLogLevel::Warning => LogLevel::Warning,
        MessageLogLevel::Error => LogLevel::Error,
    }
}

/// The level that a script names.
pub fn parse_level(s: &str) -> (r: LogLevel)
    ensures
        r == level_named(s@),
{
    if same_text(s, "debug") {
        LogLevel::Debug
    } else if same_text(s, "warning") || same_text(s, "warn") {
        LogLevel::Warning
    } else if same_text(s, "error") {
        LogLevel::Error
    } else {
        LogLevel::Info
    }
}

/// The text under `key`, or the empty text.
pub fn str_field(v: &Value, key: &str) -> (r: String)
    ensures
        r@ == text_under(json(*v), key@),
{
    match get(v, key) {
        Some(x) => match x.as_str() {
            Some(s) => s.to_owned(),
            None => String::new(),
        },
        None => String::new(),
    }
}

/// The unsigned integer under `key`, or zero.
pub fn u64_field(v: &Value, key: &str) -> (r: u64)
    ensures
        r == uint_under(json(*v), key@),
{
    match get(v, key) {
        Some(x) => match x.as_u64() {
            Some(n) => n,
            None => 0,
        },
        None => 0,
    }
}

/// Every `send()` of a script becomes a send event. One in the shape of an RPC
/// reply holds that reply; any other is recovered from the unclassified
/// message it arrives in, and holds the payload as it was sent.
pub proof fn every_send_becomes_a_send_event(j: Json, text: Seq<char>, inner: Json, p: SendPayload)
    requires
        member_text(j, "data"@) == Some(text),
        parsed(text) == Some(inner),
        member_text(inner, "type"@) == Some("send"@),
    ensures
        event_of(Message::Send(p)) == EventView::Send(rpc_object(p)),
        event_of_other(j) == EventView::Send(
            match member(inner, "payload"@) {
                Some(payload) => payload,
                None => Json::Null,
            },
        ),
{
}

/// What cannot be classified is kept: an unknown event holds the message as it
/// came, or the JSON value that the script emitted.
pub proof fn unknown_message_is_kept(j: Json)
    ensures
        event_of_other(j) matches EventView::Unknown(kept) ==> {
            ||| kept == j
            ||| member_text(j, "data"@) matches Some(text) && parsed(text) == Some(kept)
        },
{
}

/// A console message becomes a log event with the same text and the level of
/// the same name.
pub proof fn console_messages_keep_level_and_text(payload: String)
    ensures
        event_of(Message::Log { level: MessageLogLevel::Info, payload }) == EventView::Log(
            LogLevel::Info,
            payload@,
        ),
        event_of(Message::Log { level: MessageLogLevel::Debug, payload }) == EventView::Log(
            LogLevel::Debug,
            payload@,
        ),
        event_of(Message::Log { level: MessageLogLevel::Warning, payload }) == EventView::Log(
            LogLevel::Warning,
            payload@,
        ),
        event_of(Message::Log { level: MessageLogLevel::Error, payload }) == EventView::Log(
            LogLevel::Error,
            payload@,
        ),
        level_of(MessageLogLevel::Info) == LogLevel::Info,
        level_of(MessageLogLevel::Debug) == LogLevel::Debug,
        level_of(MessageLogLevel::Warning) == LogLevel::Warning,
        level_of(MessageLogLevel::Error) == LogLevel::Error,
{
}

/// A runtime error becomes an error event that holds each of its parts.
pub proof fn runtime_errors_keep_their_parts(
    what: String,
    trace: String,
    file: String,
    line: usize,
    column: usize,
)
    ensures
        event_of(
            Message::Error {
                description: what,
                stack: trace,
                file_name: file,
                line_number: line,
                column_number: column,
            },
        ) matches EventView::Error { description, stack, file_name, line_number, column_number }
            && description == what@ && stack == trace@ && file_name == file@ && line_number == line
            && column_number == column,
{
}

/// An RPC reply becomes a send event whose payload is an object of exactly its
/// four parts.
pub proof fn rpc_replies_keep_their_parts(p: SendPayload)
    ensures
        event_of(Message::Send(p)) matches EventView::Send(Json::Object(m)) && m.dom() == set![
            "type"@,
            "id"@,
            "result"@,
            "returns"@,
        ] && m["type"@] == Json::Text(p.kind@) && m["id"@] == Json::Int(p.id as int) && m["result"@]
            == Json::Text(p.result@) && m["returns"@] == json(p.returns),
{
    reveal_strlit("type");
    reveal_strlit("id");
    reveal_strlit("result");
    reveal_strlit("returns");
    assert("type"@.len() == 4 && "id"@.len() == 2 && "result"@.len() == 6 && "returns"@.len()
        == 7);
    match event_of(Message::Send(p)) {
        EventView::Send(Json::Object(m)) => {
            assert(m.dom() =~= set!["type"@, "id"@, "result"@, "returns"@]);
        },
        _ => {},
    }
}

/// What a script names as a level is that level, under either of its names; any
/// other name is `Info`.
pub proof fn level_names_are_read_as_spelled(s: Seq<char>)
    ensures
        level_named("debug"@) == LogLevel::Debug,
        level_named("warning"@) == LogLevel::Warning,
        level_named("warn"@) == LogLevel::Warning,
        level_named("error"@) == LogLevel::Error,
        s != "debug"@ && s != "warning"@ && s != "warn"@ && s != "error"@ ==> level_named(s)
            == LogLevel::Info,
{
    reveal_strlit("debug");
    reveal_strlit("warning");
    reveal_strlit("warn");
    reveal_strlit("error");
    assert("debug"@.len() == 5 && "warning"@.len() == 7 && "warn"@.len() == 4 && "error"@.len()
        == 5);
    assert("debug"@[0] == 'd' && "error"@[0] == 'e');
}

/// A message that a script emitted is told by its member `type`, which is one
/// of three texts.
proof fn lemma_kinds_differ()
    ensures
        "send"@ != "log"@,
        "send"@ != "error"@,
        "log"@ != "error"@,
{
    reveal_strlit("send");
    reveal_strlit("log");
    reveal_strlit("error");
    assert("send"@.len() == 4 && "log"@.len() == 3 && "error"@.len() == 5);
}

/// An object of type `send` is a send event with its payload as it stands, or
/// with null where it has none.
pub proof fn script_sends_keep_their_payload(m: Map<Seq<char>, Json>)
    requires
        m.dom().contains("type"@),
        m["type"@] == Json::Text("send"@),
    ensures
        m.dom().contains("payload"@) ==> event_of_script(Json::Object(m)) == EventView::Send(
            m["payload"@],
        ),
        !m.dom().contains("payload"@) ==> event_of_script(Json::Object(m)) == EventView::Send(
            Json::Null,
        ),
{
}

/// An object of type `log` is a log event: its level is the one that it names,
/// `Info` where it names none, and its message is the text of its payload,
/// empty where that is no text.
pub proof fn script_logs_keep_level_and_text(m: Map<Seq<char>, Json>)
    requires
        m.dom().contains("type"@),
        m["type"@] == Json::Text("log"@),
    ensures
        event_of_script(Json::Object(m)) matches EventView::Log(level, message) && {
            &&& m.dom().contains("payload"@) && m["payload"@] is Text ==> m["payload"@]
                == Json::Text(message)
            &&& !(m.dom().contains("payload"@) && m["payload"@] is Text) ==> message.len() == 0
            &&& m.dom().contains("level"@) && m["level"@] == Json::Text("debug"@) ==> level
                == LogLevel::Debug
            &&& m.dom().contains("level"@) && m["level"@] == Json::Text("warning"@) ==> level
                == LogLevel::Warning
            &&& m.dom().contains("level"@) && m["level"@] == Json::Text("warn"@) ==> level
                == LogLevel::Warning
            &&& m.dom().contains("level"@) && m["level"@] == Json::Text("error"@) ==> level
                == LogLevel::Error
            &&& level != LogLevel::Info ==> m.dom().contains("level"@) && (m["level"@]
                == Json::Text("debug"@) || m["level"@] == Json::Text("warning"@) || m["level"@]
                == Json::Text("warn"@) || m["level"@] == Json::Text("error"@))
        },
{
    lemma_kinds_differ();
    level_names_are_read_as_spelled("info"@);
}

/// The text that a member holds, the empty text where it holds none.
pub open spec fn is_text_under(m: Map<Seq<char>, Json>, key: Seq<char>, t: Seq<char>) -> bool {
    if m.dom().contains(key) && m[key] is Text {
        m[key] == Json::Text(t)
    } else {
        t.len() == 0
    }
}

/// The count that a member holds, zero where it holds none. A count beyond what
/// the machine addresses is cut to its width.
pub open spec fn is_count_under(m: Map<Seq<char>, Json>, key: Seq<char>, n: usize) -> bool {
    if m.dom().contains(key) && m[key] is Int && 0 <= m[key]->Int_0 <= u64::MAX {
        m[key]->Int_0 <= usize::MAX ==> m[key] == Json::Int(n as int)
    } else {
        n == 0
    }
}

/// An object of type `error` is an error event with the texts and numbers that
/// its members hold.
pub proof fn script_errors_keep_their_parts(m: Map<Seq<char>, Json>)
    requires
        m.dom().contains("type"@),
        m["type"@] == Json::Text("error"@),
    ensures
        event_of_script(Json::Object(m)) matches EventView::Error {
            description,
            stack,
            file_name,
            line_number,
            column_number,
        } && is_text_under(m, "description"@, description) && is_text_under(m, "stack"@, stack)
            && is_text_under(m, "fileName"@, file_name) && is_count_under(
            m,
            "lineNumber"@,
            line_number,
        ) && is_count_under(m, "columnNumber"@, column_number),
{
    lemma_kinds_differ();
}

/// Any other JSON value that a script emitted is kept as it is: one that is no
/// object, has no text as its `type`, or another one.
pub proof fn other_script_values_are_kept(j: Json)
    requires
        !(j matches Json::Object(m) && m.dom().contains("type"@) && (m["type"@] == Json::Text(
            "send"@,
        ) || m["type"@] == Json::Text("log"@) || m["type"@] == Json::Text("error"@))),
    ensures
        event_of_script(j) == EventView::Unknown(j),
{
    reveal_strlit("send");
    reveal_strlit("log");
    reveal_strlit("error");
    assert("send"@.len() == 4 && "log"@.len() == 3 && "error"@.len() == 5);
}

/// An unclassified message whose `data` is JSON text means what that text says;
/// any other stays as it came.
pub proof fn unclassified_messages_mean_their_data(v: Value, text: Seq<char>, inner: Json)
    ensures
        json(v) matches Json::Object(m) ==> m.dom().contains("data"@) ==> m["data"@]
            == Json::Text(text) ==> parsed(text) == Some(inner) ==> event_of(Message::Other(v))
            == event_of_script(inner),
        json(v) matches Json::Object(m) ==> m.dom().contains("data"@) ==> m["data"@]
            == Json::Text(text) ==> parsed(text) is None ==> event_of(Message::Other(v))
            == EventView::Unknown(json(v)),
        !(json(v) matches Json::Object(m) && m.dom().contains("data"@) && m["data"@] is Text)
            ==> event_of(Message::Other(v)) == EventView::Unknown(json(v)),
{
}

/// The view of an event keeps what it holds.
pub proof fn view_keeps_the_event(
    payload: Value,
    level: LogLevel,
    text: String,
    trace: String,
    file: String,
    line: usize,
    column: usize,
)
    ensures
        (Event::Send { payload })@ == EventView::Send(json(payload)),
        (Event::Log { level, message: text })@ == EventView::Log(level, text@),
        (Event::Error {
            description: text,
            stack: trace,
            file_name: file,
            line_number: line,
            column_number: column,
        })@ == (EventView::Error {
            description: text@,
            stack: trace@,
            file_name: file@,
            line_number: line,
            column_number: column,
        }),
        Event::Unknown(payload)@ == EventView::Unknown(json(payload)),
{
}

/// The event of a message holds what the message holds: a console message's
/// level and text, a runtime error's parts, an RPC reply's members, and of an
/// unclassified message the message itself unless its data says otherwise.
pub proof fn events_hold_what_messages_hold(msg: &Message, r: Event)
    requires
        call_ensures(Event::from_frida, (msg,), r),
    ensures
        match *msg {
            Message::Log { level, payload } => {
                &&& r is Log
                &&& r->message@ == payload@
                &&& level is Info <==> r->level is Info
                &&& level is Debug <==> r->level is Debug
                &&& level is Warning <==> r->level is Warning
                &&& level is Error <==> r->level is Error
            },
            Message::Error { description, stack, file_name, line_number, column_number } => {
                &&& r is Error
                &&& r->description@ == description@
                &&& r->stack@ == stack@
                &&& r->file_name@ == file_name@
                &&& r->line_number == line_number
                &&& r->column_number == column_number
            },
            Message::Send(p) => {
                &&& r is Send
                &&& json(r->payload) matches Json::Object(m)
                &&& m.dom() == set!["type"@, "id"@, "result"@, "returns"@]
                &&& m["type"@] == Json::Text(p.kind@)
                &&& m["id"@] == Json::Int(p.id as int)
                &&& m["result"@] == Json::Text(p.result@)
                &&& m["returns"@] == json(p.returns)
            },
            Message::Other(v) => {
                json(v) matches Json::Object(m) && m.dom().contains("data"@) && m["data"@] is Text
                    && parsed(m["data"@]->Text_0) is Some || r is Unknown && json(r->Unknown_0)
                    == json(v)
            },
        },
{
    match *msg {
        Message::Log { level, payload } => {
            console_messages_keep_level_and_text(payload);
        },
        Message::Send(p) => {
            rpc_replies_keep_their_parts(p);
        },
        Message::Other(v) => {
            if let Json::Object(m) = json(v) {
                if m.dom().contains("data"@) && m["data"@] is Text {
                    let t = m["data"@]->Text_0;
                    unclassified_messages_mean_their_data(v, t, Json::Null);
                }
            }
            unclassified_messages_mean_their_data(v, Seq::empty(), Json::Null);
        },
        _ => {},
    }
}

/// The field of an object under any key is the text or the number that stands
/// there; where none does, and in what is no object, it is empty or zero.
pub proof fn fields_are_read_by_key(j: Json, key: Seq<char>)
    ensures
        match j {
            Json::Object(m) => {
                &&& is_text_under(m, key, text_under(j, key))
                &&& m.dom().contains(key) && m[key] is Int && 0 <= m[key]->Int_0 <= u64::MAX
                    ==> uint_under(j, key) == m[key]->Int_0
                &&& !(m.dom().contains(key) && m[key] is Int && 0 <= m[key]->Int_0 <= u64::MAX)
                    ==> uint_under(j, key) == 0
            },
            _ => text_under(j, key).len() == 0 && uint_under(j, key) == 0,
        },
{
}

/// Reading a level's name or the toolkit's level gives the level of that name.
pub proof fn levels_are_read_by_name(
    s: &str,
    l: &MessageLogLevel,
    r: LogLevel,
)
    ensures
        call_ensures(parse_level, (s,), r) ==> {
            &&& s@ == "debug"@ ==> r is Debug
            &&& s@ == "warning"@ || s@ == "warn"@ ==> r is Warning
            &&& s@ == "error"@ ==> r is Error
            &&& s@ != "debug"@ && s@ != "warning"@ && s@ != "warn"@ && s@ != "error"@ ==> r is Info
        },
        call_ensures(log_level_from_frida, (l,), r) ==> {
            &&& l is Info <==> r is Info
            &&& l is Debug <==> r is Debug
            &&& l is Warning <==> r is Warning
            &&& l is Error <==> r is Error
        },
{
    level_names_are_read_as_spelled(s@);
}

} // verus!
