use fridge::error::Error;
use fridge::event::{
    log_level_from_frida, parse_level, str_field, u64_field, MessageLogLevel, SendPayload,
};
use fridge::record::wire::{decode_entry, WireEntry, WireEvent};
use fridge::record::{create_event_writer, read_all_events, read_event_iter, Writer};
use fridge::{Event, LogLevel, Message};
use serde_json::Value;

const TAG: [u8; 4] = *b"TEST";

fn json(text: &str) -> Value {
    serde_json::from_str(text).unwrap()
}

fn sample_send() -> Event {
    Event::Send {
        payload: json(r#"{"action": "request", "url": "/cgi-bin/foo", "id": 42, "length": 128}"#),
    }
}

#[test]
fn round_trip_send_with_data() {
    let mut w = create_event_writer(TAG);
    let data = vec![0xaa, 0xbb, 0xcc, 0xdd];
    w.append(&sample_send(), Some(&data)).unwrap();

    let events = read_all_events(w.bytes(), TAG).unwrap();
    assert_eq!(events.len(), 1);
    let (evt, got_data) = &events[0];
    match evt {
        Event::Send { payload } => {
            assert_eq!(payload.get("action").and_then(|v| v.as_str()), Some("request"));
            assert_eq!(payload.get("id").and_then(|v| v.as_u64()), Some(42));
        }
        _ => panic!("expected Send, got {evt:?}"),
    }
    assert_eq!(got_data.as_deref(), Some(data.as_slice()));
}

#[test]
fn round_trip_send_without_data() {
    let mut w = create_event_writer(TAG);
    w.append(&sample_send(), None).unwrap();

    let events = read_all_events(w.bytes(), TAG).unwrap();
    assert_eq!(events.len(), 1);
    assert!(events[0].1.is_none());
}

#[test]
fn round_trip_log_and_error() {
    let mut w = create_event_writer(TAG);
    w.append(
        &Event::Log {
            level: LogLevel::Warning,
            message: "heads up".into(),
        },
        None,
    )
    .unwrap();
    w.append(
        &Event::Error {
            description: "boom".into(),
            stack: "at line 1".into(),
            file_name: "hook.js".into(),
            line_number: 1,
            column_number: 2,
        },
        None,
    )
    .unwrap();

    let events = read_all_events(w.bytes(), TAG).unwrap();
    assert_eq!(events.len(), 2);
    match &events[0].0 {
        Event::Log { level, message } => {
            assert_eq!(*level, LogLevel::Warning);
            assert_eq!(message, "heads up");
        }
        other => panic!("{other:?}"),
    }
    match &events[1].0 {
        Event::Error {
            description,
            stack,
            file_name,
            line_number,
            column_number,
        } => {
            assert_eq!(
                (description.as_str(), stack.as_str(), file_name.as_str()),
                ("boom", "at line 1", "hook.js")
            );
            assert_eq!((*line_number, *column_number), (1, 2));
        }
        other => panic!("{other:?}"),
    }
}

#[test]
fn many_messages_stream() {
    let mut w = create_event_writer(TAG);
    for i in 0..50 {
        let data = vec![i as u8; (i * 8) as usize];
        w.append(&sample_send(), Some(&data)).unwrap();
    }

    let mut iter = read_event_iter(w.bytes(), TAG).unwrap();
    let mut count = 0;
    while let Some(item) = iter.next() {
        let (_, data) = item.unwrap();
        assert_eq!(data.unwrap().len(), count * 8);
        count += 1;
    }
    assert_eq!(count, 50);
    assert_eq!(iter.bytes_read(), w.bytes().len() as u64);
}

#[test]
fn events_wrong_tag_errors() {
    let mut w = create_event_writer(*b"AAAA");
    w.append(&sample_send(), None).unwrap();
    assert!(read_all_events(w.bytes(), *b"BBBB").is_err());
}

fn text_of(e: Error) -> String {
    match e {
        Error::Record(m) => m,
        other => panic!("{other:?}"),
    }
}

#[test]
fn entry_layout_is_exact() {
    let mut w = create_event_writer(TAG);
    w.append(
        &Event::Send {
            payload: json(r#"{"b": [1, -2], "a": null}"#),
        },
        Some(&[9, 8]),
    )
    .unwrap();
    let mut want = vec![0, 21];
    want.extend_from_slice(br#"{"a":null,"b":[1,-2]}"#);
    want.extend_from_slice(&[1, 2, 9, 8]);
    assert_eq!(&w.bytes()[16..], want.as_slice());

    let mut w = create_event_writer(TAG);
    w.append(
        &Event::Error {
            description: "d".into(),
            stack: "".into(),
            file_name: "é".into(),
            line_number: 250,
            column_number: 251,
        },
        None,
    )
    .unwrap();
    assert_eq!(
        &w.bytes()[16..],
        [2, 1, b'd', 0, 2, 0xc3, 0xa9, 250, 251, 251, 0, 0]
    );

    let mut w = create_event_writer(TAG);
    w.append(
        &Event::Log {
            level: LogLevel::Error,
            message: "m".into(),
        },
        None,
    )
    .unwrap();
    assert_eq!(&w.bytes()[16..], [1, 3, 1, b'm', 0]);
}

#[test]
fn wide_integers_are_marked() {
    for (n, want) in [
        (0usize, vec![0u8]),
        (250, vec![250]),
        (251, vec![251, 251, 0]),
        (65_535, vec![251, 255, 255]),
        (65_536, vec![252, 0, 0, 1, 0]),
        (0xffff_ffff, vec![252, 255, 255, 255, 255]),
        (0x1_0000_0000, vec![253, 0, 0, 0, 0, 1, 0, 0, 0]),
        (usize::MAX, vec![253, 255, 255, 255, 255, 255, 255, 255, 255]),
    ] {
        let entry = WireEntry {
            event: WireEvent::Error {
                description: String::new(),
                stack: String::new(),
                file_name: String::new(),
                line_number: n,
                column_number: 0,
            },
            data: None,
        };
        let bytes = entry.encode().unwrap();
        assert_eq!(&bytes[4..bytes.len() - 2], want.as_slice(), "{n}");
        match decode_entry(&bytes).unwrap().event {
            WireEvent::Error { line_number, .. } => assert_eq!(line_number, n),
            other => panic!("{other:?}"),
        }
    }
}

#[test]
fn integers_may_be_wider_than_needed() {
    let entry = decode_entry(&[251, 1, 0, 252, 2, 0, 0, 0, 253, 1, 0, 0, 0, 0, 0, 0, 0, b'x', 0]);
    match entry.unwrap().event {
        WireEvent::Log { level, message } => {
            assert_eq!(level, LogLevel::Warning);
            assert_eq!(message, "x");
        }
        other => panic!("{other:?}"),
    }
}

#[test]
fn every_level_is_stored() {
    for level in [
        LogLevel::Info,
        LogLevel::Debug,
        LogLevel::Warning,
        LogLevel::Error,
    ] {
        let mut w = create_event_writer(TAG);
        w.append(
            &Event::Log {
                level,
                message: "é".repeat(200),
            },
            Some(&vec![3; 300]),
        )
        .unwrap();
        let got = read_all_events(w.bytes(), TAG).unwrap();
        match &got[0] {
            (Event::Log { level: l, message }, Some(d)) => {
                assert_eq!(*l, level);
                assert_eq!(message, &"é".repeat(200));
                assert_eq!(d, &vec![3; 300]);
            }
            other => panic!("{other:?}"),
        }
    }
}

#[test]
fn unknown_values_are_stored() {
    for text in [
        "null",
        "true",
        "-9223372036854775808",
        "18446744073709551615",
        "\"\\u0000\\\"\u{1f600}\"",
        "[[],{}]",
    ] {
        let mut w = create_event_writer(TAG);
        w.append(&Event::Unknown(json(text)), None).unwrap();
        match &read_all_events(w.bytes(), TAG).unwrap()[0].0 {
            Event::Unknown(v) => assert_eq!(v, &json(text)),
            other => panic!("{other:?}"),
        }
    }
}

fn nested(levels: usize) -> Value {
    let mut v = Value::Null;
    for _ in 0..levels {
        v = Value::Array(vec![v]);
    }
    v
}

#[test]
fn nesting_is_followed_to_its_limit() {
    let mut w = create_event_writer(TAG);
    w.append(&Event::Send { payload: nested(127) }, None).unwrap();
    match &read_all_events(w.bytes(), TAG).unwrap()[0].0 {
        Event::Send { payload } => assert_eq!(payload, &nested(127)),
        other => panic!("{other:?}"),
    }
    let mut w = create_event_writer(TAG);
    w.append(&Event::Send { payload: nested(128) }, None).unwrap();
    let e = text_of(read_all_events(w.bytes(), TAG).unwrap_err());
    assert_eq!(e, "parse send payload: recursion limit exceeded at line 1 column 128");
}

#[test]
fn reading_goes_on_behind_json_that_does_not_parse() {
    let bad = |event: WireEvent| WireEntry { event, data: None }.encode();
    let mut w = Writer::create(TAG);
    w.append(bad(WireEvent::Send {
        payload_json: "{".into(),
    }))
    .unwrap();
    w.append(bad(WireEvent::Unknown { json: "nope".into() })).unwrap();
    w.append(bad(WireEvent::Log {
        level: LogLevel::Info,
        message: "fine".into(),
    }))
    .unwrap();

    let mut it = read_event_iter(w.bytes(), TAG).unwrap();
    assert_eq!(
        text_of(it.next().unwrap().unwrap_err()),
        "parse send payload: EOF while parsing an object at line 1 column 1"
    );
    assert_eq!(
        text_of(it.next().unwrap().unwrap_err()),
        "parse unknown value: expected ident at line 1 column 2"
    );
    assert!(matches!(it.next(), Some(Ok((Event::Log { .. }, None)))));
    assert!(it.next().is_none());
    assert!(read_all_events(w.bytes(), TAG).is_err());
}

#[test]
fn entries_that_do_not_decode_say_why() {
    let why = |b: &[u8]| decode_entry(b).unwrap_err();
    assert_eq!(why(&[]), "UnexpectedEnd { additional: 1 }");
    assert_eq!(
        why(&[9]),
        "OtherString(\"invalid value: integer `9`, expected variant index 0 <= i < 4\")"
    );
    assert_eq!(
        why(&[1, 4]),
        "OtherString(\"invalid value: integer `4`, expected variant index 0 <= i < 4\")"
    );
    assert_eq!(
        why(&[253, 0, 0, 0, 0, 0, 0, 0, 0]),
        "InvalidIntegerType { expected: U32, found: U64 }"
    );
    assert_eq!(why(&[0, 5, b'a']), "UnexpectedEnd { additional: 4 }");
    assert!(why(&[0, 1, 0xff, 0]).starts_with("Utf8 "));
    assert!(why(&[0, 0, 2]).starts_with("UnexpectedVariant "));
    assert_eq!(why(&[0, 0, 1, 3, 1]), "UnexpectedEnd { additional: 1 }");
    assert_eq!(
        why(&[2, 0, 0, 0, 254]),
        "InvalidIntegerType { expected: U64, found: U128 }"
    );

    let mut w = Writer::create(TAG);
    w.append(Ok(vec![9])).unwrap();
    let mut it = read_event_iter(w.bytes(), TAG).unwrap();
    assert_eq!(
        text_of(it.next().unwrap().unwrap_err()),
        "decode at frame#0: OtherString(\"invalid value: integer `9`, expected variant index 0 <= i < 4\")"
    );
    assert!(it.next().is_none());
}

#[test]
fn bytes_behind_an_entry_are_not_looked_at() {
    let entry = decode_entry(&[0, 4, b'n', b'u', b'l', b'l', 0, 77, 77]).unwrap();
    assert!(matches!(entry.into_event(), Ok((Event::Send { payload: Value::Null }, None))));
}

#[test]
fn cut_capture_keeps_whole_events_only() {
    let mut w = create_event_writer(TAG);
    w.append(&sample_send(), Some(&[1])).unwrap();
    let first = w.bytes().len();
    w.append(&sample_send(), Some(&[2])).unwrap();
    for cut in 12..w.bytes().len() {
        let got = read_all_events(&w.bytes()[..cut], TAG).unwrap();
        assert_eq!(got.len(), if cut < first { 0 } else { 1 });
        assert!(got.iter().all(|(_, d)| d.as_deref() == Some(&[1u8][..])));
    }
}

#[test]
fn plain_send_is_recovered_from_the_raw_text() {
    let v = json(r#"{"error": "missing field", "data": "{\"type\":\"send\",\"payload\":{\"url\":\"/x\"}}"}"#);
    match Event::from_frida(&Message::Other(v)) {
        Event::Send { payload } => assert_eq!(payload, json(r#"{"url": "/x"}"#)),
        other => panic!("{other:?}"),
    }
    match Event::from_script(json(r#"{"type": "send"}"#)) {
        Event::Send { payload } => assert_eq!(payload, Value::Null),
        other => panic!("{other:?}"),
    }
}

#[test]
fn rpc_send_becomes_one_object() {
    let m = Message::Send(SendPayload {
        kind: "frida:rpc".into(),
        id: 7,
        result: "ok".into(),
        returns: json("[1]"),
    });
    match Event::from_frida(&m) {
        Event::Send { payload } => assert_eq!(
            payload,
            json(r#"{"type": "frida:rpc", "id": 7, "result": "ok", "returns": [1]}"#)
        ),
        other => panic!("{other:?}"),
    }
}

#[test]
fn logs_and_errors_pass_through() {
    match Event::from_frida(&Message::Log {
        level: MessageLogLevel::Debug,
        payload: "p".into(),
    }) {
        Event::Log { level, message } => assert_eq!((level, message.as_str()), (LogLevel::Debug, "p")),
        other => panic!("{other:?}"),
    }
    match Event::from_frida(&Message::Error {
        description: "d".into(),
        stack: "s".into(),
        file_name: "f".into(),
        line_number: 3,
        column_number: 4,
    }) {
        Event::Error {
            description,
            stack,
            file_name,
            line_number,
            column_number,
        } => {
            assert_eq!((description.as_str(), stack.as_str(), file_name.as_str()), ("d", "s", "f"));
            assert_eq!((line_number, column_number), (3, 4));
        }
        other => panic!("{other:?}"),
    }
}

#[test]
fn script_logs_and_errors_are_classified() {
    match Event::from_script(json(r#"{"type": "log", "level": "warn", "payload": "hm"}"#)) {
        Event::Log { level, message } => assert_eq!((level, message.as_str()), (LogLevel::Warning, "hm")),
        other => panic!("{other:?}"),
    }
    match Event::from_script(json(r#"{"type": "log", "level": 3, "payload": {}}"#)) {
        Event::Log { level, message } => assert_eq!((level, message.as_str()), (LogLevel::Info, "")),
        other => panic!("{other:?}"),
    }
    let e = json(
        r#"{"type": "error", "description": "d", "stack": "s", "fileName": "f",
            "lineNumber": 12, "columnNumber": -1}"#,
    );
    match Event::from_script(e) {
        Event::Error {
            description,
            stack,
            file_name,
            line_number,
            column_number,
        } => {
            assert_eq!((description.as_str(), stack.as_str(), file_name.as_str()), ("d", "s", "f"));
            assert_eq!((line_number, column_number), (12, 0));
        }
        other => panic!("{other:?}"),
    }
}

#[test]
fn what_cannot_be_classified_is_kept() {
    for text in [r#"{"data": 1}"#, r#"{"data": "{"}"#, r#"[]"#, r#""data""#] {
        match Event::from_other(&json(text)) {
            Event::Unknown(v) => assert_eq!(v, json(text)),
            other => panic!("{other:?}"),
        }
    }
    match Event::from_other(&json(r#"{"data": "{\"type\":\"else\"}"}"#)) {
        Event::Unknown(v) => assert_eq!(v, json(r#"{"type": "else"}"#)),
        other => panic!("{other:?}"),
    }
    match Event::from_other(&json(r#"{"data": "3"}"#)) {
        Event::Unknown(v) => assert_eq!(v, json("3")),
        other => panic!("{other:?}"),
    }
}

#[test]
fn levels_have_names() {
    assert_eq!(parse_level("debug"), LogLevel::Debug);
    assert_eq!(parse_level("warning"), LogLevel::Warning);
    assert_eq!(parse_level("warn"), LogLevel::Warning);
    assert_eq!(parse_level("error"), LogLevel::Error);
    assert_eq!(parse_level("info"), LogLevel::Info);
    assert_eq!(parse_level("ERROR"), LogLevel::Info);
    assert_eq!(log_level_from_frida(&MessageLogLevel::Info), LogLevel::Info);
    assert_eq!(log_level_from_frida(&MessageLogLevel::Warning), LogLevel::Warning);
    assert_eq!(log_level_from_frida(&MessageLogLevel::Error), LogLevel::Error);
}

#[test]
fn fields_default_to_nothing() {
    let v = json(r#"{"s": "t", "n": 5, "m": -5, "x": 1.5}"#);
    assert_eq!(str_field(&v, "s"), "t");
    assert_eq!(str_field(&v, "n"), "");
    assert_eq!(str_field(&v, "none"), "");
    assert_eq!(u64_field(&v, "n"), 5);
    assert_eq!(u64_field(&v, "m"), 0);
    assert_eq!(u64_field(&v, "x"), 0);
    assert_eq!(u64_field(&v, "none"), 0);
}
