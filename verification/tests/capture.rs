use fridge::capture::handle::{spawn_failed, start_outcome, stop_outcome, StopPlan};
use fridge::capture::handler::deliver;
use fridge::capture::ScriptInput;
use fridge::cli::{emit_line, CLI_TAG};
use fridge::target::parse_device;
use fridge::{
    Capture, CaptureHandle, DetachReason, DeviceSel, Error, Event, Handler, Message, Target,
};
use std::time::Duration;

fn read(bytes: &[u8]) -> Result<Vec<u8>, String> {
    Ok(bytes.to_vec())
}

#[test]
fn script_from_disk_js_loads_as_source() {
    let b = Capture::builder()
        .script_from_disk("hook.js", Some("js"), read(b"console.log('hi');"))
        .unwrap();
    match b.script.as_ref().unwrap() {
        ScriptInput::Source(s) => assert_eq!(s, "console.log('hi');"),
        ScriptInput::Bytes(_) => panic!(".js should land as Source"),
    }
}

#[test]
fn script_from_disk_bin_loads_as_bytes() {
    // Not UTF-8, so source text would be refused.
    let payload: Vec<u8> = vec![0xDE, 0xAD, 0xBE, 0xEF, 0xFF];
    let b = Capture::builder()
        .script_from_disk("hook.bin", Some("bin"), read(&payload))
        .unwrap();
    match b.script.as_ref().unwrap() {
        ScriptInput::Bytes(bs) => assert_eq!(bs, &payload),
        ScriptInput::Source(_) => panic!(".bin should land as Bytes"),
    }
}

#[test]
fn script_from_disk_qjsc_also_loads_as_bytes() {
    let b = Capture::builder()
        .script_from_disk("hook.qjsc", Some("qjsc"), read(b"\x01\x02\x03"))
        .unwrap();
    assert!(matches!(b.script.as_ref(), Some(ScriptInput::Bytes(_))));
    let b = Capture::builder()
        .script_from_disk("hook", None, read(b"\x01\x02\x03"))
        .unwrap();
    assert!(matches!(b.script.as_ref(), Some(ScriptInput::Bytes(_))));
}

#[test]
fn script_from_disk_missing_file_errors() {
    let missing = Err("No such file or directory (os error 2)".to_string());
    let Err(e) = Capture::builder().script_from_disk("nope.js", Some("js"), missing) else {
        panic!("expected read failure");
    };
    assert!(e.message().contains("read script"));
    assert_eq!(
        e.message(),
        "frida: read script nope.js: No such file or directory (os error 2)"
    );
}

#[test]
fn script_from_disk_invalid_utf8_js_errors() {
    let bad = read(&[b'l', b'e', b't', 0xFF]);
    let Err(e) = Capture::builder().script_from_disk("bad.js", Some("js"), bad) else {
        panic!("expected utf-8 failure");
    };
    assert!(e.message().contains("utf-8"));
    assert_eq!(
        e.message(),
        "frida: script bad.js is not valid utf-8: invalid utf-8 sequence of 1 bytes from index 3"
    );
}

#[test]
fn script_from_disk_overrides_prior_script_call() {
    let b = Capture::builder()
        .script("before")
        .script_from_disk("hook.js", Some("js"), read(b"after"))
        .unwrap();
    match b.script.as_ref().unwrap() {
        ScriptInput::Source(s) => assert_eq!(s, "after"),
        _ => panic!(),
    }
}

#[test]
fn builder_starts_with_its_defaults() {
    let b = Capture::builder();
    assert!(b.target.is_none());
    assert!(b.script.is_none());
    assert!(matches!(b.device, DeviceSel::Local));
    assert!(b.resume_after_spawn);
    assert_eq!(b.detach_poll, Duration::from_millis(500));
    assert_eq!(b.start_timeout, Duration::from_secs(30));
}

#[test]
fn builder_keeps_what_it_is_given() {
    let c = Capture::builder()
        .target(Target::spawn("/bin/app", &["-v", "x"]))
        .device(DeviceSel::ById("emulator-5554".into()))
        .script("one")
        .script_bytes(vec![1, 2])
        .resume_after_spawn(false)
        .detach_poll_interval(Duration::from_millis(7))
        .start_timeout(Duration::from_secs(2))
        .build()
        .unwrap();
    match &c.cfg.target {
        Target::Spawn { program, args } => {
            assert_eq!(program, "/bin/app");
            assert_eq!(args, &["-v", "x"]);
        }
        other => panic!("{other:?}"),
    }
    assert!(matches!(&c.cfg.device, DeviceSel::ById(id) if id == "emulator-5554"));
    assert!(matches!(&c.cfg.script, ScriptInput::Bytes(b) if *b == [1, 2]));
    assert!(!c.cfg.resume_after_spawn);
    assert_eq!(c.cfg.detach_poll, Duration::from_millis(7));
    assert_eq!(c.cfg.start_timeout, Duration::from_secs(2));
}

#[test]
fn missing_parts_are_reported_in_order() {
    let e = Capture::builder().build().unwrap_err();
    assert!(matches!(e, Error::MissingTarget));
    assert_eq!(e.message(), "CaptureBuilder missing target");
    let e = Capture::builder().script("x").build().unwrap_err();
    assert!(matches!(e, Error::MissingTarget));
    let e = Capture::builder().target(Target::pid(1)).build().unwrap_err();
    assert!(matches!(e, Error::MissingScript));
    assert_eq!(e.message(), "CaptureBuilder missing script");
}

#[test]
fn targets_are_made_as_named() {
    assert!(matches!(Target::pid(7), Target::Pid(7)));
    assert!(matches!(Target::name("a"), Target::Name(n) if n == "a"));
    assert!(matches!(Target::main_by_name("a"), Target::MainByName(n) if n == "a"));
}

#[test]
fn errors_say_what_happened() {
    let says = |e: Error, text: &str| {
        assert_eq!(e.message(), text);
        assert_eq!(e.clone().message(), text);
    };
    says(
        Error::ProcessNotFound("a\"b".into()),
        "no process matching name \"a\\\"b\" on the selected device",
    );
    says(
        Error::StartTimeout(Duration::from_millis(1500)),
        "capture worker did not start within 1.5s",
    );
    says(Error::WorkerPanic("oh".into()), "capture worker panicked: oh");
    says(Error::Frida("no".into()), "frida: no");
    says(Error::Record("no".into()), "record: no");
    says(Error::MissingScript, "CaptureBuilder missing script");
    says(Error::MissingTarget, "CaptureBuilder missing target");
}

#[test]
fn device_selectors_are_understood() {
    assert!(matches!(parse_device("local"), Ok(DeviceSel::Local)));
    assert!(matches!(parse_device("usb"), Ok(DeviceSel::Usb)));
    assert!(matches!(parse_device("remote:host:27042"), Ok(DeviceSel::Remote(h)) if h == "host:27042"));
    assert!(matches!(parse_device("remote:"), Ok(DeviceSel::Remote(h)) if h.is_empty()));
    assert!(matches!(parse_device("by-id:é-1"), Ok(DeviceSel::ById(i)) if i == "é-1"));
    assert!(matches!(DeviceSel::default(), DeviceSel::Local));
    for other in ["", "Local", "remote", "by-id", "tape"] {
        assert_eq!(
            parse_device(other).unwrap_err(),
            format!("unknown device selector: {other}")
        );
    }
}

#[test]
fn a_session_is_stopped_once() {
    let mut h = CaptureHandle::new(99);
    assert_eq!(h.pid(), 99);
    assert_eq!(h.take_stop(), StopPlan { signal: true, join: true });
    assert_eq!(h.take_stop(), StopPlan { signal: false, join: false });
    assert_eq!(h.pid(), 99);
    assert!(stop_outcome(Ok(())).is_ok());
    assert!(matches!(stop_outcome(Err("Any".into())), Err(Error::WorkerPanic(m)) if m == "Any"));
}

#[test]
fn a_start_reports_what_the_worker_said() {
    let t = Duration::from_secs(3);
    assert_eq!(start_outcome(Some(Ok(5)), t).unwrap().pid(), 5);
    assert!(matches!(
        start_outcome(Some(Err(Error::Frida("x".into()))), t),
        Err(Error::Frida(m)) if m == "x"
    ));
    assert!(matches!(start_outcome(None, t), Err(Error::StartTimeout(d)) if d == t));
    assert_eq!(spawn_failed("no threads").message(), "frida: spawn worker: no threads");
}

#[test]
fn lines_say_when_there_is_no_json() {
    assert_eq!(emit_line(Ok("{}".into())), "{}");
    assert_eq!(
        emit_line(Err("odd value".into())),
        "{\"kind\":\"serialize_error\",\"error\":\"odd value\"}"
    );
    assert_eq!(&CLI_TAG, b"FRGE");
}

struct Counter(usize);

impl Handler for Counter {
    fn on_message(&mut self, _evt: &Event, data: Option<&[u8]>) {
        self.0 += data.map_or(1, |d| d.len());
    }
}

struct Seen(Vec<(String, Option<Vec<u8>>)>);

impl Handler for Seen {
    fn on_message(&mut self, evt: &Event, data: Option<&[u8]>) {
        self.0.push((format!("{evt:?}"), data.map(|d| d.to_vec())));
    }
}

#[test]
fn messages_are_delivered_as_events() {
    let raw = |text: &str| Message::Other(serde_json::from_str(text).unwrap());
    let mut s = Seen(Vec::new());
    deliver(&mut s, &raw(r#"{"data": "{\"type\":\"send\",\"payload\":7}"}"#), Some(vec![1, 2]));
    deliver(&mut s, &raw("null"), None);
    assert_eq!(
        s.0,
        [
            ("Send { payload: Number(7) }".to_string(), Some(vec![1, 2])),
            ("Unknown(Null)".to_string(), None)
        ]
    );
}

#[test]
fn handlers_only_need_on_message() {
    let mut c = Counter(0);
    c.on_started(1);
    c.on_message(&Event::Unknown(serde_json::Value::Null), None);
    c.on_message(&Event::Unknown(serde_json::Value::Null), Some(&[0, 0]));
    c.on_detached(DetachReason::Stopped);
    assert_eq!(c.0, 3);
}
