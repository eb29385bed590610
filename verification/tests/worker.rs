use fridge::capture::worker::{resolve_target, Action, Lookup, Phase, Reply, Worker};
use fridge::discover::{
    find_by_name, find_main_by_name, processes, NameMatch, ProcessInfo, ProcessReport,
};
use fridge::text::{after_prefix, contains_ignoring_case};
use fridge::{Capture, DetachReason, Error, Target};

fn worker(target: Target, resume: bool) -> Worker {
    let c = Capture::builder()
        .target(target)
        .script("s")
        .resume_after_spawn(resume)
        .build()
        .unwrap();
    Worker::new(c.cfg)
}

fn report(pid: u32, name: &str, ppid: Option<i64>) -> ProcessReport {
    ProcessReport {
        pid,
        name: name.to_string(),
        ppid,
    }
}

fn process(pid: u32, name: &str, ppid: Option<i64>) -> ProcessInfo {
    ProcessInfo::from_report(&report(pid, name, ppid))
}

/// Carries a worker through its start and returns what it asked for.
fn started(w: &mut Worker) -> Vec<String> {
    started_with(w, NameMatch::Exact)
}

fn started_with(w: &mut Worker, rule: NameMatch) -> Vec<String> {
    let mut asked = Vec::new();
    while !matches!(w.phase, Phase::Waiting) {
        asked.push(format!("{:?}", w.action()));
        let reply = match w.action() {
            Action::ListProcesses { .. } => Reply::Processes {
                found: vec![
                    process(4, "Other", Some(1)),
                    process(6, "my APP", Some(5)),
                    process(5, "app", Some(1)),
                    process(7, "App", Some(5)),
                    process(8, "App", Some(7)),
                ],
                rule,
            },
            Action::SpawnProgram => Reply::Spawned(31),
            _ => Reply::Done,
        };
        w.on_reply(reply);
    }
    asked
}

#[test]
fn attaching_to_a_pid() {
    let mut w = worker(Target::pid(8), true);
    assert_eq!(
        started(&mut w),
        [
            "OpenDevice",
            "Attach(8)",
            "CreateScript",
            "InstallHandler",
            "LoadScript",
            "AnnounceStarted(8)",
            "ReportStarted(8)"
        ]
    );
}

#[test]
fn attaching_by_name() {
    for (rule, first, main) in [
        (NameMatch::Exact, 7, 7),
        (NameMatch::SubstringIgnoringCase, 6, 5),
    ] {
        let mut w = worker(Target::name("App"), true);
        let asked = started_with(&mut w, rule);
        assert_eq!(asked[1], "ListProcesses { with_parents: false }");
        assert_eq!(asked[2], format!("Attach({first})"));

        let mut w = worker(Target::main_by_name("App"), true);
        let asked = started_with(&mut w, rule);
        assert_eq!(asked[1], "ListProcesses { with_parents: true }");
        assert_eq!(asked[2], format!("Attach({main})"));
        assert_eq!(asked[asked.len() - 2], format!("AnnounceStarted({main})"));
        assert_eq!(*asked.last().unwrap(), format!("ReportStarted({main})"));
    }
}

#[test]
fn spawned_process_is_resumed() {
    let mut w = worker(Target::spawn("p", &[]), true);
    assert_eq!(
        started(&mut w),
        [
            "OpenDevice",
            "SpawnProgram",
            "Attach(31)",
            "CreateScript",
            "InstallHandler",
            "LoadScript",
            "Resume(31)",
            "AnnounceStarted(31)",
            "ReportStarted(31)"
        ]
    );
}

#[test]
fn spawned_process_may_be_left_suspended() {
    let mut w = worker(Target::spawn("p", &[]), false);
    let asked = started(&mut w);
    assert!(!asked.contains(&"Resume(31)".to_string()));
    assert_eq!(asked[asked.len() - 2], "AnnounceStarted(31)");
    assert_eq!(asked[asked.len() - 1], "ReportStarted(31)");
}

#[test]
fn stopping_unloads_and_announces() {
    for unloaded in [Reply::Done, Reply::Failed("stuck".into())] {
        let mut w = worker(Target::pid(8), true);
        started(&mut w);
        w.on_reply(Reply::StopRequested);
        assert!(matches!(w.action(), Action::UnloadScript));
        w.on_reply(unloaded);
        assert!(matches!(w.action(), Action::AnnounceDetached(DetachReason::Stopped)));
        w.on_reply(Reply::Done);
        assert!(matches!(w.action(), Action::Nothing));
        w.on_reply(Reply::Done);
        assert!(matches!(w.phase, Phase::Ended));
    }
}

#[test]
fn watchdog_sees_the_session_detached() {
    let mut w = worker(Target::pid(8), true);
    started(&mut w);
    for _ in 0..3 {
        assert!(matches!(w.action(), Action::AwaitStop));
        w.on_reply(Reply::TimedOut);
        assert!(matches!(w.action(), Action::CheckDetached));
        w.on_reply(Reply::Detached(false));
    }
    w.on_reply(Reply::TimedOut);
    w.on_reply(Reply::Detached(true));
    assert!(matches!(w.action(), Action::AnnounceDetached(DetachReason::Detected)));
}

#[test]
fn failed_start_is_reported_and_not_announced() {
    for failing in 0..6 {
        let mut w = worker(Target::spawn("p", &[]), true);
        for _ in 0..failing {
            let reply = match w.action() {
                Action::SpawnProgram => Reply::Spawned(31),
                _ => Reply::Done,
            };
            w.on_reply(reply);
        }
        w.on_reply(Reply::Failed("refused".into()));
        match w.action() {
            Action::ReportFailure(Error::Frida(m)) => assert_eq!(m, "refused"),
            other => panic!("{failing}: {other:?}"),
        }
        w.on_reply(Reply::Done);
        assert!(matches!(w.action(), Action::Nothing), "{failing}");
        assert!(matches!(w.phase, Phase::Ended), "{failing}");
    }
}

#[test]
fn nothing_found_is_a_failure() {
    let mut w = worker(Target::main_by_name("App"), true);
    w.on_reply(Reply::Done);
    w.on_reply(Reply::Processes {
        found: vec![process(1, "init", None)],
        rule: NameMatch::SubstringIgnoringCase,
    });
    match w.action() {
        Action::ReportFailure(e) => assert_eq!(
            e.message(),
            "no process matching name \"App\" on the selected device"
        ),
        other => panic!("{other:?}"),
    }
}

#[test]
fn replies_that_answer_nothing_change_nothing() {
    let mut w = worker(Target::pid(8), true);
    w.on_reply(Reply::StopRequested);
    w.on_reply(Reply::Detached(true));
    w.on_reply(Reply::Spawned(3));
    w.on_reply(Reply::Processes {
        found: vec![],
        rule: NameMatch::Exact,
    });
    assert!(matches!(w.action(), Action::OpenDevice));
    started(&mut w);
    w.on_reply(Reply::Failed("late".into()));
    assert!(matches!(w.action(), Action::AwaitStop));
}

#[test]
fn first_process_of_the_name_is_found() {
    let ps = [
        process(1, "init", None),
        process(2, "Weixin.EXE", None),
        process(3, "weixin.exe", None),
    ];
    let exact = NameMatch::Exact;
    assert_eq!(find_by_name(&ps, "weixin.exe", exact).unwrap(), 3);
    assert_eq!(find_by_name(&ps, "Weixin.EXE", exact).unwrap(), 2);
    for name in ["INIT", "weixin", ""] {
        assert!(
            matches!(find_by_name(&ps, name, exact), Err(Error::ProcessNotFound(n)) if n == name)
        );
    }

    let loose = NameMatch::SubstringIgnoringCase;
    assert_eq!(find_by_name(&ps, "weixin.exe", loose).unwrap(), 2);
    assert_eq!(find_by_name(&ps, "XIN", loose).unwrap(), 2);
    assert_eq!(find_by_name(&ps, "INIT", loose).unwrap(), 1);
    assert_eq!(find_by_name(&ps, "", loose).unwrap(), 1);
    assert!(
        matches!(find_by_name(&ps, "weixin.exe.", loose), Err(Error::ProcessNotFound(n)) if n == "weixin.exe.")
    );
    assert!(find_by_name(&[], "x", loose).is_err());
}

#[test]
fn case_counts_off_windows() {
    let ps = [process(7, "Weixin", None)];
    let lookup = Lookup { name: "weixin".into(), main: false };
    let rule = NameMatch::on_platform(false);
    assert!(
        matches!(resolve_target(&lookup, rule, &ps), Err(Error::ProcessNotFound(n)) if n == "weixin")
    );
    let rule = NameMatch::on_platform(true);
    assert_eq!(resolve_target(&lookup, rule, &ps).unwrap(), 7);
}

#[test]
fn main_process_is_no_helper() {
    let ps = [
        process(20, "app", Some(10)),
        process(21, "App", Some(20)),
        process(10, "app", Some(1)),
        process(30, "app", Some(2)),
    ];
    let exact = NameMatch::Exact;
    assert_eq!(find_main_by_name(&ps, "app", exact).unwrap(), 10);
    // Its parent has another name once case counts.
    assert_eq!(find_main_by_name(&ps, "App", exact).unwrap(), 21);
    assert_eq!(
        find_main_by_name(&ps, "AP", NameMatch::SubstringIgnoringCase).unwrap(),
        10
    );
    // A parent that is not known does not qualify.
    assert!(find_main_by_name(&[process(1, "app", None)], "app", exact).is_err());
    // Neither does a process that is its own parent.
    assert!(find_main_by_name(&[process(1, "app", Some(1))], "app", exact).is_err());
    assert!(
        matches!(find_main_by_name(&ps, "no", exact), Err(Error::ProcessNotFound(n)) if n == "no")
    );
    // Only the low half of a reported parent counts.
    assert_eq!(process(1, "a", Some(-1)).ppid, Some(u32::MAX));
    assert_eq!(process(1, "a", Some(0x1_0000_0005)).ppid, Some(5));
}

#[test]
fn reported_processes_keep_their_order() {
    let ps = processes(&[
        report(9, "b", Some(1)),
        report(2, "a", None),
        report(9, "b", Some(-1)),
    ]);
    let got: Vec<(u32, &str, Option<u32>)> =
        ps.iter().map(|p| (p.pid, p.name.as_str(), p.ppid)).collect();
    assert_eq!(
        got,
        [(9, "b", Some(1)), (2, "a", None), (9, "b", Some(u32::MAX))]
    );
    assert!(processes(&[]).is_empty());
}

#[test]
fn lookups_follow_their_kind() {
    let ps = [process(6, "app", Some(5)), process(5, "app", Some(1))];
    let lookup = |main: bool| Lookup { name: "app".into(), main };
    assert_eq!(resolve_target(&lookup(false), NameMatch::Exact, &ps).unwrap(), 6);
    assert_eq!(resolve_target(&lookup(true), NameMatch::Exact, &ps).unwrap(), 5);
}

#[test]
fn only_ascii_case_is_folded() {
    assert!(contains_ignoring_case("aZ@[`{", "Az@[`{"));
    assert!(contains_ignoring_case("xxabAB", "bab"));
    assert!(contains_ignoring_case("ab", ""));
    assert!(contains_ignoring_case("", ""));
    assert!(!contains_ignoring_case("é", "É"));
    assert!(!contains_ignoring_case("a", "ab"));
    assert!(!contains_ignoring_case("@", "`"));
    assert!(!contains_ignoring_case("abac", "ad"));
    assert_eq!(after_prefix("abc", "ab").as_deref(), Some("c"));
    assert_eq!(after_prefix("ab", "abc"), None);
    assert_eq!(after_prefix("xbc", "ab"), None);
}
