use fridge::error::Error;
use fridge::record::format::{u32_bytes, u32_value};
use fridge::record::listing::{stamped_name, DirItem, DirListing, FileMeta};
use fridge::record::reader::{
    check_magic, check_tag, check_version, BodyStep, FrameState, LenStep, ReadError, Throttle,
};
use fridge::record::writer::{append_steps, check_len, frame_steps, header_steps, WriteStep};
use fridge::record::{
    bincode_err, io_err, list_captures, read_all, read_all_with_progress, read_iter,
    timestamped_name, Writer, HEADER_LEN, MAX_FRAME_BYTES, VERSION,
};

const TEST_TAG: [u8; 4] = *b"TEST";

type TestMsg = (u64, String, Vec<u8>);

fn sample() -> TestMsg {
    (42, "hello".to_string(), vec![1, 2, 3, 4])
}

fn message(id: u64, label: &str) -> TestMsg {
    (id, label.to_string(), vec![])
}

fn encode(m: &TestMsg) -> Result<Vec<u8>, String> {
    bincode::serde::encode_to_vec(m, bincode::config::standard()).map_err(|e| e.to_string())
}

fn decode(b: &[u8]) -> Result<TestMsg, String> {
    bincode::serde::decode_from_slice(b, bincode::config::standard())
        .map(|(m, _): (TestMsg, usize)| m)
        .map_err(|e| e.to_string())
}

fn raw(b: &[u8]) -> Result<Vec<u8>, String> {
    Ok(b.to_vec())
}

fn read(bytes: &[u8], tag: [u8; 4]) -> Result<Vec<TestMsg>, Error> {
    read_all(bytes, tag, decode)
}

fn single_message() {
    let mut w = Writer::create(TEST_TAG);
    w.append(encode(&sample())).unwrap();
    let msgs = read(w.bytes(), TEST_TAG).unwrap();
    assert_eq!(msgs.len(), 1);
    assert_eq!(msgs[0], sample());
}

#[test]
fn record_round_trip_single_message() {
    single_message();
}

#[test]
fn mod_round_trip_single_message() {
    single_message();
}

fn many_messages() {
    let mut w = Writer::create(TEST_TAG);
    for _ in 0..100 {
        w.append(encode(&sample())).unwrap();
    }
    let msgs = read(w.bytes(), TEST_TAG).unwrap();
    assert_eq!(msgs.len(), 100);
}

#[test]
fn record_round_trip_many_messages() {
    many_messages();
}

#[test]
fn mod_round_trip_many_messages() {
    many_messages();
}

fn bad_magic() {
    let err = read(b"XXXX\x01\x00\x00\x00TEST", TEST_TAG).unwrap_err();
    assert!(err.message().contains("bad magic"));
}

#[test]
fn record_bad_magic_errors() {
    bad_magic();
}

#[test]
fn mod_bad_magic_errors() {
    bad_magic();
}

fn bad_version() {
    let err = read(b"FRGE\xe7\x03\x00\x00TEST", TEST_TAG).unwrap_err();
    assert!(err.message().contains("unsupported capture version 999"));
}

#[test]
fn record_bad_version_errors() {
    bad_version();
}

#[test]
fn mod_bad_version_errors() {
    bad_version();
}

fn wrong_tag() {
    let mut w = Writer::create(*b"AAAA");
    w.append(encode(&sample())).unwrap();
    let err = read(w.bytes(), *b"BBBB").unwrap_err();
    assert!(
        err.message().contains("wrong consumer tag"),
        "expected tag-mismatch error, got: {}",
        err.message()
    );
}

#[test]
fn record_wrong_tag_errors() {
    wrong_tag();
}

#[test]
fn mod_wrong_tag_errors() {
    wrong_tag();
}

fn truncated_trailing_frame() {
    let mut w = Writer::create(TEST_TAG);
    w.append(encode(&sample())).unwrap();
    let mut bytes = w.bytes().to_vec();
    bytes.extend_from_slice(&[200u8, 0, 0, 0]);
    let msgs = read(&bytes, TEST_TAG).unwrap();
    assert_eq!(
        msgs.len(),
        1,
        "partial trailing frame dropped, prior intact"
    );
}

#[test]
fn record_truncated_trailing_frame_is_tolerated() {
    truncated_trailing_frame();
}

#[test]
fn mod_truncated_trailing_frame_is_tolerated() {
    truncated_trailing_frame();
}

fn file(name: &str, ext: &str, mtime: i128) -> Result<DirItem, String> {
    Ok(DirItem {
        path: std::path::PathBuf::from("caps").join(name),
        is_file: true,
        ext: Some(ext.to_string()),
        file_name: Some(name.to_string()),
        meta: Ok(FileMeta {
            len: 0,
            modified: Some(mtime),
        }),
    })
}

fn sorted_by_mtime() {
    let listing = DirListing::Entries(vec![
        file("a.bin", "bin", 1_000_000),
        file("b.bin", "bin", 26_000_000),
    ]);
    let files = list_captures("\"caps\"", listing, "bin").unwrap();
    assert_eq!(files.len(), 2);
    assert!(files[0].mtime >= files[1].mtime);
    assert_eq!(files[0].name, "b.bin");
    assert_eq!(
        files[0].path,
        std::path::PathBuf::from("caps").join("b.bin")
    );
}

#[test]
fn record_list_captures_sorted_by_mtime_desc() {
    sorted_by_mtime();
}

#[test]
fn mod_list_captures_sorted_by_mtime_desc() {
    sorted_by_mtime();
}

fn filters_by_extension() {
    let listing = DirListing::Entries(vec![file("a.bin", "bin", 1), file("ignore.txt", "txt", 2)]);
    let files = list_captures("\"caps\"", listing, "bin").unwrap();
    assert_eq!(files.len(), 1);
    assert_eq!(files[0].name, "a.bin");
}

#[test]
fn record_list_captures_filters_by_extension() {
    filters_by_extension();
}

#[test]
fn mod_list_captures_filters_by_extension() {
    filters_by_extension();
}

fn missing_dir() {
    assert!(list_captures("\"does-not-exist\"", DirListing::Missing, "bin")
        .unwrap()
        .is_empty());
}

#[test]
fn record_list_captures_missing_dir_returns_empty() {
    missing_dir();
}

#[test]
fn mod_list_captures_missing_dir_returns_empty() {
    missing_dir();
}

fn consumer_isolation() {
    const TAG_A: [u8; 4] = *b"AAAA";
    const TAG_B: [u8; 4] = *b"BBBB";

    let mut wa = Writer::create(TAG_A);
    wa.append(encode(&message(1, "a"))).unwrap();
    let mut wb = Writer::create(TAG_B);
    wb.append(encode(&message(2, "b"))).unwrap();

    let listing = DirListing::Entries(vec![file("a.bin", "bin", 1), file("b.bin", "bin", 2)]);
    let listed = list_captures("\"caps\"", listing, "bin").unwrap();
    assert_eq!(listed.len(), 2, "both files visible to list_captures");

    let ma = read(wa.bytes(), TAG_A).unwrap();
    assert_eq!(ma.len(), 1);
    assert_eq!(ma[0].1, "a");
    let mb = read(wb.bytes(), TAG_B).unwrap();
    assert_eq!(mb[0].1, "b");

    assert!(read(wa.bytes(), TAG_B).is_err());
    assert!(read(wb.bytes(), TAG_A).is_err());
}

#[test]
fn record_consumer_isolation_round_trip() {
    consumer_isolation();
}

#[test]
fn mod_consumer_isolation_round_trip() {
    consumer_isolation();
}

#[test]
fn oversize_frame_errors_not_panics() {
    let mut bytes = Vec::new();
    bytes.extend_from_slice(b"FRGE");
    bytes.extend_from_slice(&VERSION.to_le_bytes());
    bytes.extend_from_slice(&TEST_TAG);
    bytes.extend_from_slice(&u32::MAX.to_le_bytes());
    let err = read(&bytes, TEST_TAG).unwrap_err();
    assert!(
        err.message().contains("frame too large"),
        "expected size-cap error, got: {}",
        err.message()
    );
}

fn timestamped() {
    let name = timestamped_name("cap", "bin");
    assert!(name.starts_with("cap-"), "{name}");
    assert!(name.ends_with(".bin"), "{name}");
}

#[test]
fn record_timestamped_path_uses_prefix_and_ext() {
    timestamped();
}

#[test]
fn mod_timestamped_path_uses_prefix_and_ext() {
    timestamped();
}

#[test]
fn timestamp_has_date_and_time() {
    let name = timestamped_name("cap", "bin");
    let stamp = &name[4..name.len() - 4];
    assert!(stamp.len() >= 15, "{name}");
    let (date, time) = stamp.split_at(stamp.len() - 7);
    assert!(date.chars().skip(1).all(|c| c.is_ascii_digit()), "{name}");
    assert!(time.starts_with('-'), "{name}");
    assert!(time[1..].chars().all(|c| c.is_ascii_digit()), "{name}");
    let n = stamp.len();
    let field = |from: usize| stamp[from..from + 2].parse::<u32>().unwrap();
    assert!((1..=12).contains(&field(n - 11)), "{name}");
    assert!((1..=31).contains(&field(n - 9)), "{name}");
    assert!(field(n - 6) <= 23 && field(n - 4) <= 59 && field(n - 2) <= 60, "{name}");
    assert_eq!(
        stamped_name("cap", "20260102-030405", "bin"),
        "cap-20260102-030405.bin"
    );
}

#[test]
fn capture_layout_is_exact() {
    let mut w = Writer::create(*b"WCTI");
    assert_eq!(w.bytes(), b"FRGE\x01\x00\x00\x00WCTI");
    w.append(Ok(vec![9, 8, 7])).unwrap();
    assert_eq!(w.bytes(), b"FRGE\x01\x00\x00\x00WCTI\x03\x00\x00\x00\x09\x08\x07");
}

#[test]
fn failed_encoding_leaves_the_capture_alone() {
    let mut w = Writer::create(TEST_TAG);
    let err = w.append(Err("no such luck".to_string())).unwrap_err();
    assert!(matches!(err, Error::Record(ref m) if m == "encode: no such luck"));
    assert_eq!(w.bytes().len(), 12);
}

#[test]
fn header_faults_are_told_apart() {
    let text = |bytes: &[u8]| match read(bytes, TEST_TAG) {
        Err(Error::Record(m)) => m,
        other => panic!("{other:?}"),
    };
    assert_eq!(text(b""), "read magic: failed to fill whole buffer");
    assert_eq!(text(b"FRG"), "read magic: failed to fill whole buffer");
    assert_eq!(
        text(b"XXXX"),
        "not a fridge capture (bad magic [88, 88, 88, 88])"
    );
    assert_eq!(text(b"FRGE\x01"), "read version: failed to fill whole buffer");
    assert_eq!(
        text(b"FRGE\x02\x00\x00\x00"),
        "unsupported capture version 2 (this build expects 1)"
    );
    assert_eq!(
        text(b"FRGE\x01\x00\x00\x00TES"),
        "read tag: failed to fill whole buffer"
    );
    assert_eq!(
        text(b"FRGE\x01\x00\x00\x00\x00\x01\x0a\xff"),
        "wrong consumer tag: file has [0, 1, 10, 255], reader expected [84, 69, 83, 84]"
    );
}

#[test]
fn failed_header_reads_keep_their_reason() {
    let broken = || {
        Err(ReadError {
            eof: false,
            text: "disk on fire".to_string(),
        })
    };
    let text = |r: Result<(), Error>| match r {
        Err(Error::Record(m)) => m,
        other => panic!("{other:?}"),
    };
    assert_eq!(text(check_magic(broken())), "read magic: disk on fire");
    assert_eq!(text(check_version(broken())), "read version: disk on fire");
    assert_eq!(text(check_tag(broken(), TEST_TAG)), "read tag: disk on fire");
    assert!(check_magic(Ok(*b"FRGE")).is_ok());
    assert!(check_version(Ok([1, 0, 0, 0])).is_ok());
    assert!(check_tag(Ok(TEST_TAG), TEST_TAG).is_ok());
}

#[test]
fn cut_anywhere_keeps_whole_entries() {
    let bodies: Vec<Vec<u8>> = vec![vec![1], vec![], vec![2, 3, 4], vec![5, 6]];
    let mut w = Writer::create(TEST_TAG);
    let mut ends = vec![12];
    for b in &bodies {
        w.append(Ok(b.clone())).unwrap();
        ends.push(w.bytes().len());
    }
    for cut in 12..=w.bytes().len() {
        let whole = ends.iter().filter(|&&e| e <= cut).count() - 1;
        let got = read_all(&w.bytes()[..cut], TEST_TAG, raw).unwrap();
        assert_eq!(got, bodies[..whole].to_vec(), "cut at {cut}");
    }
    for cut in 0..12 {
        assert!(read_all(&w.bytes()[..cut], TEST_TAG, raw).is_err());
    }
}

#[test]
fn entries_up_to_the_cap_are_read() {
    let mut w = Writer::create(TEST_TAG);
    w.append(Ok(vec![7; MAX_FRAME_BYTES])).unwrap();
    let got = read_all(w.bytes(), TEST_TAG, raw).unwrap();
    assert_eq!(got.len(), 1);
    assert_eq!(got[0].len(), 16 * 1024 * 1024);

    w.append(Ok(vec![7; MAX_FRAME_BYTES + 1])).unwrap();
    match read_all(w.bytes(), TEST_TAG, raw) {
        Err(Error::Record(m)) => assert_eq!(
            m,
            "frame too large: 16777217 bytes (cap 16777216); file likely corrupt"
        ),
        other => panic!("{:?}", other.map(|v| v.len())),
    }
}

#[test]
fn entries_before_a_bad_one_come_first() {
    let mut w = Writer::create(TEST_TAG);
    w.append(encode(&sample())).unwrap();
    w.append(Ok(vec![5])).unwrap();
    w.append(encode(&sample())).unwrap();
    let mut it = read_iter(w.bytes(), TEST_TAG).unwrap();
    assert_eq!(it.bytes_read(), HEADER_LEN);
    assert_eq!(it.next(&decode).unwrap().unwrap(), sample());
    let after_first = it.bytes_read();
    assert_eq!(after_first, 12 + 4 + encode(&sample()).unwrap().len() as u64);
    match it.next(&decode) {
        Some(Err(Error::Record(m))) => {
            assert_eq!(m, "decode at frame#1: UnexpectedEnd { additional: 1 }")
        }
        other => panic!("{other:?}"),
    }
    assert_eq!(it.bytes_read(), after_first);
    assert!(it.next(&decode).is_none());
    assert!(it.next(&decode).is_none());
    assert!(read(w.bytes(), TEST_TAG).is_err());
}

#[test]
fn reading_over_stays_over() {
    let w = Writer::create(TEST_TAG);
    let mut it = read_iter(w.bytes(), TEST_TAG).unwrap();
    assert!(it.next(&raw).is_none());
    assert!(it.next(&raw).is_none());
}

#[test]
fn progress_is_reported_in_steps() {
    let mut w = Writer::create(TEST_TAG);
    for _ in 0..5 {
        w.append(Ok(vec![0; 40_000])).unwrap();
    }
    let mut ticks = Vec::new();
    let total = w.bytes().len() as u64;
    let got = read_all_with_progress(w.bytes(), TEST_TAG, total, raw, &mut ticks).unwrap();
    assert_eq!(got.len(), 5);
    let f = 40_004;
    assert_eq!(
        ticks,
        vec![
            (12, total),
            (12 + 2 * f, total),
            (12 + 4 * f, total),
            (12 + 5 * f, total)
        ]
    );
    assert_eq!(total, 12 + 5 * f);
}

#[test]
fn progress_ends_with_a_failure() {
    let mut w = Writer::create(TEST_TAG);
    w.append(Ok(vec![0; 70_000])).unwrap();
    let mut bytes = w.bytes().to_vec();
    bytes.extend_from_slice(&u32::MAX.to_le_bytes());
    let mut ticks = Vec::new();
    assert!(read_all_with_progress(&bytes, TEST_TAG, 99, raw, &mut ticks).is_err());
    assert_eq!(ticks, vec![(12, 99), (70_016, 99)]);

    ticks.clear();
    assert!(read_all_with_progress(&bytes, *b"ELSE", 99, raw, &mut ticks).is_err());
    assert!(ticks.is_empty());
}

#[test]
fn progress_does_not_change_what_is_read() {
    let mut w = Writer::create(TEST_TAG);
    for i in 0..3 {
        w.append(encode(&message(i, "m"))).unwrap();
    }
    let good = w.bytes().to_vec();
    let mut torn = good.clone();
    torn.push(9);
    let mut huge = good.clone();
    huge.extend_from_slice(&u32::MAX.to_le_bytes());
    w.append(Ok(vec![5])).unwrap();
    let odd = w.bytes().to_vec();
    for bytes in [&good, &torn, &huge, &odd, &good[..5].to_vec()] {
        let mut ticks = Vec::new();
        let a = read(bytes, TEST_TAG);
        let b = read_all_with_progress(bytes, TEST_TAG, 1, decode, &mut ticks);
        assert_eq!(a.map_err(|e| e.message()), b.map_err(|e| e.message()));
    }
}

#[test]
fn throttle_counts_from_the_last_report() {
    let mut t = Throttle::start(12);
    assert!(!t.due(12));
    assert!(!t.due(65_547));
    assert!(t.due(65_548));
    assert!(!t.due(131_083));
    assert!(t.due(131_084));
}

#[test]
fn frame_state_follows_what_reads_give() {
    let fail = |eof: bool| ReadError {
        eof,
        text: "gone".to_string(),
    };

    let mut s = FrameState::start();
    assert!(matches!(s.on_len(Ok([5, 0, 0, 0])), LenStep::Body(5)));
    assert!(matches!(s.on_body(Ok(())), BodyStep::Decode));
    assert_eq!(s.on_decoded(5, Ok("m")).unwrap(), "m");
    assert_eq!((s.bytes_read, s.frame_idx, s.done), (21, 1, false));

    let mut a = s;
    assert!(matches!(a.on_len(Err(fail(true))), LenStep::Stop(None)));
    assert!(a.done);

    let mut b = s;
    match b.on_len(Err(fail(false))) {
        LenStep::Stop(Some(Error::Record(m))) => assert_eq!(m, "read len: gone"),
        other => panic!("{other:?}"),
    }
    assert!(b.done);

    let mut c = s;
    assert!(matches!(c.on_body(Err(fail(true))), BodyStep::Stop(None)));
    assert!(c.done);

    let mut d = s;
    match d.on_body(Err(fail(false))) {
        BodyStep::Stop(Some(Error::Record(m))) => assert_eq!(m, "read body: gone"),
        other => panic!("{other:?}"),
    }
    assert!(d.done);

    let mut e = s;
    match e.on_decoded::<()>(3, Err("what".to_string())) {
        Err(Error::Record(m)) => assert_eq!(m, "decode at frame#1: what"),
        other => panic!("{other:?}"),
    }
    assert_eq!((e.bytes_read, e.frame_idx, e.done), (21, 1, true));
}

#[test]
fn write_steps_are_named_and_flushed() {
    let steps = header_steps(TEST_TAG);
    let mut bytes = Vec::new();
    let mut names = Vec::new();
    for s in &steps {
        match s.failed("full") {
            Error::Record(m) => names.push(m),
            other => panic!("{other:?}"),
        }
        if let WriteStep::Put { bytes: b, .. } = s {
            bytes.extend_from_slice(b);
        }
    }
    assert_eq!(bytes, b"FRGE\x01\x00\x00\x00TEST");
    assert!(matches!(&steps[0], WriteStep::Put { bytes, .. } if bytes == b"FRGE"));
    assert!(matches!(&steps[1], WriteStep::Put { bytes, .. } if *bytes == [1, 0, 0, 0]));
    assert!(matches!(&steps[2], WriteStep::Put { bytes, .. } if bytes == b"TEST"));
    assert_eq!(
        names,
        vec![
            "write magic: full",
            "write version: full",
            "write tag: full",
            "flush header: full"
        ]
    );

    let steps = frame_steps(vec![1, 2]);
    assert_eq!(steps.len(), 3);
    assert!(matches!(&steps[0], WriteStep::Put { ctx: "write len", bytes } if *bytes == [2, 0, 0, 0]));
    assert!(matches!(&steps[1], WriteStep::Put { ctx: "write body", bytes } if *bytes == [1, 2]));
    assert!(matches!(&steps[2], WriteStep::Flush { ctx: "flush entry" }));
}

#[test]
fn lengths_have_to_fit_their_prefix() {
    assert!(check_len(0).is_ok());
    assert!(check_len(u32::MAX as usize).is_ok());
    match check_len(u32::MAX as usize + 1) {
        Err(Error::Record(m)) => assert_eq!(
            m,
            "entry too long: 4294967296 bytes (the length prefix holds up to 4294967295)"
        ),
        other => panic!("{other:?}"),
    }
    assert_eq!(append_steps(Ok(vec![1])).unwrap().len(), 3);
    assert!(
        matches!(append_steps(Err("odd".into())), Err(Error::Record(m)) if m == "encode: odd")
    );
}

#[test]
fn integers_are_little_endian() {
    assert_eq!(u32_bytes(0x0102_0304), [4, 3, 2, 1]);
    assert_eq!(u32_value(&[4, 3, 2, 1]), 0x0102_0304);
    assert_eq!(u32_value(&u32_bytes(u32::MAX)), u32::MAX);
}

#[test]
fn contexts_come_before_errors() {
    assert!(matches!(io_err("open x", "denied"), Error::Record(ref m) if m == "open x: denied"));
    assert!(matches!(bincode_err("encode", "odd"), Error::Record(ref m) if m == "encode: odd"));
}

#[test]
fn listing_keeps_the_order_of_equal_times() {
    let listing = DirListing::Entries(vec![
        file("old.bin", "bin", -5),
        file("x.bin", "bin", 3),
        file("y.bin", "bin", 3),
        file("new.bin", "bin", 9),
        file("z.bin", "bin", 3),
    ]);
    let files = list_captures("\"caps\"", listing, "bin").unwrap();
    let names: Vec<&str> = files.iter().map(|f| f.name.as_str()).collect();
    assert_eq!(names, ["new.bin", "x.bin", "y.bin", "z.bin", "old.bin"]);
}

#[test]
fn listing_skips_and_defaults() {
    let mut dir = file("d.bin", "bin", 1).unwrap();
    dir.is_file = false;
    dir.meta = Err("never asked".to_string());
    let mut bare = file("bare", "", 1).unwrap();
    bare.ext = None;
    let mut odd = file("odd", "bin", 1).unwrap();
    odd.file_name = None;
    odd.meta = Ok(FileMeta {
        len: 77,
        modified: None,
    });
    let listing = DirListing::Entries(vec![Ok(dir), Ok(bare), Ok(odd)]);
    let files = list_captures("\"caps\"", listing, "bin").unwrap();
    assert_eq!(files.len(), 1);
    assert_eq!((files[0].name.as_str(), files[0].size, files[0].mtime), ("", 77, 0));
}

#[test]
fn listing_errors_are_told_apart() {
    let text = |l: DirListing| match list_captures("\"caps\"", l, "bin") {
        Err(Error::Record(m)) => m,
        other => panic!("{other:?}"),
    };
    assert_eq!(
        text(DirListing::Unreadable("denied".to_string())),
        "readdir \"caps\": denied"
    );
    assert_eq!(
        text(DirListing::Entries(vec![
            file("a.bin", "bin", 1),
            Err("torn".to_string())
        ])),
        "dirent: torn"
    );
    let mut bad = file("a.bin", "bin", 1).unwrap();
    bad.meta = Err("gone".to_string());
    assert_eq!(
        text(DirListing::Entries(vec![Ok(bad), Err("torn".to_string())])),
        "stat: gone"
    );
}
