use dua::inodes::{FileId, InodeFilter};
use dua::scan::Scan;
use dua::walk::{Entry, Metadata, RootEvent, RootInput, WalkOptions, WalkResult};

fn options() -> WalkOptions {
    WalkOptions {
        threads: 1,
        count_hard_links: false,
        cross_filesystems: false,
        ignore_patterns: false,
    }
}

fn input(path: &str, device: u64) -> RootInput {
    RootInput { path: path.to_string(), device: Ok(device) }
}

fn file_on(path: &str, depth: usize, len: u64, file: u64, device_id: u64) -> RootEvent {
    RootEvent::Entry(Ok(Entry {
        path: path.to_string(),
        depth,
        is_dir: false,
        metadata: Some(Ok(Metadata {
            len,
            size_on_disk: Some(len * 10),
            id: FileId { volume: device_id, file },
            device_id,
        })),
    }))
}

fn file(path: &str, depth: usize, len: u64, number: u64) -> RootEvent {
    file_on(path, depth, len, number, 7)
}

fn directory(path: &str, depth: usize) -> RootEvent {
    RootEvent::Entry(Ok(Entry {
        path: path.to_string(),
        depth,
        is_dir: true,
        metadata: Some(Ok(Metadata {
            len: 64,
            size_on_disk: Some(512),
            id: FileId { volume: 7, file: 1 },
            device_id: 7,
        })),
    }))
}

fn unreadable(path: &str, depth: usize, is_dir: bool) -> RootEvent {
    RootEvent::Entry(Ok(Entry {
        path: path.to_string(),
        depth,
        is_dir,
        metadata: Some(Err("gone".to_string())),
    }))
}

fn failure(message: &str) -> RootEvent {
    RootEvent::Entry(Err(message.to_string()))
}

fn scan_of(options: WalkOptions, roots: &[&str]) -> Scan {
    let (mut scan, _) = Scan::begin("1", options, roots.len());
    for root in roots {
        assert!(scan.add_root(input(root, 7)).is_some());
    }
    scan
}

/// A scan of one root that has turned up.
fn begun(root: &str) -> Scan {
    let mut scan = scan_of(options(), &[root]);
    assert_eq!(scan.observe(0, directory(root, 0)).len(), 1);
    scan
}

fn only(lines: Vec<String>) -> String {
    assert_eq!(lines.len(), 1);
    lines.into_iter().next().unwrap()
}

fn sizes(lines: Vec<String>) -> String {
    let line = only(lines);
    line[line.find("\"len\"").unwrap()..].to_string()
}

#[test]
fn a_scan_begins_with_hello() {
    let mut walked = options();
    walked.threads = 3;
    let (_, line) = Scan::begin("2.0\t", walked, 5);
    assert_eq!(
        line,
        "{\"protocol\":1,\"type\":\"hello\",\"version\":\"2.0\\t\",\"threads\":3,\"roots\":5,\
         \"order\":\"parent-first\"}"
    );
}

#[test]
fn roots_carry_their_position_and_device() {
    let (mut scan, _) = Scan::begin("1", options(), 3);
    let first = scan.add_root(input("a", 7)).unwrap();
    let skipped = scan.add_root(RootInput { path: "b/c".into(), device: Err("lost".into()) });
    let last = scan.add_root(input("d", 9)).unwrap();
    assert_eq!((first.index, first.path.as_str(), first.device_id), (0, "a", 7));
    assert_eq!(first.pattern_root, None);
    assert!(skipped.is_none());
    assert_eq!((last.index, last.path.as_str(), last.device_id), (2, "d", 9));
    let (closing, result) = scan.finish();
    assert_eq!(
        closing[0],
        "{\"protocol\":1,\"type\":\"error\",\"root\":\"b/c\",\"parent\":\"b\",\"path\":\"b/c\",\
         \"kind\":\"root\",\"message\":\"lost\"}"
    );
    assert_eq!(closing.len(), 3);
    assert_eq!(result, WalkResult { num_errors: 1 });
}

#[test]
fn errors_wait_for_the_first_entry() {
    let (mut scan, _) = Scan::begin("1", options(), 2);
    assert!(scan.add_root(RootInput { path: "x".into(), device: Err("lost".into()) }).is_none());
    assert!(scan.add_root(input("a", 7)).is_some());
    assert!(scan.observe(0, failure("one")).is_empty());
    assert!(scan.observe(0, RootEvent::Finished).is_empty());
    assert!(scan.observe(0, unreadable("a/b", 1, false)).is_empty());
    let due = scan.observe(0, file("a/c", 1, 5, 2));
    assert_eq!(due.len(), 4);
    assert!(due[0].contains("\"type\":\"entry\",\"path\":\"a/c\""));
    assert!(due[1].contains("\"message\":\"lost\""));
    assert!(due[2].contains("\"message\":\"one\""));
    assert!(due[3].contains("\"message\":\"gone\""));
    assert!(only(scan.observe(0, failure("two"))).contains("\"message\":\"two\""));
    let (closing, result) = scan.finish();
    assert_eq!(closing.len(), 2);
    assert_eq!(result.num_errors, 4);
}

#[test]
fn patterns_are_relative_to_the_root() {
    let mut with_patterns = options();
    with_patterns.ignore_patterns = true;
    let (mut scan, _) = Scan::begin("1", with_patterns, 1);
    let root = scan.add_root(input("a/b", 7)).unwrap();
    assert_eq!(root.pattern_root.as_deref(), Some("a/b"));
}

#[test]
fn devices_do_not_matter_when_crossing_file_systems() {
    let mut crossing = options();
    crossing.cross_filesystems = true;
    let (mut scan, _) = Scan::begin("1", crossing, 1);
    let root = scan
        .add_root(RootInput { path: "a".into(), device: Err("lost".into()) })
        .unwrap();
    assert_eq!(root.device_id, 0);
    assert_eq!(sizes(scan.observe(0, file_on("a/f", 1, 3, 2, 99))), "\"len\":3,\"allocated\":30}");
    assert_eq!(scan.finish().1.num_errors, 0);
}

#[test]
fn entries_have_their_line() {
    let mut scan = scan_of(options(), &["a"]);
    assert_eq!(
        only(scan.observe(0, directory("a", 0))),
        "{\"protocol\":1,\"type\":\"entry\",\"path\":\"a\",\"depth\":0,\"kind\":\"dir\",\
         \"len\":64,\"allocated\":0}"
    );
    assert_eq!(
        only(scan.observe(0, file("a/f", 1, 5, 2))),
        "{\"protocol\":1,\"type\":\"entry\",\"path\":\"a/f\",\"depth\":1,\"kind\":\"file\",\
         \"len\":5,\"allocated\":50}"
    );
    assert!(scan.observe(0, RootEvent::Finished).is_empty());
    let (closing, _) = scan.finish();
    assert_eq!(
        closing[0],
        "{\"protocol\":1,\"type\":\"summary\",\"entries\":2,\"errors\":0,\"dirs\":1,\"files\":1,\
         \"apparentBytes\":69,\"allocatedBytes\":50}"
    );
    assert_eq!(
        closing[1],
        "{\"protocol\":1,\"type\":\"done\",\"exitCode\":0,\"ok\":true,\"reason\":\"completed\"}"
    );
}

#[test]
fn later_links_count_nothing() {
    let mut scan = scan_of(options(), &["a", "b"]);
    assert_eq!(sizes(scan.observe(0, file("a/x", 1, 5, 2))), "\"len\":5,\"allocated\":50}");
    assert_eq!(sizes(scan.observe(0, file("a/y", 1, 5, 2))), "\"len\":0,\"allocated\":0}");
    assert_eq!(sizes(scan.observe(1, file("b/x", 1, 5, 2))), "\"len\":0,\"allocated\":0}");
    assert_eq!(sizes(scan.observe(0, file("a/z", 1, 5, 3))), "\"len\":5,\"allocated\":50}");
}

#[test]
fn directories_with_one_identity_all_count() {
    let mut scan = scan_of(options(), &["a"]);
    assert_eq!(sizes(scan.observe(0, directory("a", 0))), "\"len\":64,\"allocated\":0}");
    assert_eq!(sizes(scan.observe(0, directory("a/b", 1))), "\"len\":64,\"allocated\":0}");
    assert_eq!(sizes(scan.observe(0, file("a/c", 1, 5, 1))), "\"len\":5,\"allocated\":50}");
}

#[test]
fn every_link_counts_when_told_so() {
    let mut counting = options();
    counting.count_hard_links = true;
    let mut scan = scan_of(counting, &["a"]);
    for _ in 0..3 {
        assert_eq!(sizes(scan.observe(0, file("a/x", 1, 5, 2))), "\"len\":5,\"allocated\":50}");
    }
    assert_eq!(sizes(scan.observe(0, file_on("a/m", 1, 5, 2, 9))), "\"len\":5,\"allocated\":50}");
}

#[test]
fn other_devices_count_nothing() {
    let mut scan = scan_of(options(), &["a"]);
    assert_eq!(sizes(scan.observe(0, file_on("a/m", 1, 5, 2, 9))), "\"len\":0,\"allocated\":0}");
}

#[test]
fn a_link_observed_on_another_device_is_observed() {
    let (mut scan, _) = Scan::begin("1", options(), 2);
    assert!(scan.add_root(input("a", 7)).is_some());
    assert!(scan.add_root(input("b", 9)).is_some());
    assert_eq!(sizes(scan.observe(0, file_on("a/m", 1, 5, 2, 9))), "\"len\":0,\"allocated\":0}");
    assert_eq!(sizes(scan.observe(1, file_on("b/m", 1, 5, 2, 9))), "\"len\":0,\"allocated\":0}");
    assert_eq!(sizes(scan.observe(1, file_on("b/n", 1, 5, 3, 9))), "\"len\":5,\"allocated\":50}");
}

#[test]
fn an_unknown_root_is_on_device_zero() {
    let mut scan = scan_of(options(), &["a"]);
    assert_eq!(sizes(scan.observe(4, file_on("x", 1, 5, 2, 0))), "\"len\":5,\"allocated\":50}");
    assert_eq!(sizes(scan.observe(4, file_on("y", 1, 5, 3, 7))), "\"len\":0,\"allocated\":0}");
}

#[test]
fn unknown_sizes_on_disk_count_nothing() {
    let mut scan = scan_of(options(), &["a"]);
    let line = scan.observe(
        0,
        RootEvent::Entry(Ok(Entry {
            path: "a/f".into(),
            depth: 1,
            is_dir: false,
            metadata: Some(Ok(Metadata {
                len: 5,
                size_on_disk: None,
                id: FileId { volume: 7, file: 2 },
                device_id: 7,
            })),
        })),
    );
    assert_eq!(sizes(line), "\"len\":5,\"allocated\":0}");
}

#[test]
fn metadata_errors_name_the_entry_and_are_no_entries() {
    let mut scan = begun("a");
    assert_eq!(
        only(scan.observe(0, unreadable("a/b/c", 2, false))),
        "{\"protocol\":1,\"type\":\"error\",\"root\":\"a\",\"parent\":\"a/b\",\
         \"path\":\"a/b/c\",\"kind\":\"metadata\",\"message\":\"gone\"}"
    );
    assert_eq!(scan.observe(0, unreadable("a/d", 1, true)).len(), 1);
    let (closing, result) = scan.finish();
    assert_eq!(result.num_errors, 2);
    assert_eq!(
        closing,
        [
            "{\"protocol\":1,\"type\":\"summary\",\"entries\":1,\"errors\":2,\"dirs\":1,\
             \"files\":0,\"apparentBytes\":64,\"allocatedBytes\":0}",
            "{\"protocol\":1,\"type\":\"done\",\"exitCode\":1,\"ok\":false,\
             \"reason\":\"partial\"}",
        ]
    );
}

#[test]
fn entries_without_metadata_have_no_size() {
    let mut scan = scan_of(options(), &["a"]);
    let due = scan.observe(
        0,
        RootEvent::Entry(Ok(Entry {
            path: "a".into(),
            depth: 0,
            is_dir: true,
            metadata: None,
        })),
    );
    assert_eq!(
        only(due),
        "{\"protocol\":1,\"type\":\"entry\",\"path\":\"a\",\"depth\":0,\"kind\":\"dir\",\
         \"len\":0,\"allocated\":0}"
    );
    assert_eq!(
        scan.finish().0[0],
        "{\"protocol\":1,\"type\":\"summary\",\"entries\":1,\"errors\":0,\"dirs\":1,\"files\":0,\
         \"apparentBytes\":0,\"allocatedBytes\":0}"
    );
}

#[test]
fn errors_before_the_root_turned_up_are_the_roots_own() {
    let mut scan = scan_of(options(), &["x/a", "b"]);
    assert_eq!(scan.observe(1, directory("b", 0)).len(), 1);
    assert_eq!(scan.observe(0, file("x/a/f", 1, 1, 2)).len(), 1);
    assert_eq!(
        only(scan.observe(0, failure("denied"))),
        "{\"protocol\":1,\"type\":\"error\",\"root\":\"x/a\",\"parent\":\"x\",\"path\":\"x/a\",\
         \"kind\":\"root\",\"message\":\"denied\"}"
    );
}

#[test]
fn errors_after_the_root_turned_up_name_the_root_only() {
    let mut scan = begun("a");
    assert_eq!(
        only(scan.observe(0, failure("denied"))),
        "{\"protocol\":1,\"type\":\"error\",\"root\":\"a\",\"parent\":null,\"path\":null,\
         \"kind\":\"read\",\"message\":\"denied\"}"
    );
}

#[test]
fn a_root_without_metadata_has_turned_up() {
    let mut scan = scan_of(options(), &["a"]);
    assert!(scan.observe(0, unreadable("a", 0, true)).is_empty());
    assert!(scan.observe(0, failure("denied")).is_empty());
    let (closing, _) = scan.finish();
    assert!(closing[0].contains("\"path\":\"a\",\"kind\":\"metadata\""));
    assert!(closing[1].contains("\"path\":null,\"kind\":\"read\""));
}

#[test]
fn errors_of_unknown_roots_name_nothing() {
    let mut scan = begun("a");
    assert_eq!(
        only(scan.observe(1, failure("denied"))),
        "{\"protocol\":1,\"type\":\"error\",\"root\":null,\"parent\":null,\"path\":null,\
         \"kind\":\"read\",\"message\":\"denied\"}"
    );
}

#[test]
fn sizes_saturate() {
    let mut scan = scan_of(options(), &["a"]);
    for number in 0..3 {
        let due = scan.observe(
            0,
            RootEvent::Entry(Ok(Entry {
                path: "a/f".into(),
                depth: 1,
                is_dir: false,
                metadata: Some(Ok(Metadata {
                    len: u64::MAX / 2 + 1,
                    size_on_disk: Some(1),
                    id: FileId { volume: 7, file: number },
                    device_id: 7,
                })),
            })),
        );
        assert_eq!(due.len(), 1);
    }
    assert!(scan.has_room());
    assert_eq!(
        scan.finish().0[0],
        "{\"protocol\":1,\"type\":\"summary\",\"entries\":3,\"errors\":0,\"dirs\":0,\"files\":3,\
         \"apparentBytes\":18446744073709551615,\"allocatedBytes\":3}"
    );
}

#[test]
fn identities_are_told_apart_by_volume_and_file() {
    let mut filter = InodeFilter::default();
    let ids = [(0, 0), (0, 1), (1, 0), (1, 1), (u64::MAX, 0), (0, u64::MAX), (u64::MAX, u64::MAX)];
    for (volume, file) in ids {
        assert!(filter.add(true, FileId { volume, file }));
        assert!(filter.add(false, FileId { volume, file }));
    }
    for (volume, file) in ids {
        assert!(!filter.add(false, FileId { volume, file }));
        assert!(filter.add(true, FileId { volume, file }));
    }
}
