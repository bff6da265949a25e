use dua::aggregate::aggregate_jsonl;
use dua::inodes::FileId;
use dua::output::{write_flushed, Fault, Output, Stage, StreamError};
use dua::scan::Scan;
use dua::walk::{Entry, Metadata, RootEvent, RootInput, WalkEvent, WalkOptions, WalkResult};

fn options() -> WalkOptions {
    WalkOptions {
        threads: 2,
        count_hard_links: false,
        cross_filesystems: false,
        ignore_patterns: false,
    }
}

fn inputs() -> Vec<RootInput> {
    vec![
        RootInput { path: "a".into(), device: Ok(7) },
        RootInput { path: "lost".into(), device: Err("no such\nfile".into()) },
        RootInput { path: "b".into(), device: Ok(7) },
    ]
}

fn entry(root: usize, path: &str, depth: usize, is_dir: bool, file: u64) -> WalkEvent {
    WalkEvent {
        root,
        event: RootEvent::Entry(Ok(Entry {
            path: path.into(),
            depth,
            is_dir,
            metadata: Some(Ok(Metadata {
                len: 100,
                size_on_disk: Some(512),
                id: FileId { volume: 7, file },
                device_id: 7,
            })),
        })),
    }
}

fn events() -> Vec<WalkEvent> {
    vec![
        entry(0, "a", 0, true, 1),
        entry(0, "a/x", 1, false, 2),
        WalkEvent {
            root: 0,
            event: RootEvent::Entry(Ok(Entry {
                path: "a/y".into(),
                depth: 1,
                is_dir: false,
                metadata: Some(Err("gone".into())),
            })),
        },
        WalkEvent { root: 0, event: RootEvent::Entry(Err("denied".into())) },
        WalkEvent { root: 0, event: RootEvent::Finished },
        entry(1, "b", 0, false, 2),
        WalkEvent { root: 1, event: RootEvent::Finished },
    ]
}

const STREAM: [&str; 9] = [
    "{\"protocol\":1,\"type\":\"hello\",\"version\":\"1.2.3\",\"threads\":2,\"roots\":3,\"order\":\"parent-first\"}",
    "{\"protocol\":1,\"type\":\"entry\",\"path\":\"a\",\"depth\":0,\"kind\":\"dir\",\"len\":100,\"allocated\":0}",
    "{\"protocol\":1,\"type\":\"error\",\"root\":\"lost\",\"parent\":\"\",\"path\":\"lost\",\"kind\":\"root\",\"message\":\"no such\\nfile\"}",
    "{\"protocol\":1,\"type\":\"entry\",\"path\":\"a/x\",\"depth\":1,\"kind\":\"file\",\"len\":100,\"allocated\":512}",
    "{\"protocol\":1,\"type\":\"error\",\"root\":\"a\",\"parent\":\"a\",\"path\":\"a/y\",\"kind\":\"metadata\",\"message\":\"gone\"}",
    "{\"protocol\":1,\"type\":\"error\",\"root\":\"a\",\"parent\":null,\"path\":null,\"kind\":\"read\",\"message\":\"denied\"}",
    "{\"protocol\":1,\"type\":\"entry\",\"path\":\"b\",\"depth\":0,\"kind\":\"file\",\"len\":0,\"allocated\":0}",
    "{\"protocol\":1,\"type\":\"summary\",\"entries\":3,\"errors\":3,\"dirs\":1,\"files\":2,\"apparentBytes\":200,\"allocatedBytes\":512}",
    "{\"protocol\":1,\"type\":\"done\",\"exitCode\":1,\"ok\":false,\"reason\":\"partial\"}",
];

fn lines(out: &Output) -> Vec<String> {
    (0..out.len()).map(|i| out.line(i).to_string()).collect()
}

fn fault(after: usize, stage: Stage, partial: usize) -> Option<Fault> {
    Some(Fault { after, partial, error: StreamError { stage, cause: "broken pipe".into() } })
}

fn framed(lines: &[&str]) -> String {
    lines.iter().map(|line| format!("{line}\n")).collect()
}

fn accepted(out: &Output) -> String {
    String::from_utf8(out.accepted().clone()).unwrap()
}

#[test]
fn a_whole_scan() {
    let mut out = Output::new(vec![], None);
    let result = aggregate_jsonl(&mut out, "1.2.3", options(), inputs(), events());
    assert_eq!(result.unwrap(), WalkResult { num_errors: 3 });
    assert_eq!(lines(&out), STREAM);
}

#[test]
fn the_stream_splits_into_its_lines() {
    let mut out = Output::new(vec![], None);
    aggregate_jsonl(&mut out, "1.2.3", options(), inputs(), events()).unwrap();
    let text = accepted(&out);
    assert!(text.ends_with('\n'));
    assert_eq!(text.lines().collect::<Vec<_>>(), STREAM);
    assert_eq!(text, framed(&STREAM));
}

#[test]
fn kinds_of_events_first_appear_in_order() {
    let mut out = Output::new(vec![], None);
    aggregate_jsonl(&mut out, "1.2.3", options(), inputs(), events()).unwrap();
    let first = |kind: &str| {
        let wanted = format!("\"type\":\"{kind}\"");
        lines(&out).iter().position(|line| line.contains(&wanted)).unwrap()
    };
    assert_eq!(first("hello"), 0);
    assert!(first("hello") < first("entry"));
    assert!(first("entry") < first("error"));
    assert!(first("error") < first("summary"));
    assert!(first("summary") < first("done"));
}

#[test]
fn errors_come_out_at_the_end_of_a_walk_without_entries() {
    let mut out = Output::new(vec![], None);
    let walked = vec![
        WalkEvent { root: 1, event: RootEvent::Entry(Err("denied".into())) },
        WalkEvent { root: 1, event: RootEvent::Finished },
    ];
    let result = aggregate_jsonl(&mut out, "1.2.3", options(), inputs(), walked);
    assert_eq!(result.unwrap().num_errors, 2);
    assert_eq!(
        lines(&out),
        [
            STREAM[0],
            STREAM[2],
            "{\"protocol\":1,\"type\":\"error\",\"root\":\"b\",\"parent\":\"\",\"path\":\"b\",\"kind\":\"root\",\"message\":\"denied\"}",
            "{\"protocol\":1,\"type\":\"summary\",\"entries\":0,\"errors\":2,\"dirs\":0,\"files\":0,\"apparentBytes\":0,\"allocatedBytes\":0}",
            STREAM[8],
        ]
    );
}

#[test]
fn all_errors_ahead_of_the_first_entry_follow_it() {
    let mut out = Output::new(vec![], None);
    let mut walked = vec![WalkEvent { root: 1, event: RootEvent::Entry(Err("denied".into())) }];
    walked.extend(events());
    aggregate_jsonl(&mut out, "1.2.3", options(), inputs(), walked).unwrap();
    let lines = lines(&out);
    assert_eq!(lines[..3], STREAM[..3]);
    assert!(lines[3].contains("\"root\":\"b\"") && lines[3].contains("denied"));
    assert_eq!(lines[4..8], STREAM[3..7]);
}

#[test]
fn a_scan_of_nothing() {
    let mut out = Output::new(vec![], None);
    let result = aggregate_jsonl(&mut out, "1", options(), vec![], vec![]);
    assert_eq!(result.unwrap().num_errors, 0);
    assert_eq!(
        lines(&out),
        [
            "{\"protocol\":1,\"type\":\"hello\",\"version\":\"1\",\"threads\":2,\"roots\":0,\"order\":\"parent-first\"}",
            "{\"protocol\":1,\"type\":\"summary\",\"entries\":0,\"errors\":0,\"dirs\":0,\"files\":0,\"apparentBytes\":0,\"allocatedBytes\":0}",
            "{\"protocol\":1,\"type\":\"done\",\"exitCode\":0,\"ok\":true,\"reason\":\"completed\"}",
        ]
    );
}

#[test]
fn the_stream_stops_at_the_first_failure() {
    for stage in [Stage::Write, Stage::Flush] {
        for after in 0..STREAM.len() {
            let mut out = Output::new(vec![], fault(after, stage, 0));
            let error = aggregate_jsonl(&mut out, "1.2.3", options(), inputs(), events())
                .unwrap_err();
            assert_eq!(error.stage, stage);
            assert_eq!(error.cause, "broken pipe");
            assert_eq!(lines(&out), STREAM[..after]);
        }
    }
}

#[test]
fn a_line_whose_flush_fails_has_been_accepted() {
    for after in 0..STREAM.len() {
        let mut out = Output::new(vec![], fault(after, Stage::Flush, 0));
        assert!(aggregate_jsonl(&mut out, "1.2.3", options(), inputs(), events()).is_err());
        assert_eq!(accepted(&out), framed(&STREAM[..=after]));
    }
}

#[test]
fn a_line_whose_writing_fails_may_have_been_accepted_in_part() {
    for after in 0..STREAM.len() {
        for partial in [0, 1, 20, usize::MAX] {
            let mut out = Output::new(vec![], fault(after, Stage::Write, partial));
            assert!(aggregate_jsonl(&mut out, "1.2.3", options(), inputs(), events()).is_err());
            let next = framed(&STREAM[after..=after]);
            let part = &next[..partial.min(next.len())];
            assert_eq!(accepted(&out), framed(&STREAM[..after]) + part);
            assert!(framed(&STREAM).starts_with(&accepted(&out)));
        }
    }
}

#[test]
fn a_failure_behind_the_last_line_is_not_met() {
    let mut out = Output::new(vec![], fault(STREAM.len(), Stage::Write, 5));
    let result = aggregate_jsonl(&mut out, "1.2.3", options(), inputs(), events());
    assert_eq!(result.unwrap().num_errors, 3);
    assert_eq!(lines(&out), STREAM);
    assert_eq!(accepted(&out), framed(&STREAM));
}

#[test]
fn what_the_output_holds_stays() {
    let mut out = Output::new(b"half a line".to_vec(), fault(4, Stage::Write, 3));
    write_flushed(&mut out, "first".to_string()).unwrap();
    assert!(aggregate_jsonl(&mut out, "1.2.3", options(), inputs(), events()).is_err());
    assert_eq!(lines(&out), ["first", STREAM[0], STREAM[1], STREAM[2]]);
    let held = format!("half a linefirst\n{}{{\"p", framed(&STREAM[..3]));
    assert_eq!(accepted(&out), held);
    assert!(write_flushed(&mut out, "m\u{20ac}re".to_string()).is_err());
    assert_eq!(out.len(), 4);
    assert_eq!(out.accepted().len(), held.len() + 3);
}

#[test]
fn lines_are_accepted_in_utf8() {
    let mut out = Output::new(vec![], None);
    write_flushed(&mut out, "\u{e4}\u{20ac}\u{1f600}".to_string()).unwrap();
    assert_eq!(accepted(&out), "\u{e4}\u{20ac}\u{1f600}\n");
}

#[test]
fn step_by_step_is_the_same_stream() {
    let (mut scan, hello) = Scan::begin("1.2.3", options(), 3);
    let mut emitted = vec![hello];
    for input in inputs() {
        let _ = scan.add_root(input);
    }
    for WalkEvent { root, event } in events() {
        emitted.extend(scan.observe(root, event));
    }
    let (closing, result) = scan.finish();
    emitted.extend(closing);
    assert_eq!(emitted, STREAM);
    assert_eq!(result.num_errors, 3);
}

#[test]
fn a_shorter_walk_has_the_first_of_the_records() {
    for count in 1..=events().len() {
        let mut out = Output::new(vec![], None);
        let walked: Vec<WalkEvent> = events().into_iter().take(count).collect();
        aggregate_jsonl(&mut out, "1.2.3", options(), inputs(), walked).unwrap();
        let body = &lines(&out)[..out.len() - 2];
        assert_eq!(body, &STREAM[..body.len()]);
    }
}
