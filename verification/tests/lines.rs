use dua::inodes::FileId;
use dua::output::Stage;
use dua::paths::parent_of;
use dua::record::{
    done_line, entry_line, error_line, hello_line, report_error, summary_line, ErrorKind, Totals,
};
use dua::walk::{allocated_size, entry_kind, Metadata};

fn metadata(size_on_disk: Option<u64>) -> Metadata {
    Metadata { len: 5, size_on_disk, id: FileId { volume: 1, file: 2 }, device_id: 1 }
}

#[test]
fn hello() {
    assert_eq!(
        hello_line("2.30.1", 4, 2),
        "{\"protocol\":1,\"type\":\"hello\",\"version\":\"2.30.1\",\"threads\":4,\"roots\":2,\
         \"order\":\"parent-first\"}"
    );
}

#[test]
fn entry_of_a_file() {
    assert_eq!(
        entry_line("a/b", 1, false, 10, 4096),
        "{\"protocol\":1,\"type\":\"entry\",\"path\":\"a/b\",\"depth\":1,\"kind\":\"file\",\
         \"len\":10,\"allocated\":4096}"
    );
}

#[test]
fn entry_of_a_directory() {
    assert_eq!(
        entry_line("a\n\"b\"", 0, true, 64, 0),
        "{\"protocol\":1,\"type\":\"entry\",\"path\":\"a\\n\\\"b\\\"\",\"depth\":0,\
         \"kind\":\"dir\",\"len\":64,\"allocated\":0}"
    );
}

#[test]
fn error_with_everything_known() {
    assert_eq!(
        error_line(Some("a"), Some("a/b"), Some("a/b/c"), ErrorKind::Metadata, "denied"),
        "{\"protocol\":1,\"type\":\"error\",\"root\":\"a\",\"parent\":\"a/b\",\
         \"path\":\"a/b/c\",\"kind\":\"metadata\",\"message\":\"denied\"}"
    );
}

#[test]
fn error_with_nothing_known() {
    assert_eq!(
        error_line(None, None, None, ErrorKind::Read, ""),
        "{\"protocol\":1,\"type\":\"error\",\"root\":null,\"parent\":null,\"path\":null,\
         \"kind\":\"read\",\"message\":\"\"}"
    );
}

#[test]
fn a_reported_error_is_counted_and_names_the_parent_of_its_path() {
    let mut totals = Totals::default();
    assert_eq!(
        report_error(Some("a"), Some("a/b"), ErrorKind::Metadata, "m", &mut totals),
        "{\"protocol\":1,\"type\":\"error\",\"root\":\"a\",\"parent\":\"a\",\"path\":\"a/b\",\
         \"kind\":\"metadata\",\"message\":\"m\"}"
    );
    assert_eq!(totals.errors, 1);
    assert_eq!(totals.entries, 0);
    assert_eq!(
        report_error(Some("a"), None, ErrorKind::Read, "m", &mut totals),
        "{\"protocol\":1,\"type\":\"error\",\"root\":\"a\",\"parent\":null,\"path\":null,\
         \"kind\":\"read\",\"message\":\"m\"}"
    );
    assert_eq!(totals.errors, 2);
}

#[test]
fn a_single_component_has_the_empty_parent() {
    let mut totals = Totals::default();
    assert_eq!(
        report_error(Some("a"), Some("a"), ErrorKind::Root, "m", &mut totals),
        "{\"protocol\":1,\"type\":\"error\",\"root\":\"a\",\"parent\":\"\",\"path\":\"a\",\
         \"kind\":\"root\",\"message\":\"m\"}"
    );
}

#[test]
fn parents() {
    assert_eq!(parent_of(None), None);
    assert_eq!(parent_of(Some("")), None);
    assert_eq!(parent_of(Some("/")), None);
    assert_eq!(parent_of(Some("/a")).as_deref(), Some("/"));
    assert_eq!(parent_of(Some("/..")).as_deref(), Some("/"));
    assert_eq!(parent_of(Some(".")).as_deref(), Some(""));
    assert_eq!(parent_of(Some("..")).as_deref(), Some(""));
    assert_eq!(parent_of(Some("a/b")).as_deref(), Some("a"));
    assert_eq!(parent_of(Some("a/..")).as_deref(), Some("a"));
    assert_eq!(parent_of(Some("/a/b/c")).as_deref(), Some("/a/b"));
    assert_eq!(parent_of(Some("a/./b/c")).as_deref(), Some("a/./b"));
    assert_eq!(parent_of(Some("a//b/c")).as_deref(), Some("a//b"));
    assert_eq!(parent_of(Some("./x")).as_deref(), Some("."));
    assert_eq!(parent_of(Some("../x")).as_deref(), Some(".."));
    assert_eq!(parent_of(Some("a/./x")).as_deref(), Some("a"));
    assert_eq!(parent_of(Some("a//x")).as_deref(), Some("a"));
    assert_eq!(parent_of(Some("a/x/./")).as_deref(), Some("a"));
    assert_eq!(parent_of(Some("/./")), None);
    assert_eq!(parent_of(Some("/a:b/c")).as_deref(), Some("/a:b"));
    assert_eq!(parent_of(Some("/a:")).as_deref(), Some("/"));
    assert_eq!(parent_of(Some("a b/\u{e4}/c")).as_deref(), Some("a b/\u{e4}"));
}

fn trimmed(mut path: &str) -> &str {
    while path.len() >= 2 && (path.ends_with('/') || path.ends_with("/.")) {
        path = &path[..path.len() - 1];
    }
    path
}

fn portable_parent(path: &str) -> Option<&str> {
    let whole = trimmed(path);
    if whole.is_empty() || whole == "/" {
        return None;
    }
    let end = whole.rfind('/').map_or(0, |at| at + 1);
    Some(trimmed(&whole[..end]))
}

#[test]
fn parents_of_portable_paths_are_what_stands_in_front_of_the_name() {
    let mut paths = vec![String::new()];
    for _ in 0..8 {
        let mut longer = Vec::new();
        for path in &paths {
            let one_slash = path.starts_with('/') && !path.starts_with("//");
            if one_slash || !path.starts_with('/') && !path.contains(':') {
                assert_eq!(parent_of(Some(path)).as_deref(), portable_parent(path), "{path}");
            }
            for c in ['/', '.', ':', 'a'] {
                longer.push(format!("{path}{c}"));
            }
        }
        paths = longer;
    }
}

#[test]
fn a_parent_is_a_front_part_of_its_path() {
    let pieces = ["", "/", "//", "a", "b.c", ".", "..", "\u{20ac}", "a\\b", "C:"];
    for a in pieces {
        for b in pieces {
            for c in pieces {
                let path = format!("{a}{b}/{c}");
                if let Some(parent) = parent_of(Some(&path)) {
                    assert!(parent.len() < path.len() && path.starts_with(&parent), "{path}");
                } else {
                    assert!(path.starts_with('/') || path.contains(['\\', ':']), "{path}");
                }
            }
        }
    }
}

#[test]
fn names_below_a_plain_directory_have_it_for_their_parent() {
    for directory in ["a", "/a", "a/b", "/a//b", "../a", "./a", "a/../b", "a b", ".a", "a/.b"] {
        for name in ["x", ".x", "x.", "..", "...", "x y", "\u{20ac}"] {
            let path = format!("{directory}/{name}");
            assert_eq!(parent_of(Some(&path)).as_deref(), Some(directory), "{path}");
        }
    }
}

#[test]
fn summary() {
    let totals = Totals {
        entries: 3,
        dirs: 1,
        files: 2,
        errors: 4,
        apparent_bytes: 50,
        allocated_bytes: u64::MAX,
    };
    assert_eq!(
        summary_line(&totals),
        "{\"protocol\":1,\"type\":\"summary\",\"entries\":3,\"errors\":4,\"dirs\":1,\"files\":2,\
         \"apparentBytes\":50,\"allocatedBytes\":18446744073709551615}"
    );
}

#[test]
fn done_without_errors() {
    assert_eq!(
        done_line(&Totals::default()),
        "{\"protocol\":1,\"type\":\"done\",\"exitCode\":0,\"ok\":true,\"reason\":\"completed\"}"
    );
}

#[test]
fn done_with_errors() {
    let mut totals = Totals::default();
    totals.errors = 7;
    assert_eq!(
        done_line(&totals),
        "{\"protocol\":1,\"type\":\"done\",\"exitCode\":1,\"ok\":false,\"reason\":\"partial\"}"
    );
}

#[test]
fn kinds() {
    assert_eq!(entry_kind(true), "dir");
    assert_eq!(entry_kind(false), "file");
    assert_eq!(ErrorKind::Root.name(), "root");
    assert_eq!(ErrorKind::Metadata.name(), "metadata");
    assert_eq!(ErrorKind::Read.name(), "read");
}

#[test]
fn allocation_is_that_of_files_only() {
    assert_eq!(allocated_size(false, &metadata(Some(4096))), 4096);
    assert_eq!(allocated_size(false, &metadata(None)), 0);
    assert_eq!(allocated_size(true, &metadata(Some(4096))), 0);
}

#[test]
fn stages_have_their_context() {
    assert_eq!(Stage::Write.context(), "could not write NDJSON event");
    assert_eq!(Stage::Flush.context(), "could not flush NDJSON event");
}
