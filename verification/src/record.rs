//! The records of the stream, and the lines that show them.

use crate::json;
use crate::json::{ObjectText, Value};
use crate::paths;
use crate::walk;
use vstd::prelude::*;

verus! {

/// What went wrong: preparing a root, reading the metadata of an entry, or reading a directory.
#[derive(Clone, Copy, Debug, PartialEq, Eq, Structural)]
pub enum ErrorKind {
    Root,
    Metadata,
    Read,
}

/// The protocol-facing name of an error kind.
pub open spec fn error_kind_name(kind: ErrorKind) -> Seq<char> {
    match kind {
        ErrorKind::Root => "root"@,
        ErrorKind::Metadata => "metadata"@,
        ErrorKind::Read => "read"@,
    }
}

impl ErrorKind {
    /// The protocol-facing name of the kind.
    pub fn name(self) -> (name: &'static str)
        ensures
            name@ == error_kind_name(self),
    {
        match self {
            ErrorKind::Root => "root",
            ErrorKind::Metadata => "metadata",
            ErrorKind::Read => "read",
        }
    }
}

/// Counters and sizes over some records.
pub struct Tally {
    pub entries: nat,
    pub dirs: nat,
    pub files: nat,
    pub errors: nat,
    pub apparent_bytes: nat,
    pub allocated_bytes: nat,
}

/// One event of the stream.
#[allow(inconsistent_fields)]
pub enum Record {
    /// The first event, with the version of the program and the configuration of the walk.
    Hello { version: Seq<char>, threads: nat, roots: nat },
    /// A traversed entry.
    Entry { path: Seq<char>, depth: nat, is_dir: bool, len: nat, allocated: nat },
    /// A file system error: the root that owns it, the failing path where it is known, and what the
    /// system says.
    Error {
        root: Option<Seq<char>>,
        path: Option<Seq<char>>,
        kind: ErrorKind,
        message: Seq<char>,
    },
    /// Counters and sizes over all entries and errors before.
    Summary(Tally),
    /// The last event: whether there were errors.
    Done { errors: nat },
}

/// A text, or `null` in its place.
pub open spec fn text_or_null(text: Option<Seq<char>>) -> Value {
    match text {
        Some(text) => Value::Text(text),
        None => Value::Null,
    }
}

/// The members of the JSON object for a record. Only an error has a use for `parent`, the parent of
/// its path.
pub open spec fn members(record: Record, parent: Option<Seq<char>>) -> Seq<(Seq<char>, Value)> {
    match record {
        Record::Hello { version, threads, roots } => seq![
            ("protocol"@, Value::Number(1)),
            ("type"@, Value::Text("hello"@)),
            ("version"@, Value::Text(version)),
            ("threads"@, Value::Number(threads)),
            ("roots"@, Value::Number(roots)),
            ("order"@, Value::Text("parent-first"@)),
        ],
        Record::Entry { path, depth, is_dir, len, allocated } => seq![
            ("protocol"@, Value::Number(1)),
            ("type"@, Value::Text("entry"@)),
            ("path"@, Value::Text(path)),
            ("depth"@, Value::Number(depth)),
            ("kind"@, Value::Text(walk::kind_name(is_dir))),
            ("len"@, Value::Number(len)),
            ("allocated"@, Value::Number(allocated)),
        ],
        Record::Error { root, path, kind, message } => seq![
            ("protocol"@, Value::Number(1)),
            ("type"@, Value::Text("error"@)),
            ("root"@, text_or_null(root)),
            ("parent"@, text_or_null(parent)),
            ("path"@, text_or_null(path)),
            ("kind"@, Value::Text(error_kind_name(kind))),
            ("message"@, Value::Text(message)),
        ],
        Record::Summary(tally) => seq![
            ("protocol"@, Value::Number(1)),
            ("type"@, Value::Text("summary"@)),
            ("entries"@, Value::Number(tally.entries)),
            ("errors"@, Value::Number(tally.errors)),
            ("dirs"@, Value::Number(tally.dirs)),
            ("files"@, Value::Number(tally.files)),
            ("apparentBytes"@, Value::Number(tally.apparent_bytes)),
            ("allocatedBytes"@, Value::Number(tally.allocated_bytes)),
        ],
        Record::Done { errors } => seq![
            ("protocol"@, Value::Number(1)),
            ("type"@, Value::Text("done"@)),
            ("exitCode"@, Value::Number(if errors == 0 { 0 } else { 1 })),
            ("ok"@, Value::Flag(errors == 0)),
            ("reason"@, Value::Text(if errors == 0 { "completed"@ } else { "partial"@ })),
        ],
    }
}

/// The path that a record names as failing.
pub open spec fn failing_path(record: Record) -> Option<Seq<char>> {
    match record {
        Record::Error { path, .. } => path,
        _ => None,
    }
}

/// Whether `line` is the JSON object for `record`. The parent of a failing path is the one member
/// that the record does not fix by itself.
pub open spec fn shows(line: Seq<char>, record: Record) -> bool {
    exists|parent: Option<Seq<char>>|
        {
            &&& paths::is_parent_of(failing_path(record), parent)
            &&& line == #[trigger] json::render_object(members(record, parent))
        }
}

/// The texts of some lines.
pub open spec fn texts(lines: Seq<String>) -> Seq<Seq<char>> {
    Seq::new(lines.len(), |i: int| lines[i]@)
}

/// Whether the lines behind the first `from` show these records, one line each.
pub open spec fn lines_show(lines: Seq<Seq<char>>, from: nat, records: Seq<Record>) -> bool {
    &&& lines.len() == from + records.len()
    &&& forall|i: int| 0 <= i < records.len() ==> shows(#[trigger] lines[from + i], records[i])
}

/// Whether a record fixes its line on every platform: it names no failing path, or one that every
/// platform reads alike.
pub open spec fn fixes_its_line(record: Record) -> bool {
    failing_path(record) matches Some(path) ==> paths::portable(path)
}

/// Every record has a line.
pub proof fn law_record_has_a_line(record: Record)
    ensures
        exists|line: Seq<char>| #[trigger] shows(line, record),
{
    let parent = match failing_path(record) {
        Some(path) => paths::portable_parent(path),
        None => None,
    };
    if let Some(path) = failing_path(record) {
        paths::law_parent_is_front_part(path);
    }
    assert(shows(json::render_object(members(record, parent)), record));
}

/// Two lines for a record are the same, where the record fixes its line.
pub proof fn law_record_has_one_line(record: Record, a: Seq<char>, b: Seq<char>)
    requires
        fixes_its_line(record),
        shows(a, record),
        shows(b, record),
    ensures
        a == b,
{
}

/// Whether there is an entry among `records`.
pub open spec fn has_entry(records: Seq<Record>) -> bool {
    exists|i: int| 0 <= i < records.len() && #[trigger] records[i] is Entry
}

/// `bytes`, or the largest number that can be reported.
pub open spec fn capped(bytes: nat) -> nat {
    if bytes <= u64::MAX {
        bytes
    } else {
        u64::MAX as nat
    }
}

/// The counters and sizes of `records`: over the entries and the errors among them.
pub open spec fn tally(records: Seq<Record>) -> Tally
    decreases records.len(),
{
    if records.len() == 0 {
        Tally {
            entries: 0,
            dirs: 0,
            files: 0,
            errors: 0,
            apparent_bytes: 0,
            allocated_bytes: 0,
        }
    } else {
        let before = tally(records.drop_last());
        match records.last() {
            Record::Entry { is_dir, len, allocated, .. } => Tally {
                entries: before.entries + 1,
                dirs: before.dirs + if is_dir { 1nat } else { 0 },
                files: before.files + if is_dir { 0nat } else { 1 },
                errors: before.errors,
                apparent_bytes: capped(before.apparent_bytes + len),
                allocated_bytes: capped(before.allocated_bytes + allocated),
            },
            Record::Error { .. } => Tally { errors: before.errors + 1, ..before },
            _ => before,
        }
    }
}

/// What one more record adds to the counters and sizes.
pub proof fn lemma_tally_push(records: Seq<Record>, next: Record)
    ensures
        tally(records.push(next)) == (match next {
            Record::Entry { is_dir, len, allocated, .. } => {
                let before = tally(records);
                Tally {
                    entries: before.entries + 1,
                    dirs: before.dirs + if is_dir { 1nat } else { 0 },
                    files: before.files + if is_dir { 0nat } else { 1 },
                    errors: before.errors,
                    apparent_bytes: capped(before.apparent_bytes + len),
                    allocated_bytes: capped(before.allocated_bytes + allocated),
                }
            },
            Record::Error { .. } => {
                let before = tally(records);
                Tally { errors: before.errors + 1, ..before }
            },
            _ => tally(records),
        }),
{
    assert(records.push(next).drop_last() =~= records);
}

/// Every counted entry is either a directory or a file.
pub proof fn law_dirs_and_files_make_up_entries(records: Seq<Record>)
    ensures
        tally(records).dirs + tally(records).files == tally(records).entries,
    decreases records.len(),
{
    if records.len() > 0 {
        law_dirs_and_files_make_up_entries(records.drop_last());
    }
}

/// The counters and sizes of two runs of records taken together.
pub open spec fn merged(a: Tally, b: Tally) -> Tally {
    Tally {
        entries: a.entries + b.entries,
        dirs: a.dirs + b.dirs,
        files: a.files + b.files,
        errors: a.errors + b.errors,
        apparent_bytes: capped(a.apparent_bytes + b.apparent_bytes),
        allocated_bytes: capped(a.allocated_bytes + b.allocated_bytes),
    }
}

/// Records are counted alike whether they are taken together or in two runs.
pub proof fn lemma_tally_concat(a: Seq<Record>, b: Seq<Record>)
    ensures
        tally(a + b) == merged(tally(a), tally(b)),
    decreases b.len(),
{
    if b.len() == 0 {
        assert(a + b =~= a);
        lemma_tally_capped(a);
    } else {
        lemma_tally_concat(a, b.drop_last());
        assert((a + b).drop_last() =~= a + b.drop_last());
        assert((a + b).last() == b.last());
    }
}

proof fn lemma_tally_capped(records: Seq<Record>)
    ensures
        tally(records).apparent_bytes <= u64::MAX,
        tally(records).allocated_bytes <= u64::MAX,
    decreases records.len(),
{
    if records.len() > 0 {
        lemma_tally_capped(records.drop_last());
    }
}

/// Entries are counted exactly when there are any.
pub proof fn lemma_has_entry(records: Seq<Record>)
    ensures
        has_entry(records) <==> tally(records).entries > 0,
    decreases records.len(),
{
    if records.len() > 0 {
        let front = records.drop_last();
        lemma_has_entry(front);
        if has_entry(records) {
            let i = choose|i: int| 0 <= i < records.len() && #[trigger] records[i] is Entry;
            if i < front.len() {
                assert(front[i] is Entry);
            }
        }
        if has_entry(front) {
            let i = choose|i: int| 0 <= i < front.len() && #[trigger] front[i] is Entry;
            assert(records[i] is Entry);
        }
        if records.last() is Entry {
            assert(records[records.len() - 1] is Entry);
        }
    }
}

/// A record is counted as at most one entry or error.
pub proof fn lemma_tally_bound(records: Seq<Record>)
    ensures
        tally(records).entries + tally(records).errors <= records.len(),
    decreases records.len(),
{
    if records.len() > 0 {
        lemma_tally_bound(records.drop_last());
    }
}

/// Accumulated totals over all entries emitted for the current scan.
#[derive(Clone, Copy, Debug)]
pub struct Totals {
    pub entries: u64,
    pub dirs: u64,
    pub files: u64,
    pub errors: u64,
    pub apparent_bytes: u64,
    pub allocated_bytes: u64,
}

impl View for Totals {
    type V = Tally;

    open spec fn view(&self) -> Tally {
        Tally {
            entries: self.entries as nat,
            dirs: self.dirs as nat,
            files: self.files as nat,
            errors: self.errors as nat,
            apparent_bytes: self.apparent_bytes as nat,
            allocated_bytes: self.allocated_bytes as nat,
        }
    }
}

impl Default for Totals {
    /// Nothing counted yet.
    fn default() -> (totals: Totals)
        ensures
            totals@ == tally(Seq::empty()),
    {
        Totals {
            entries: 0,
            dirs: 0,
            files: 0,
            errors: 0,
            apparent_bytes: 0,
            allocated_bytes: 0,
        }
    }
}

/// An object with the members that every event begins with.
fn begin_event(name: &str) -> (object: ObjectText)
    ensures
        object.wf(),
        object.members() == seq![("protocol"@, Value::Number(1)), ("type"@, Value::Text(name@))],
{
    let mut object = ObjectText::new();
    object.number("protocol", 1);
    object.text("type", name);
    object
}

/// The `hello` line.
pub fn hello_line(version: &str, threads: usize, roots: usize) -> (line: String)
    ensures
        shows(
            line@,
            Record::Hello { version: version@, threads: threads as nat, roots: roots as nat },
        ),
{
    let mut object = begin_event("hello");
    object.text("version", version);
    object.number("threads", threads as u64);
    object.number("roots", roots as u64);
    object.text("order", "parent-first");
    let ghost record = Record::Hello {
        version: version@,
        threads: threads as nat,
        roots: roots as nat,
    };
    assert(object.members() =~= members(record, None));
    assert(paths::is_parent_of(failing_path(record), None));
    object.finish()
}

/// The line for an entry with the bytes that are counted for it.
pub fn entry_line(path: &str, depth: usize, is_dir: bool, len: u64, allocated: u64) -> (line: String)
    ensures
        shows(
            line@,
            (Record::Entry {
                path: path@,
                depth: depth as nat,
                is_dir,
                len: len as nat,
                allocated: allocated as nat,
            }),
        ),
{
    let mut object = begin_event("entry");
    object.text("path", path);
    object.number("depth", depth as u64);
    object.text("kind", walk::entry_kind(is_dir));
    object.number("len", len);
    object.number("allocated", allocated);
    let ghost record = Record::Entry {
        path: path@,
        depth: depth as nat,
        is_dir,
        len: len as nat,
        allocated: allocated as nat,
    };
    assert(object.members() =~= members(record, None));
    assert(paths::is_parent_of(failing_path(record), None));
    object.finish()
}

/// The line for an error, with the parent of its path as it was found.
pub fn error_line(
    root: Option<&str>,
    parent: Option<&str>,
    path: Option<&str>,
    kind: ErrorKind,
    message: &str,
) -> (line: String)
    ensures
        line@ == json::render_object(
            members(
                (Record::Error {
                    root: paths::str_of(root),
                    path: paths::str_of(path),
                    kind,
                    message: message@,
                }),
                paths::str_of(parent),
            ),
        ),
{
    let mut object = begin_event("error");
    object.text_or_null("root", root);
    object.text_or_null("parent", parent);
    object.text_or_null("path", path);
    object.text("kind", kind.name());
    object.text("message", message);
    let ghost record = Record::Error {
        root: paths::str_of(root),
        path: paths::str_of(path),
        kind,
        message: message@,
    };
    assert(object.members() =~= members(record, paths::str_of(parent)));
    object.finish()
}

/// Count an error and give its line.
///
/// `exact_path` is `Some` only when the failing path is genuinely known; the design contract is
/// that a failing path is never fabricated when the traversal does not report one.
pub fn report_error(
    root: Option<&str>,
    exact_path: Option<&str>,
    kind: ErrorKind,
    message: &str,
    totals: &mut Totals,
) -> (line: String)
    requires
        old(totals).errors < u64::MAX,
    ensures
        final(totals)@ == (Tally { errors: old(totals)@.errors + 1, ..old(totals)@ }),
        shows(
            line@,
            (Record::Error {
                root: paths::str_of(root),
                path: paths::str_of(exact_path),
                kind,
                message: message@,
            }),
        ),
{
    totals.errors = totals.errors + 1;
    let parent = paths::parent_of(exact_path);
    let parent_text: Option<&str> = match &parent {
        Some(text) => Some(text.as_str()),
        None => None,
    };
    assert(paths::str_of(parent_text) == paths::text_of(parent));
    error_line(root, parent_text, exact_path, kind, message)
}

/// The `summary` line.
pub fn summary_line(totals: &Totals) -> (line: String)
    ensures
        shows(line@, Record::Summary(totals@)),
{
    let mut object = begin_event("summary");
    object.number("entries", totals.entries);
    object.number("errors", totals.errors);
    object.number("dirs", totals.dirs);
    object.number("files", totals.files);
    object.number("apparentBytes", totals.apparent_bytes);
    object.number("allocatedBytes", totals.allocated_bytes);
    let ghost record = Record::Summary(totals@);
    assert(object.members() =~= members(record, None));
    assert(paths::is_parent_of(failing_path(record), None));
    object.finish()
}

/// The `done` line.
pub fn done_line(totals: &Totals) -> (line: String)
    ensures
        shows(line@, Record::Done { errors: totals.errors as nat }),
{
    let ok = totals.errors == 0;
    let mut object = begin_event("done");
    object.number("exitCode", if ok { 0 } else { 1 });
    object.flag("ok", ok);
    object.text("reason", if ok { "completed" } else { "partial" });
    let ghost record = Record::Done { errors: totals.errors as nat };
    assert(object.members() =~= members(record, None));
    assert(paths::is_parent_of(failing_path(record), None));
    object.finish()
}

} // verus!
