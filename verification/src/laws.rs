//! What holds of every stream.

use crate::aggregate;
use crate::inodes::FileId;
use crate::json;
use crate::output;
use crate::output::{Fault, Output, StreamError};
use crate::paths;
use crate::reader;
use crate::record;
use crate::record::{ErrorKind, Record};
use crate::report;
use crate::report::{History, KnownRoot};
use crate::walk::{EventView, MetadataView, RootInputView, WalkEventView, WalkOptions, WalkResult};
use vstd::prelude::*;

verus! {

/// Whether a reader gets back from `line` the members of `record`.
pub open spec fn reads_as(line: Seq<char>, record: Record) -> bool {
    exists|parent: Option<Seq<char>>|
        {
            &&& paths::is_parent_of(record::failing_path(record), parent)
            &&& reader::read_object(line) == Some(#[trigger] record::members(record, parent))
        }
}

/// A line is one JSON object without a line break, and a reader gets back from it the members of the
/// record that it shows.
pub proof fn law_line_reads_back(line: Seq<char>, record: Record)
    requires
        record::shows(line, record),
    ensures
        !line.contains('\n'),
        reader::without_control(line),
        reads_as(line, record),
{
    let parent = choose|parent: Option<Seq<char>>|
        {
            &&& paths::is_parent_of(record::failing_path(record), parent)
            &&& line == #[trigger] json::render_object(record::members(record, parent))
        };
    reader::law_object_reads_back(record::members(record, parent));
    reader::law_object_is_one_line(record::members(record, parent));
}

/// An error whose path is not known has a line that says so: path and parent are `null`.
pub proof fn law_unknown_path_is_null(
    line: Seq<char>,
    root: Option<Seq<char>>,
    kind: ErrorKind,
    message: Seq<char>,
)
    requires
        record::shows(line, Record::Error { root, path: None, kind, message }),
    ensures
        reader::read_object(line) matches Some(members) && {
            &&& members[3] == ("parent"@, json::Value::Null)
            &&& members[4] == ("path"@, json::Value::Null)
        },
{
    law_line_reads_back(line, Record::Error { root, path: None, kind, message });
}

/// The text of a stream: every line with a line end behind it.
pub open spec fn stream_text(lines: Seq<Seq<char>>) -> Seq<char>
    decreases lines.len(),
{
    if lines.len() == 0 {
        Seq::empty()
    } else {
        stream_text(lines.drop_last()) + lines.last().push('\n')
    }
}

proof fn lemma_encode_concat(a: Seq<char>, b: Seq<char>)
    ensures
        vstd::utf8::encode_utf8(a + b) == vstd::utf8::encode_utf8(a) + vstd::utf8::encode_utf8(b),
    decreases a.len(),
{
    if a.len() == 0 {
        assert(a + b =~= b);
        assert(vstd::utf8::encode_utf8(a) + vstd::utf8::encode_utf8(b)
            =~= vstd::utf8::encode_utf8(b));
    } else {
        lemma_encode_concat(a.drop_first(), b);
        assert((a + b).drop_first() =~= a.drop_first() + b);
        assert(vstd::utf8::encode_utf8(a + b) =~= vstd::utf8::encode_utf8(a)
            + vstd::utf8::encode_utf8(b));
    }
}

/// The bytes of a stream are its text in UTF-8, and decode to it.
pub proof fn law_stream_decodes_to_its_text(lines: Seq<Seq<char>>)
    ensures
        output::stream_bytes(lines) == vstd::utf8::encode_utf8(stream_text(lines)),
        vstd::utf8::decode_utf8(output::stream_bytes(lines)) == stream_text(lines),
    decreases lines.len(),
{
    if lines.len() > 0 {
        law_stream_decodes_to_its_text(lines.drop_last());
        lemma_encode_concat(stream_text(lines.drop_last()), lines.last().push('\n'));
    }
    vstd::utf8::encode_utf8_decode_utf8(stream_text(lines));
}

/// The lines of a text: what stands in front of each line end, and the rest behind the last.
pub open spec fn split_lines(text: Seq<char>) -> (Seq<Seq<char>>, Seq<char>)
    decreases text.len(),
{
    if text.len() == 0 {
        (Seq::empty(), Seq::empty())
    } else {
        let (lines, rest) = split_lines(text.drop_last());
        if text.last() == '\n' {
            (lines.push(rest), Seq::empty())
        } else {
            (lines, rest.push(text.last()))
        }
    }
}

proof fn lemma_split_line(text: Seq<char>, line: Seq<char>)
    requires
        split_lines(text).1 == Seq::<char>::empty(),
        !line.contains('\n'),
    ensures
        split_lines(text + line) == (split_lines(text).0, line),
    decreases line.len(),
{
    if line.len() == 0 {
        assert(text + line =~= text);
        assert(line =~= Seq::empty());
    } else {
        assert(line[line.len() - 1] == line.last());
        assert forall|i: int| 0 <= i < line.drop_last().len() implies line.drop_last()[i]
            != '\n' by {
            assert(line[i] == line.drop_last()[i]);
        }
        lemma_split_line(text, line.drop_last());
        assert((text + line).drop_last() =~= text + line.drop_last());
        assert(line.drop_last().push(line.last()) =~= line);
    }
}

/// A consumer who splits the stream at its line ends gets the lines that were written, each whole,
/// and nothing behind the last.
pub proof fn law_stream_splits_into_its_lines(lines: Seq<Seq<char>>)
    requires
        forall|i: int| 0 <= i < lines.len() ==> !(#[trigger] lines[i]).contains('\n'),
    ensures
        split_lines(stream_text(lines)) == (lines, Seq::<char>::empty()),
    decreases lines.len(),
{
    if lines.len() == 0 {
        assert(lines =~= Seq::empty());
    } else {
        let front = stream_text(lines.drop_last());
        let text = stream_text(lines);
        assert forall|i: int| 0 <= i < lines.drop_last().len() implies !(
        #[trigger] lines.drop_last()[i]).contains('\n') by {
            assert(lines.drop_last()[i] == lines[i]);
        }
        law_stream_splits_into_its_lines(lines.drop_last());
        lemma_split_line(front, lines.last());
        assert(text.drop_last() =~= front + lines.last());
        assert(lines.drop_last().push(lines.last()) =~= lines);
    }
}

/// A consumer who decodes the bytes of a stream whose lines show `records` and splits them at the line
/// ends gets back, line by line, the members of each of them, in order.
pub proof fn law_stream_reads_back(lines: Seq<Seq<char>>, records: Seq<Record>)
    requires
        record::lines_show(lines, 0, records),
    ensures
        split_lines(vstd::utf8::decode_utf8(output::stream_bytes(lines))) == (lines, Seq::<char>::empty()),
        lines.len() == records.len(),
        forall|i: int| 0 <= i < records.len() ==> reads_as(#[trigger] lines[i], records[i]),
{
    assert forall|i: int| 0 <= i < lines.len() implies !(#[trigger] lines[i]).contains('\n')
        && reads_as(lines[i], records[i]) by {
        assert(record::shows(lines[0 + i], records[i]));
        law_line_reads_back(lines[i], records[i]);
    }
    law_stream_decodes_to_its_text(lines);
    law_stream_splits_into_its_lines(lines);
}

/// The stream begins with `hello` and ends with `summary` and `done`; in between there are entries
/// and errors only.
pub proof fn law_stream_shape(history: History, version: Seq<char>)
    ensures
        ({
            let stream = history.stream(version);
            let len = stream.len() as int;
            &&& len >= 3
            &&& stream[0] is Hello
            &&& stream[len - 2] is Summary
            &&& stream[len - 1] is Done
            &&& forall|i: int|
                1 <= i < len - 2 ==> (#[trigger] stream[i] is Entry || stream[i] is Error)
        }),
{
    let stream = history.stream(version);
    lemma_body(history);
    assert forall|i: int| 1 <= i < stream.len() - 2 implies (#[trigger] stream[i] is Entry
        || stream[i] is Error) by {
        assert(stream[i] == history.body()[i - 1]);
    }
}

proof fn lemma_event_records(
    options: WalkOptions,
    roots: Seq<KnownRoot>,
    events: Seq<WalkEventView>,
)
    ensures
        forall|i: int|
            0 <= i < report::event_records(options, roots, events).len() ==> (
            #[trigger] report::event_records(options, roots, events)[i] is Entry
                || report::event_records(options, roots, events)[i] is Error),
    decreases events.len(),
{
    if events.len() > 0 {
        lemma_event_records(options, roots, events.drop_last());
    }
}

/// What is emitted has come about.
proof fn lemma_body_has_happened(history: History, index: int) -> (at: int)
    requires
        0 <= index < history.body().len(),
    ensures
        0 <= at < history.happened().len(),
        history.happened()[at] == history.body()[index],
{
    let records = history.happened();
    if record::has_entry(records) {
        report::lemma_entry_first_splits(records);
        let first = choose|first: int| #[trigger] report::moves_entry(records, first);
        if index == 0 {
            first
        } else if index <= first {
            index - 1
        } else {
            index
        }
    } else {
        report::lemma_entry_first_without_entry(records);
        index
    }
}

proof fn lemma_body(history: History)
    ensures
        forall|i: int|
            0 <= i < history.body().len() ==> (#[trigger] history.body()[i] is Entry
                || history.body()[i] is Error),
{
    report::lemma_input_records_are_errors(history.options, history.inputs);
    lemma_event_records(history.options, history.roots(), history.events);
    assert forall|i: int| 0 <= i < history.body().len() implies (#[trigger] history.body()[i] is Entry
        || history.body()[i] is Error) by {
        let at = lemma_body_has_happened(history, i);
    }
}

/// Entries appear before errors: where an error is emitted ahead of an entry, another entry has been
/// emitted before it. With the first and the last records, the kinds of events first appear in the
/// order `hello`, `entry`, `error`, `summary`, `done`.
pub proof fn law_entries_appear_before_errors(history: History, version: Seq<char>)
    ensures
        forall|i: int, j: int|
            0 <= i < j < history.stream(version).len() && #[trigger] history.stream(version)[i] is Error
                && #[trigger] history.stream(version)[j] is Entry ==> exists|k: int|
                0 <= k < i && #[trigger] history.stream(version)[k] is Entry,
{
    let stream = history.stream(version);
    let body = history.body();
    assert forall|i: int, j: int|
        0 <= i < j < stream.len() && #[trigger] stream[i] is Error
            && #[trigger] stream[j] is Entry implies exists|k: int|
        0 <= k < i && #[trigger] stream[k] is Entry by {
        assert(stream[i] == body[i - 1]);
        assert(stream[j] == body[j - 1]);
        let at = lemma_body_has_happened(history, j - 1);
        assert(record::has_entry(history.happened()));
        report::lemma_entry_first_splits(history.happened());
        assert(body[0] is Entry);
        assert(stream[1] == body[0]);
    }
}

/// The records among `records` that are entries.
pub open spec fn entries(records: Seq<Record>) -> Seq<Record> {
    records.filter(|record: Record| record is Entry)
}

/// The records among `records` that are entries of directories.
pub open spec fn dirs(records: Seq<Record>) -> Seq<Record> {
    records.filter(|record: Record| record matches Record::Entry { is_dir, .. } && is_dir)
}

/// The records among `records` that are entries of anything but directories.
pub open spec fn files(records: Seq<Record>) -> Seq<Record> {
    records.filter(|record: Record| record matches Record::Entry { is_dir, .. } && !is_dir)
}

/// The records among `records` that are errors.
pub open spec fn errors(records: Seq<Record>) -> Seq<Record> {
    records.filter(|record: Record| record is Error)
}

/// The apparent sizes of the entries among `records`, added up.
pub open spec fn apparent_sum(records: Seq<Record>) -> nat
    decreases records.len(),
{
    if records.len() == 0 {
        0
    } else {
        apparent_sum(records.drop_last()) + match records.last() {
            Record::Entry { len, .. } => len,
            _ => 0,
        }
    }
}

/// The allocated sizes of the entries among `records`, added up.
pub open spec fn allocated_sum(records: Seq<Record>) -> nat
    decreases records.len(),
{
    if records.len() == 0 {
        0
    } else {
        allocated_sum(records.drop_last()) + match records.last() {
            Record::Entry { allocated, .. } => allocated,
            _ => 0,
        }
    }
}

/// The summary counts the entries and the errors that were emitted, and its sizes are those of the
/// emitted entries added up, or the largest number where they exceed it.
pub proof fn law_summary_is_over_emitted_records(records: Seq<Record>)
    ensures
        record::tally(records).entries == entries(records).len(),
        record::tally(records).dirs == dirs(records).len(),
        record::tally(records).files == files(records).len(),
        record::tally(records).errors == errors(records).len(),
        record::tally(records).apparent_bytes == record::capped(apparent_sum(records)),
        record::tally(records).allocated_bytes == record::capped(allocated_sum(records)),
    decreases records.len(),
{
    reveal(Seq::filter);
    if records.len() > 0 {
        law_summary_is_over_emitted_records(records.drop_last());
    }
}

/// The closing event reports success exactly when no error was emitted.
pub proof fn law_done_is_ok_without_errors(history: History, version: Seq<char>)
    ensures
        ({
            let stream = history.stream(version);
            stream.last() matches Record::Done { errors } && (errors == 0 <==> forall|i: int|
                0 <= i < stream.len() ==> !(#[trigger] stream[i] is Error))
        }),
{
    let stream = history.stream(version);
    let body = history.body();
    lemma_no_errors(body);
    assert forall|i: int| 0 <= i < body.len() implies #[trigger] body[i] == stream[i + 1] by {}
    if record::tally(body).errors == 0 {
        assert forall|i: int| 0 <= i < stream.len() implies !(#[trigger] stream[i] is Error) by {
            if 1 <= i < stream.len() - 2 {
                assert(stream[i] == body[i - 1]);
            }
        }
    } else {
        let i = choose|i: int| 0 <= i < body.len() && #[trigger] body[i] is Error;
        assert(stream[i + 1] is Error);
    }
}

/// What a reader gets back from the last line: exit code `0`, `ok` and that the scan completed, where
/// the stream holds no error, and exit code `1`, not `ok` and that it is partial, where it holds one.
pub proof fn law_outcome_reads_back(history: History, version: Seq<char>, line: Seq<char>)
    requires
        record::shows(line, history.stream(version).last()),
    ensures
        reader::read_object(line) matches Some(members) && {
            &&& members.len() == 5
            &&& members[0] == ("protocol"@, json::Value::Number(1))
            &&& members[1] == ("type"@, json::Value::Text("done"@))
            &&& members[2].0 == "exitCode"@
            &&& members[3].0 == "ok"@
            &&& members[4].0 == "reason"@
            &&& (forall|i: int|
                0 <= i < history.stream(version).len() ==> !(#[trigger] history.stream(
                    version,
                )[i] is Error)) ==> {
                &&& members[2].1 == json::Value::Number(0)
                &&& members[3].1 == json::Value::Flag(true)
                &&& members[4].1 == json::Value::Text("completed"@)
            }
            &&& (exists|i: int|
                0 <= i < history.stream(version).len() && #[trigger] history.stream(
                    version,
                )[i] is Error) ==> {
                &&& members[2].1 == json::Value::Number(1)
                &&& members[3].1 == json::Value::Flag(false)
                &&& members[4].1 == json::Value::Text("partial"@)
            }
        },
{
    law_done_is_ok_without_errors(history, version);
    law_line_reads_back(line, history.stream(version).last());
}

proof fn lemma_no_errors(records: Seq<Record>)
    ensures
        record::tally(records).errors == 0 <==> forall|i: int|
            0 <= i < records.len() ==> !(#[trigger] records[i] is Error),
    decreases records.len(),
{
    if records.len() > 0 {
        let front = records.drop_last();
        lemma_no_errors(front);
        if record::tally(records).errors == 0 {
            assert forall|i: int| 0 <= i < records.len() implies !(
            #[trigger] records[i] is Error) by {
                if i < front.len() {
                    assert(front[i] == records[i]);
                }
            }
        } else if !(records.last() is Error) {
            let i = choose|i: int| 0 <= i < front.len() && #[trigger] front[i] is Error;
            assert(records[i] is Error);
        } else {
            assert(records[records.len() - 1] is Error);
        }
    }
}

/// Whether `path` is known to a scan: it is the path of an input, or of an entry of the walk.
pub open spec fn path_is_known(history: History, path: Seq<char>) -> bool {
    ||| exists|i: int|
        #![trigger history.inputs[i]]
        0 <= i < history.inputs.len() && history.inputs[i].path == path
    ||| exists|i: int|
        #![trigger history.events[i]]
        0 <= i < history.events.len() && (history.events[i].event matches EventView::Entry {
            path: known,
            ..
        } && known == path)
}

/// A failing path is never fabricated: every path that an error names, as its root or as the failing
/// path, is the path of an input or of an entry of the walk, and an error that came without a path
/// after its root had turned up names none.
pub proof fn law_no_path_is_fabricated(history: History, index: int)
    requires
        0 <= index < history.body().len(),
    ensures
        history.body()[index] matches Record::Error { root, path, kind, .. } ==> {
            &&& path matches Some(text) ==> path_is_known(history, text)
            &&& root matches Some(text) ==> path_is_known(history, text)
            &&& path is None <==> kind is Read
        },
{
    let at = lemma_body_has_happened(history, index);
    let before = report::input_records(history.options, history.inputs);
    if at < before.len() {
        lemma_input_paths(history.options, history.inputs, at);
        assert(history.happened()[at] == before[at]);
    } else {
        lemma_event_paths(history, history.events, at - before.len());
    }
}

proof fn lemma_input_paths(options: WalkOptions, inputs: Seq<RootInputView>, index: int)
    requires
        0 <= index < report::input_records(options, inputs).len(),
    ensures
        report::input_records(options, inputs)[index] matches Record::Error {
            root,
            path,
            kind,
            ..
        } && kind is Root && root == path && exists|i: int|
            #![trigger inputs[i]]
            0 <= i < inputs.len() && path == Some(inputs[i].path),
    decreases inputs.len(),
{
    let front = inputs.drop_last();
    if index < report::input_records(options, front).len() {
        lemma_input_paths(options, front, index);
        let record = report::input_records(options, front)[index];
        let i = choose|i: int|
            #![trigger front[i]]
            0 <= i < front.len() && record::failing_path(record) == Some(front[i].path);
        assert(inputs[i] == front[i]);
    } else {
        assert(inputs[inputs.len() - 1] == inputs.last());
    }
}

proof fn lemma_root_paths(options: WalkOptions, inputs: Seq<RootInputView>, root: int)
    requires
        0 <= root < report::walked_roots(options, inputs).len(),
    ensures
        exists|i: int|
            #![trigger inputs[i]]
            0 <= i < inputs.len() && inputs[i].path == report::walked_roots(
                options,
                inputs,
            )[root].path,
    decreases inputs.len(),
{
    let front = inputs.drop_last();
    let path = report::walked_roots(options, inputs)[root].path;
    if root < report::walked_roots(options, front).len() {
        lemma_root_paths(options, front, root);
        let i = choose|i: int|
            #![trigger front[i]]
            0 <= i < front.len() && front[i].path == path;
        assert(inputs[i] == front[i]);
    } else {
        assert(inputs[inputs.len() - 1] == inputs.last());
    }
}

proof fn lemma_event_paths(history: History, events: Seq<WalkEventView>, index: int)
    requires
        events.is_prefix_of(history.events),
        0 <= index < report::event_records(history.options, history.roots(), events).len(),
    ensures
        report::event_records(history.options, history.roots(), events)[index] matches Record::Error {
            root,
            path,
            kind,
            ..
        } ==> {
            &&& path matches Some(text) ==> path_is_known(history, text)
            &&& root matches Some(text) ==> path_is_known(history, text)
            &&& path is None <==> kind is Read
        },
    decreases events.len(),
{
    let roots = history.roots();
    let front = events.drop_last();
    if index < report::event_records(history.options, roots, front).len() {
        lemma_event_paths(history, front, index);
    } else {
        let event = events.last();
        assert(history.events[events.len() - 1] == event);
        if event.root < roots.len() {
            lemma_root_paths(history.options, history.inputs, event.root as int);
        }
    }
}

/// Every event but the end of a root has a record: an error where something failed, and an entry
/// otherwise.
pub proof fn law_every_event_has_its_record(
    options: WalkOptions,
    roots: Seq<KnownRoot>,
    earlier: Seq<WalkEventView>,
    event: WalkEventView,
)
    ensures
        ({
            let record = report::event_record(options, roots, earlier, event);
            match event.event {
                EventView::Finished => record is None,
                EventView::Entry { metadata: MetadataView::Failed(_), .. } => record matches Some(
                    record,
                ) && record is Error,
                EventView::Entry { .. } => record matches Some(record) && record is Entry,
                EventView::Failed(_) => record matches Some(record) && record is Error,
            }
        }),
{
}

/// An error of the walk names the input that owns it, whenever the walk says which one it is.
pub proof fn law_errors_name_their_root(
    options: WalkOptions,
    roots: Seq<KnownRoot>,
    earlier: Seq<WalkEventView>,
    event: WalkEventView,
)
    requires
        event.root < roots.len(),
    ensures
        report::event_record(options, roots, earlier, event) matches Some(
            Record::Error { root, .. },
        ) ==> root == Some(roots[event.root as int].path),
{
}

/// Unless file systems may be crossed or hard links are counted, an entry on another device than its
/// root's contributes no bytes.
pub proof fn law_other_devices_count_nothing(
    options: WalkOptions,
    roots: Seq<KnownRoot>,
    earlier: Seq<WalkEventView>,
    event: WalkEventView,
)
    requires
        !options.cross_filesystems,
        !options.count_hard_links,
    ensures
        event.event matches EventView::Entry { metadata: MetadataView::Read(read), .. } ==> (
        read.device_id != report::root_device(roots, event.root) ==> (report::event_record(
            options,
            roots,
            earlier,
            event,
        ) matches Some(Record::Entry { len, allocated, .. }) && len == 0 && allocated == 0)),
{
}

/// Every input is either walked or reported as an error, and all are walked where file systems may
/// be crossed.
pub proof fn law_every_input_is_walked_or_reported(
    options: WalkOptions,
    inputs: Seq<RootInputView>,
)
    ensures
        report::walked_roots(options, inputs).len() + report::input_records(options, inputs).len()
            == inputs.len(),
        options.cross_filesystems ==> report::walked_roots(options, inputs).len() == inputs.len(),
    decreases inputs.len(),
{
    if inputs.len() > 0 {
        law_every_input_is_walked_or_reported(options, inputs.drop_last());
    }
}

/// Unless hard links are counted, a later link to a file that was observed before contributes no
/// bytes, under whatever root and path it turns up.
pub proof fn law_later_links_count_nothing(
    options: WalkOptions,
    roots: Seq<KnownRoot>,
    events: Seq<WalkEventView>,
    first: int,
    later: int,
    id: FileId,
)
    requires
        !options.count_hard_links,
        0 <= first < later < events.len(),
        report::is_link_to(events[first].event, id),
        report::is_link_to(events[later].event, id),
    ensures
        report::event_record(options, roots, events.take(later), events[later]) matches Some(
            Record::Entry { len, allocated, .. },
        ) && len == 0 && allocated == 0,
{
    assert(events.take(later)[first] == events[first]);
}

/// With hard links counted, every entry whose metadata was read reports its sizes in full.
pub proof fn law_counted_links_count_in_full(
    options: WalkOptions,
    roots: Seq<KnownRoot>,
    earlier: Seq<WalkEventView>,
    event: WalkEventView,
)
    requires
        options.count_hard_links,
    ensures
        event.event matches EventView::Entry { is_dir, metadata: MetadataView::Read(read), .. }
            ==> (report::event_record(options, roots, earlier, event) matches Some(
            Record::Entry { len, allocated, .. },
        ) && len == read.len && allocated == crate::walk::allocation(is_dir, read)),
{
}

/// Directories take up no allocated bytes.
pub proof fn law_directories_allocate_nothing(history: History, index: int)
    requires
        0 <= index < history.body().len(),
    ensures
        history.body()[index] matches Record::Entry { is_dir, allocated, .. } ==> (is_dir
            ==> allocated == 0),
{
    let at = lemma_body_has_happened(history, index);
    let before = report::input_records(history.options, history.inputs);
    if at < before.len() {
        report::lemma_input_records_are_errors(history.options, history.inputs);
        assert(history.happened()[at] == before[at]);
    } else {
        lemma_directories(history.options, history.roots(), history.events, at - before.len());
    }
}

proof fn lemma_directories(
    options: WalkOptions,
    roots: Seq<KnownRoot>,
    events: Seq<WalkEventView>,
    index: int,
)
    requires
        0 <= index < report::event_records(options, roots, events).len(),
    ensures
        report::event_records(options, roots, events)[index] matches Record::Entry {
            is_dir,
            allocated,
            ..
        } ==> (is_dir ==> allocated == 0),
    decreases events.len(),
{
    if index < report::event_records(options, roots, events.drop_last()).len() {
        lemma_directories(options, roots, events.drop_last(), index);
    }
}

/// A scan gives an error exactly when the output fails at one of its lines: no failed lookup, no error
/// of the walk and no unread metadata does.
pub proof fn law_only_the_output_fails_a_scan(
    before: Output,
    after: Output,
    whole: History,
    version: Seq<char>,
    result: Result<WalkResult, StreamError>,
)
    requires
        aggregate::comes_to(before, after, whole, version, result),
    ensures
        result is Err <==> (before.fault() matches Some(fault) && fault.after < before@.lines.len()
            + whole.stream(version).len()),
{
}

proof fn lemma_stream_bytes_grow(lines: Seq<Seq<char>>, count: int)
    requires
        0 <= count <= lines.len(),
    ensures
        output::stream_bytes(lines.take(count)).is_prefix_of(output::stream_bytes(lines)),
        count < lines.len() ==> (output::stream_bytes(lines.take(count)) + output::framed(
            lines[count],
        )).is_prefix_of(output::stream_bytes(lines)),
    decreases lines.len(),
{
    if count == lines.len() {
        assert(lines.take(count) =~= lines);
    } else {
        let front = lines.drop_last();
        lemma_stream_bytes_grow(front, count);
        assert(front.take(count) =~= lines.take(count));
        let before = output::stream_bytes(front);
        assert(before =~= output::stream_bytes(lines).take(before.len() as int));
        if count < front.len() {
            assert(front[count] == lines[count]);
        } else {
            assert(lines.take(count) =~= front);
        }
    }
}

/// What is accepted of a stream that stops at one of its lines is a front part of the whole.
proof fn lemma_stopped_at_line(accepted: Seq<u8>, lines: Seq<Seq<char>>, through: int, fault: Fault)
    requires
        0 <= through < lines.len(),
    ensures
        (accepted + output::stream_bytes(lines.take(through)) + output::accepted_of(
            fault,
            lines[through],
        )).is_prefix_of(accepted + output::stream_bytes(lines)),
{
    lemma_stream_bytes_grow(lines, through);
    let all = accepted + output::stream_bytes(lines);
    let part = output::accepted_of(fault, lines[through]);
    let longer = output::stream_bytes(lines.take(through)) + output::framed(lines[through]);
    let stopped = accepted + output::stream_bytes(lines.take(through)) + part;
    assert(longer =~= output::stream_bytes(lines).take(longer.len() as int));
    assert(accepted + longer =~= all.take((accepted + longer).len() as int));
    assert(part =~= output::framed(lines[through]).take(part.len() as int));
    assert(stopped =~= (accepted + longer).take(stopped.len() as int));
    assert(stopped =~= all.take(stopped.len() as int));
}

/// What an output accepts of a scan is a front part of a whole stream of the scan, one line for each of
/// its records, that begins with the lines that got through; it is the whole of it unless writing or
/// flushing failed.
pub proof fn law_stopped_stream_is_a_prefix(
    whole: History,
    version: Seq<char>,
    before: Output,
    after: Output,
    result: Result<WalkResult, StreamError>,
)
    requires
        aggregate::comes_to(before, after, whole, version, result),
    ensures
        exists|lines: Seq<Seq<char>>|
            {
                &&& #[trigger] record::lines_show(lines, 0, whole.stream(version))
                &&& after@.lines.skip(before@.lines.len() as int).is_prefix_of(lines)
                &&& after@.accepted.is_prefix_of(before@.accepted + output::stream_bytes(lines))
                &&& result is Ok ==> after@.accepted == before@.accepted + output::stream_bytes(lines)
            },
{
    let stream = whole.stream(version);
    let through = before.takes(stream.len()) as int;
    let from = before@.lines.len() as int;
    let written = after@.lines.skip(from);
    let failed = choose|line: Seq<char>|
        {
            &&& #[trigger] record::shows(line, stream[through])
            &&& after@.accepted == before@.accepted + output::stream_bytes(written)
                + output::accepted_of(before.fault()->0, line)
        };
    let lines = Seq::new(
        stream.len(),
        |i: int|
            if i < through {
                written[i]
            } else if i == through {
                failed
            } else {
                choose|line: Seq<char>| #[trigger] record::shows(line, stream[i])
            },
    );
    assert forall|i: int| 0 <= i < stream.len() implies record::shows(
        #[trigger] lines[0 + i],
        stream[i],
    ) by {
        if i < through {
            assert(record::shows(after@.lines[from + i], stream.take(through)[i]));
        } else if i > through {
            record::law_record_has_a_line(stream[i]);
        }
    }
    assert(written =~= lines.take(through));
    assert(record::lines_show(lines, 0, stream));
    if through < stream.len() {
        lemma_stopped_at_line(before@.accepted, lines, through, before.fault()->0);
    } else {
        assert(written =~= lines);
    }
}

/// Where writing or flushing fails in one of two runs of a scan and not in the other, the bytes that the
/// first accepted are a front part of those that the second did.
///
/// Up to the line that failed, a record is to fix its line, or to have got the same line in both runs:
/// of a failing path that platforms read differently nothing says that two runs find the same parent.
pub proof fn law_stopped_run_is_a_prefix_of_a_sound_one(
    whole: History,
    version: Seq<char>,
    before: Output,
    after: Output,
    result: Result<WalkResult, StreamError>,
    sound_before: Output,
    sound_after: Output,
    sound_result: Result<WalkResult, StreamError>,
)
    requires
        aggregate::comes_to(before, after, whole, version, result),
        aggregate::comes_to(sound_before, sound_after, whole, version, sound_result),
        sound_before.fault() is None,
        sound_before@.accepted == before@.accepted,
        forall|i: int|
            0 <= i < whole.stream(version).len() && i <= before.takes(whole.stream(version).len())
                ==> (record::fixes_its_line(#[trigger] whole.stream(version)[i]) || (i < before.takes(
                whole.stream(version).len(),
            ) && after@.lines[before@.lines.len() + i] == sound_after@.lines[sound_before@.lines.len()
                + i])),
    ensures
        sound_result is Ok,
        after@.accepted.is_prefix_of(sound_after@.accepted),
        result is Ok ==> after@.accepted == sound_after@.accepted,
{
    let stream = whole.stream(version);
    let through = before.takes(stream.len()) as int;
    let from = before@.lines.len() as int;
    let sound_from = sound_before@.lines.len() as int;
    let lines = after@.lines.skip(from);
    let sound = sound_after@.lines.skip(sound_from);
    assert forall|i: int| 0 <= i < through implies lines[i] == sound[i] by {
        assert(record::shows(after@.lines[from + i], stream.take(through)[i]));
        assert(record::shows(sound_after@.lines[sound_from + i], stream.take(stream.len() as int)[i]));
        if record::fixes_its_line(stream[i]) {
            record::law_record_has_one_line(stream[i], lines[i], sound[i]);
        }
    }
    assert(lines =~= sound.take(through));
    if through < stream.len() {
        let fault = before.fault()->0;
        let line = choose|line: Seq<char>|
            {
                &&& #[trigger] record::shows(line, stream[through])
                &&& after@.accepted == before@.accepted + output::stream_bytes(lines)
                    + output::accepted_of(fault, line)
            };
        assert(record::shows(
            sound_after@.lines[sound_from + through],
            stream.take(stream.len() as int)[through],
        ));
        record::law_record_has_one_line(stream[through], line, sound[through]);
        lemma_stopped_at_line(before@.accepted, sound, through, fault);
    } else {
        assert(sound.take(through) =~= sound);
    }
}

} // verus!
