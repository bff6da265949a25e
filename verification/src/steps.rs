//! What each step of a scan gives, and what a whole scan writes.
//!
//! The laws here are about the results of the executable functions: each says what a call has
//! brought about when it returns, in terms of what went into it.

use crate::account;
use crate::aggregate;
use crate::inodes::{FileId, InodeFilter};
use crate::output;
use crate::output::{Fault, Output, StreamError};
use crate::record;
use crate::record::{ErrorKind, Record, Tally, Totals};
use crate::report;
use crate::report::History;
use crate::scan::Scan;
use crate::walk::{
    Entry, Metadata, MetadataView, RootEvent, RootInput, WalkEvent, WalkEventView, WalkOptions,
    WalkResult, WalkRoot,
};
use crate::wire;
use vstd::prelude::*;

verus! {

/// A scan is announced by its first line, and nothing has happened in it yet.
pub proof fn law_begin(version: &str, options: WalkOptions, roots: usize, begun: (Scan, String))
    requires
        call_ensures(Scan::begin, (version, options, roots), begun),
    ensures
        begun.1@ == wire::hello_text(version@, options.threads as nat, roots as nat),
        begun.0@.options == options,
        begun.0@.announced == roots,
        begun.0@.inputs.len() == 0,
        begun.0@.events.len() == 0,
        begun.0.wf(),
{
    wire::law_hello_line_text(begun.1@, version@, options.threads as nat, roots as nat);
}

/// An input is walked where its device is known or does not matter: under its own path, with its
/// position among all inputs, and with its path for ignore patterns where there are any. It is skipped
/// otherwise. Either way it has been taken in, and nothing else has changed.
pub proof fn law_add_root(scan: &mut Scan, input: RootInput, root: Option<WalkRoot>)
    requires
        call_ensures(Scan::add_root, (scan, input), root),
    ensures
        root is Some <==> old(scan)@.options.cross_filesystems || input.device is Ok,
        root matches Some(root) ==> {
            &&& root.index == old(scan)@.inputs.len()
            &&& root.path@ == input.path@
            &&& old(scan)@.options.cross_filesystems ==> root.device_id == 0
            &&& !old(scan)@.options.cross_filesystems ==> input.device == Ok::<u64, String>(
                root.device_id,
            )
            &&& root.pattern_root is Some <==> old(scan)@.options.ignore_patterns
            &&& root.pattern_root matches Some(text) ==> text@ == input.path@
        },
        final(scan)@.inputs == old(scan)@.inputs.push(input@),
        final(scan)@.events == old(scan)@.events,
        final(scan)@.options == old(scan)@.options,
        final(scan)@.announced == old(scan)@.announced,
        final(scan).wf(),
{
}

/// Whether there is room for another event is whether both counters can still be raised.
pub proof fn law_has_room(scan: &Scan, result: bool)
    requires
        call_ensures(Scan::has_room, (scan,), result),
    ensures
        result <==> account::entries_among(scan@.events) < 0xffff_ffff_ffff_ffff
            && account::skipped_among(scan@.options, scan@.inputs) + account::failures_among(
            scan@.events,
        ) < 0xffff_ffff_ffff_ffff,
{
    account::law_room(scan@);
}

/// The lines that are due when an event has been taken in.
proof fn lemma_due(history: History, event: WalkEventView, lines: Seq<Seq<char>>)
    requires
        record::lines_show(
            lines,
            0,
            history.with_event(event).emitted().skip(history.emitted().len() as int),
        ),
    ensures
        match report::event_record(history.options, history.roots(), history.events, event) {
            Some(next) => if account::has_sound_entry(history.events) {
                lines.len() == 1 && record::shows(lines[0], next)
            } else if account::is_sound_entry(event) {
                &&& lines.len() == 1 + history.happened().len()
                &&& record::shows(lines[0], next)
                &&& forall|k: int|
                    0 <= k < history.happened().len() ==> record::shows(
                        lines[k + 1],
                        #[trigger] history.happened()[k],
                    )
            } else {
                lines.len() == 0
            },
            None => lines.len() == 0,
        },
{
    let after = history.with_event(event);
    let records = history.happened();
    report::lemma_with_event(history, event);
    account::lemma_has_entry(history);
    account::lemma_has_entry(after);
    let fresh = after.emitted().skip(history.emitted().len() as int);
    if let Some(next) = report::event_record(
        history.options,
        history.roots(),
        history.events,
        event,
    ) {
        report::lemma_entry_first_push(records, next);
        if account::has_sound_entry(history.events) {
            assert(fresh =~= seq![next]);
            assert(record::shows(lines[0 + 0int], fresh[0]));
        } else if account::is_sound_entry(event) {
            assert(fresh =~= seq![next] + records);
            assert(record::shows(lines[0 + 0int], fresh[0]));
            assert forall|k: int| 0 <= k < records.len() implies record::shows(
                lines[k + 1],
                #[trigger] records[k],
            ) by {
                assert(record::shows(lines[0 + (k + 1)], fresh[k + 1]));
            }
        } else {
            assert(!(next is Entry));
            assert(fresh =~= Seq::empty());
        }
    } else {
        assert(fresh =~= Seq::empty());
    }
}

/// Taking in an event adds it to what has happened, and changes nothing else.
pub proof fn law_observe_takes_the_event_in(
    scan: &mut Scan,
    root_idx: usize,
    event: RootEvent,
    due: Vec<String>,
)
    requires
        call_ensures(Scan::observe, (scan, root_idx, event), due),
    ensures
        final(scan)@.events == old(scan)@.events.push(
            WalkEventView { root: root_idx as nat, event: event@ },
        ),
        final(scan)@.inputs == old(scan)@.inputs,
        final(scan)@.options == old(scan)@.options,
        final(scan)@.announced == old(scan)@.announced,
        final(scan).wf(),
{
}

/// An entry whose metadata was read has its line at once: with its own path, depth and kind, and with
/// its sizes in full where its bytes count, that is where hard links are all counted, or where it is a
/// directory or the first link to its file and is on the device of its root, or on any where file
/// systems may be crossed.
pub proof fn law_observe_read_entry(
    scan: &mut Scan,
    root_idx: usize,
    event: RootEvent,
    due: Vec<String>,
    entry: Entry,
    read: Metadata,
)
    requires
        call_ensures(Scan::observe, (scan, root_idx, event), due),
        event == RootEvent::Entry(Ok(entry)),
        entry.metadata == Some(Ok::<Metadata, String>(read)),
        root_idx < old(scan)@.roots().len(),
    ensures
        due@.len() >= 1,
        ({
            let options = old(scan)@.options;
            let counts = options.count_hard_links || ((entry.is_dir || !account::was_linked(
                old(scan)@.events,
                read,
            )) && (options.cross_filesystems || read.device_id
                == old(scan)@.roots()[root_idx as int].device_id));
            due@[0]@ == wire::entry_text(
                entry.path@,
                entry.depth as nat,
                entry.is_dir,
                if counts { read.len as nat } else { 0 },
                if counts && !entry.is_dir && read.size_on_disk is Some {
                    read.size_on_disk->0 as nat
                } else {
                    0
                },
            )
        }),
{
    let before = old(scan)@;
    let happened = WalkEventView { root: root_idx as nat, event: event@ };
    let lines = record::texts(due@);
    lemma_due(before, happened, lines);
    account::law_entry_is_reported_as_it_is(
        before.options,
        before.roots(),
        before.events,
        root_idx as nat,
        entry.path@,
        entry.depth as nat,
        entry.is_dir,
        MetadataView::Read(read),
    );
    account::law_sizes_of_an_entry(
        before.options,
        before.roots(),
        before.events,
        root_idx as nat,
        entry.path@,
        entry.depth as nat,
        entry.is_dir,
        read,
    );
    let next = report::event_record(before.options, before.roots(), before.events, happened)->0;
    assert(lines[0] == due@[0]@);
    if let Record::Entry { path, depth, is_dir, len, allocated } = next {
        wire::law_entry_line_text(lines[0], path, depth, is_dir, len, allocated);
    }
}

/// An entry whose metadata was not asked for has its line at once, without sizes.
pub proof fn law_observe_bare_entry(
    scan: &mut Scan,
    root_idx: usize,
    event: RootEvent,
    due: Vec<String>,
    entry: Entry,
)
    requires
        call_ensures(Scan::observe, (scan, root_idx, event), due),
        event == RootEvent::Entry(Ok(entry)),
        entry.metadata is None,
    ensures
        due@.len() >= 1,
        due@[0]@ == wire::entry_text(entry.path@, entry.depth as nat, entry.is_dir, 0, 0),
{
    let before = old(scan)@;
    let happened = WalkEventView { root: root_idx as nat, event: event@ };
    let lines = record::texts(due@);
    lemma_due(before, happened, lines);
    assert(lines[0] == due@[0]@);
    wire::law_entry_line_text(lines[0], entry.path@, entry.depth as nat, entry.is_dir, 0, 0);
}

/// The line of an entry is alone where an entry has come up before. The first that comes up is
/// followed by what came about before it, in order.
pub proof fn law_first_entry_releases_what_waits(
    scan: &mut Scan,
    root_idx: usize,
    event: RootEvent,
    due: Vec<String>,
)
    requires
        call_ensures(Scan::observe, (scan, root_idx, event), due),
        account::is_sound_entry(WalkEventView { root: root_idx as nat, event: event@ }),
    ensures
        account::has_sound_entry(old(scan)@.events) ==> due@.len() == 1,
        !account::has_sound_entry(old(scan)@.events) ==> {
            &&& due@.len() == 1 + old(scan)@.happened().len()
            &&& forall|k: int|
                0 <= k < old(scan)@.happened().len() ==> record::shows(
                    due@[k + 1]@,
                    #[trigger] old(scan)@.happened()[k],
                )
        },
{
    let before = old(scan)@;
    let lines = record::texts(due@);
    lemma_due(before, WalkEventView { root: root_idx as nat, event: event@ }, lines);
    assert forall|k: int|
        !account::has_sound_entry(before.events) && 0 <= k
            < before.happened().len() implies record::shows(
        due@[k + 1]@,
        #[trigger] before.happened()[k],
    ) by {
        assert(lines[k + 1] == due@[k + 1]@);
    }
}

/// A failed look at an entry's metadata has its line at once where an entry has come up before, and
/// waits otherwise: it names the entry, and the root that it is under.
pub proof fn law_observe_failed_metadata(
    scan: &mut Scan,
    root_idx: usize,
    event: RootEvent,
    due: Vec<String>,
    entry: Entry,
    message: String,
) -> (parent: Option<Seq<char>>)
    requires
        call_ensures(Scan::observe, (scan, root_idx, event), due),
        event == RootEvent::Entry(Ok(entry)),
        entry.metadata == Some(Err::<Metadata, String>(message)),
    ensures
        !account::has_sound_entry(old(scan)@.events) ==> due@.len() == 0,
        account::has_sound_entry(old(scan)@.events) ==> {
            &&& due@.len() == 1
            &&& crate::paths::is_parent_of(Some(entry.path@), parent)
            &&& due@[0]@ == wire::error_text(
                if root_idx < old(scan)@.roots().len() {
                    Some(old(scan)@.roots()[root_idx as int].path)
                } else {
                    None
                },
                parent,
                Some(entry.path@),
                ErrorKind::Metadata,
                message@,
            )
        },
{
    let before = old(scan)@;
    let happened = WalkEventView { root: root_idx as nat, event: event@ };
    let lines = record::texts(due@);
    lemma_due(before, happened, lines);
    account::law_failed_metadata_names_the_entry(
        before.options,
        before.roots(),
        before.events,
        root_idx as nat,
        entry.path@,
        entry.depth as nat,
        entry.is_dir,
        message@,
    );
    if account::has_sound_entry(before.events) {
        assert(lines[0] == due@[0]@);
        let root = if root_idx < before.roots().len() {
            Some(before.roots()[root_idx as int].path)
        } else {
            None
        };
        wire::law_error_line_text(
            lines[0],
            root,
            Some(entry.path@),
            ErrorKind::Metadata,
            message@,
        )
    } else {
        None
    }
}

/// A failure without a path has its line at once where an entry has come up before, and waits
/// otherwise. It names the root that it is under. Where that root has not turned up itself, it is a
/// failure of the root, and the root's path is the failing path; in all other cases it is a failure to
/// read, and neither a path nor a parent is named.
pub proof fn law_observe_failure(
    scan: &mut Scan,
    root_idx: usize,
    event: RootEvent,
    due: Vec<String>,
    message: String,
) -> (parent: Option<Seq<char>>)
    requires
        call_ensures(Scan::observe, (scan, root_idx, event), due),
        event == RootEvent::Entry(Err::<Entry, String>(message)),
    ensures
        !account::has_sound_entry(old(scan)@.events) ==> due@.len() == 0,
        account::has_sound_entry(old(scan)@.events) ==> due@.len() == 1,
        account::has_sound_entry(old(scan)@.events) && root_idx < old(scan)@.roots().len() ==> {
            let root = old(scan)@.roots()[root_idx as int].path;
            if account::root_turned_up(old(scan)@.events, root_idx as nat) {
                due@[0]@ == wire::error_text(Some(root), None, None, ErrorKind::Read, message@)
            } else {
                &&& crate::paths::is_parent_of(Some(root), parent)
                &&& due@[0]@ == wire::error_text(
                    Some(root),
                    parent,
                    Some(root),
                    ErrorKind::Root,
                    message@,
                )
            }
        },
        account::has_sound_entry(old(scan)@.events) && root_idx >= old(scan)@.roots().len()
            ==> due@[0]@ == wire::error_text(None, None, None, ErrorKind::Read, message@),
{
    let before = old(scan)@;
    let happened = WalkEventView { root: root_idx as nat, event: event@ };
    let lines = record::texts(due@);
    lemma_due(before, happened, lines);
    account::law_failure_is_attributed(
        before.options,
        before.roots(),
        before.events,
        root_idx as nat,
        message@,
    );
    let next = report::event_record(before.options, before.roots(), before.events, happened)->0;
    if account::has_sound_entry(before.events) {
        assert(lines[0] == due@[0]@);
        match next {
            Record::Error { root, path, kind, message: said } => wire::law_error_line_text(
                lines[0],
                root,
                path,
                kind,
                said,
            ),
            _ => None,
        }
    } else {
        None
    }
}

/// The end of a root has no line.
pub proof fn law_observe_end_of_root(
    scan: &mut Scan,
    root_idx: usize,
    event: RootEvent,
    due: Vec<String>,
)
    requires
        call_ensures(Scan::observe, (scan, root_idx, event), due),
        event is Finished,
    ensures
        due@.len() == 0,
{
    lemma_due(
        old(scan)@,
        WalkEventView { root: root_idx as nat, event: event@ },
        record::texts(due@),
    );
}

/// The counters and sizes of a scan: what came up in it, counted, and the sizes of its entries, added
/// up as far as a number goes.
pub open spec fn tally_of(history: History) -> Tally {
    Tally {
        entries: account::entries_among(history.events),
        dirs: account::dirs_among(history.events),
        files: account::files_among(history.events),
        errors: errors_of(history),
        apparent_bytes: if account::apparent_total(history.happened()) <= 0xffff_ffff_ffff_ffff {
            account::apparent_total(history.happened())
        } else {
            0xffff_ffff_ffff_ffff
        },
        allocated_bytes: if account::allocated_total(history.happened()) <= 0xffff_ffff_ffff_ffff {
            account::allocated_total(history.happened())
        } else {
            0xffff_ffff_ffff_ffff
        },
    }
}

/// The number of errors of a scan: its skipped inputs, and the failures of its walk.
pub open spec fn errors_of(history: History) -> nat {
    account::skipped_among(history.options, history.inputs) + account::failures_among(
        history.events,
    )
}

proof fn lemma_tally(history: History)
    ensures
        record::tally(history.body()) == tally_of(history),
{
    account::law_counters(history);
    account::law_sizes_add_up(history.happened());
}

/// A scan ends with its counters and sizes, and with whether there were errors; what still waits comes
/// before, in order. The result is the number of errors.
pub proof fn law_finish(scan: Scan, closed: (Vec<String>, WalkResult))
    requires
        call_ensures(Scan::finish, (scan,), closed),
    ensures
        ({
            let waiting = if account::has_sound_entry(scan@.events) {
                0
            } else {
                scan@.happened().len() as int
            };
            &&& closed.0@.len() == waiting + 2
            &&& forall|k: int|
                0 <= k < waiting ==> record::shows(
                    closed.0@[k]@,
                    #[trigger] scan@.happened()[k],
                )
            &&& closed.0@[waiting]@ == wire::summary_text(tally_of(scan@))
            &&& closed.0@[waiting + 1]@ == wire::done_text(errors_of(scan@))
            &&& closed.1.num_errors == errors_of(scan@)
        }),
{
    let history = scan@;
    let lines = record::texts(closed.0@);
    let waiting = if account::has_sound_entry(history.events) {
        0
    } else {
        history.happened().len() as int
    };
    lemma_tally(history);
    account::law_counters(history);
    account::lemma_has_entry(history);
    if account::has_sound_entry(history.events) {
    } else {
        account::law_without_entries_all_records_wait(history);
    }
    let behind = history.body().skip(history.emitted().len() as int);
    assert(behind.len() == waiting);
    assert(record::shows(lines[0 + waiting], history.closing()[waiting]));
    assert(record::shows(lines[0 + (waiting + 1)], history.closing()[waiting + 1]));
    wire::law_summary_line_text(lines[waiting], tally_of(history));
    wire::law_done_line_text(lines[waiting + 1], errors_of(history));
    assert forall|k: int| 0 <= k < waiting implies record::shows(
        closed.0@[k]@,
        #[trigger] history.happened()[k],
    ) by {
        assert(record::shows(lines[0 + k], history.closing()[k]));
        assert(behind =~= history.happened());
    }
}

/// Observing a file says whether it was observed before. A directory is never taken for one observed
/// before, and leaves no trace.
pub proof fn law_observed_files(filter: &mut InodeFilter, is_dir: bool, id: FileId, first: bool)
    requires
        call_ensures(InodeFilter::add, (filter, is_dir, id), first),
    ensures
        is_dir ==> first,
        !is_dir ==> (first <==> !old(filter)@.contains(id)),
        forall|other: FileId| #[trigger]
            final(filter)@.contains(other) <==> old(filter)@.contains(other) || (!is_dir
                && other.volume == id.volume && other.file == id.file),
{
}

/// An output begins without a line, with the bytes it was given, and fails as it was told.
pub proof fn law_new_output(accepted: Vec<u8>, fault: Option<Fault>, output: Output)
    requires
        call_ensures(Output::new, (accepted, fault), output),
    ensures
        output@.lines.len() == 0,
        output@.accepted == accepted@,
        output.fault() == fault,
{
}

/// What an output says of itself is what it was given.
pub proof fn law_output_tells(
    output: &Output,
    index: usize,
    count: usize,
    line: &str,
    bytes: &Vec<u8>,
)
    requires
        call_ensures(Output::len, (output,), count),
        call_ensures(Output::line, (output, index), line),
        call_ensures(Output::accepted, (output,), bytes),
    ensures
        count == output@.lines.len(),
        line@ == output@.lines[index as int],
        bytes@ == output@.accepted,
{
}

/// A line gets through unless the output has taken as many as it does. A line that gets through is
/// kept, and its bytes and those of its line end are accepted. At a line that does not get through
/// the output says what was told, and keeps no line; where writing failed a front part of the bytes
/// has been accepted, of the size that was told or the whole, and where flushing failed all of them.
pub proof fn law_write_flushed(out: &mut Output, line: String, result: Result<(), StreamError>)
    requires
        call_ensures(output::write_flushed, (out, line), result),
    ensures
        final(out).fault() == old(out).fault(),
        result is Err <==> (old(out).fault() matches Some(fault) && fault.after
            <= old(out)@.lines.len()),
        result is Ok ==> {
            &&& final(out)@.lines == old(out)@.lines.push(line@)
            &&& final(out)@.accepted == old(out)@.accepted + vstd::utf8::encode_utf8(
                line@.push('\n'),
            )
        },
        result matches Err(error) ==> {
            let fault = old(out).fault()->0;
            let bytes = vstd::utf8::encode_utf8(line@.push('\n'));
            &&& error == fault.error
            &&& final(out)@.lines == old(out)@.lines
            &&& error.stage is Flush ==> final(out)@.accepted == old(out)@.accepted + bytes
            &&& error.stage is Write && bytes.len() <= fault.partial ==> final(out)@.accepted
                == old(out)@.accepted + bytes
            &&& error.stage is Write && bytes.len() > fault.partial ==> final(out)@.accepted
                == old(out)@.accepted + bytes.take(fault.partial as int)
        },
{
}

/// The bytes of some lines are the bytes of each, with a line end behind it, in order.
pub proof fn law_bytes_of_lines(lines: Seq<Seq<char>>, next: Seq<char>)
    ensures
        output::stream_bytes(Seq::empty()).len() == 0,
        output::stream_bytes(lines.push(next)) == output::stream_bytes(lines)
            + vstd::utf8::encode_utf8(next.push('\n')),
{
    assert(lines.push(next).drop_last() =~= lines);
}

/// What has happened in a scan of `paths` whose walk brings up `events`.
pub open spec fn happening(
    options: WalkOptions,
    paths: Seq<RootInput>,
    events: Seq<WalkEvent>,
) -> History {
    History {
        options,
        announced: paths.len(),
        inputs: paths.map_values(|input: RootInput| input@),
        events: events.map_values(|event: WalkEvent| event@),
    }
}

/// The number of lines of a whole scan.
pub open spec fn line_count(history: History) -> nat {
    account::skipped_among(history.options, history.inputs) + account::telling_among(history.events)
        + 3
}

proof fn lemma_whole_scan(
    before: Output,
    after: Output,
    options: WalkOptions,
    paths: Seq<RootInput>,
    events: Seq<WalkEvent>,
    version: Seq<char>,
    result: Result<WalkResult, StreamError>,
)
    requires
        aggregate::comes_to(
            before,
            after,
            aggregate::history_of(options, paths, events),
            version,
            result,
        ),
    ensures
        aggregate::comes_to(before, after, happening(options, paths, events), version, result),
        happening(options, paths, events).stream(version).len() == line_count(
            happening(options, paths, events),
        ),
{
    let history = happening(options, paths, events);
    let other = aggregate::history_of(options, paths, events);
    assert(history.inputs =~= other.inputs);
    assert(history.events =~= other.events);
    account::law_stream_from_first_to_last(history, version);
    account::law_one_record_each(history);
}

/// A scan fails exactly when the output fails at one of its lines, whatever the inputs and the walk
/// bring up, and says what the output said. What was in the output stays, and the lines behind it are
/// as many as the output takes: all of them where the scan does not fail.
pub proof fn law_whole_scan_stops_with_the_output(
    out: &mut Output,
    version: &str,
    options: WalkOptions,
    paths: Vec<RootInput>,
    events: Vec<WalkEvent>,
    result: Result<WalkResult, StreamError>,
)
    requires
        call_ensures(
            aggregate::aggregate_jsonl,
            (out, version, options, paths, events),
            result,
        ),
    ensures
        ({
            let count = line_count(happening(options, paths@, events@));
            let from = old(out)@.lines.len();
            &&& result is Err <==> (old(out).fault() matches Some(fault) && fault.after < from
                + count)
            &&& result matches Err(error) ==> {
                let fault = old(out).fault()->0;
                &&& error == fault.error
                &&& final(out)@.lines.len() == (if fault.after <= from {
                    from
                } else {
                    fault.after as nat
                })
            }
            &&& result is Ok ==> final(out)@.lines.len() == from + count
            &&& final(out)@.lines.take(from as int) == old(out)@.lines
        }),
{
    let history = happening(options, paths@, events@);
    lemma_whole_scan(*old(out), *final(out), options, paths@, events@, version@, result);
    let stream = history.stream(version@);
    let through = old(out).takes(stream.len());
    assert(stream.take(through as int).len() == through);
}

/// What a scan writes are the bytes of its lines, in order and behind what was there. Where the output
/// fails, there may be bytes of the line that it failed at, and there is nothing behind them.
pub proof fn law_whole_scan_writes_its_lines(
    out: &mut Output,
    version: &str,
    options: WalkOptions,
    paths: Vec<RootInput>,
    events: Vec<WalkEvent>,
    result: Result<WalkResult, StreamError>,
)
    requires
        call_ensures(
            aggregate::aggregate_jsonl,
            (out, version, options, paths, events),
            result,
        ),
    ensures
        ({
            let from = old(out)@.lines.len();
            let written = old(out)@.accepted + output::stream_bytes(
                final(out)@.lines.skip(from as int),
            );
            let next = final(out)@.lines.len() - from;
            &&& result is Ok ==> final(out)@.accepted == written
            &&& result matches Err(error) ==> exists|line: Seq<char>|
                {
                    let bytes = vstd::utf8::encode_utf8(line.push('\n'));
                    let partial = (old(out).fault()->0).partial;
                    &&& #[trigger] record::shows(
                        line,
                        happening(options, paths@, events@).stream(version@)[next],
                    )
                    &&& error.stage is Flush || bytes.len() <= partial ==> final(out)@.accepted
                        == written + bytes
                    &&& error.stage is Write && bytes.len() > partial ==> final(out)@.accepted
                        == written + bytes.take(partial as int)
                }
        }),
{
    let history = happening(options, paths@, events@);
    lemma_whole_scan(*old(out), *final(out), options, paths@, events@, version@, result);
    let stream = history.stream(version@);
    let through = old(out).takes(stream.len());
    assert(stream.take(through as int).len() == through);
    if result is Err {
        let fault = old(out).fault()->0;
        let written = old(out)@.accepted + output::stream_bytes(
            final(out)@.lines.skip(old(out)@.lines.len() as int),
        );
        let line = choose|line: Seq<char>|
            {
                &&& #[trigger] record::shows(line, stream[through as int])
                &&& final(out)@.accepted == written + output::accepted_of(fault, line)
            };
        assert(record::shows(line, stream[through as int]));
    }
}

/// A scan that does not fail is announced first, with the number of its inputs, and ends with its
/// counters and sizes and with whether there were errors. The result is the number of errors.
pub proof fn law_whole_scan_begins_and_ends(
    out: &mut Output,
    version: &str,
    options: WalkOptions,
    paths: Vec<RootInput>,
    events: Vec<WalkEvent>,
    result: Result<WalkResult, StreamError>,
)
    requires
        call_ensures(
            aggregate::aggregate_jsonl,
            (out, version, options, paths, events),
            result,
        ),
        result is Ok,
    ensures
        ({
            let history = happening(options, paths@, events@);
            let count = line_count(history) as int;
            let from = old(out)@.lines.len();
            let lines = final(out)@.lines;
            &&& lines.len() == from + count
            &&& lines[from as int] == wire::hello_text(
                version@,
                options.threads as nat,
                paths@.len(),
            )
            &&& lines[from + count - 2] == wire::summary_text(tally_of(history))
            &&& lines[from + count - 1] == wire::done_text(errors_of(history))
            &&& result matches Ok(walked) && walked.num_errors == errors_of(history)
        }),
{
    let history = happening(options, paths@, events@);
    let count = line_count(history) as int;
    let from = old(out)@.lines.len();
    let lines = final(out)@.lines;
    lemma_whole_scan(*old(out), *final(out), options, paths@, events@, version@, result);
    account::law_stream_from_first_to_last(history, version@);
    account::law_counters(history);
    lemma_tally(history);
    let stream = history.stream(version@);
    assert(stream.take(stream.len() as int) =~= stream);
    assert(record::shows(lines[from + 0int], stream[0]));
    assert(record::shows(lines[from + (count - 2)], stream[count - 2]));
    assert(record::shows(lines[from + (count - 1)], stream[count - 1]));
    wire::law_hello_line_text(
        lines[from as int],
        version@,
        options.threads as nat,
        paths@.len(),
    );
    wire::law_summary_line_text(lines[from + count - 2], tally_of(history));
    wire::law_done_line_text(lines[from + count - 1], errors_of(history));
}

/// The position among the lines of a scan of the line for an event, where the first entry comes up at
/// `first`: that entry is right behind the announcement, what came about before it is one further
/// down than it came about, and everything else is where it came about.
pub open spec fn line_of_event(history: History, first: int, index: int) -> int {
    if index == first {
        1
    } else if index < first {
        account::place_of(history, index) + 2int
    } else {
        account::place_of(history, index) + 1int
    }
}

proof fn lemma_places_ascend(history: History, a: int, b: int)
    requires
        0 <= a < b <= history.events.len(),
        !(history.events[a].event is Finished),
    ensures
        account::place_of(history, a) < account::place_of(history, b),
    decreases b,
{
    reveal(Seq::filter);
    let front = history.events.take(b);
    assert(front.drop_last() =~= history.events.take(b - 1));
    assert(front.last() == history.events[b - 1]);
    if a < b - 1 {
        lemma_places_ascend(history, a, b - 1);
    }
}

proof fn lemma_line_of_event(history: History, version: Seq<char>, first: int, index: int)
    requires
        0 <= first < history.events.len(),
        account::is_sound_entry(history.events[first]),
        forall|i: int| 0 <= i < first ==> !(#[trigger] account::is_sound_entry(history.events[i])),
        0 <= index < history.events.len(),
        !(history.events[index].event is Finished),
    ensures
        ({
            let at = line_of_event(history, first, index);
            &&& 1 <= at < history.stream(version).len() - 2
            &&& report::event_record(
                history.options,
                history.roots(),
                history.events.take(index),
                history.events[index],
            ) == Some(history.stream(version)[at])
        }),
{
    let at = line_of_event(history, first, index);
    let records = history.happened();
    let place = account::place_of(history, first) as int;
    account::law_first_entry_is_emitted_first(history, first);
    account::law_record_of_event(history, index);
    account::law_stream_from_first_to_last(history, version);
    if index < first {
        lemma_places_ascend(history, index, first);
    } else if index > first {
        lemma_places_ascend(history, first, index);
    }
    assert(history.stream(version)[(at - 1) + 1] == history.body()[at - 1]);
    assert(history.body()[at - 1] == records[account::place_of(history, index) as int]);
}

/// Every entry whose metadata was read has its line in the stream of a scan, at its position, unless
/// the output failed before: with its own path, depth and kind, and with its sizes in full where its
/// bytes count.
pub proof fn law_whole_scan_shows_every_read_entry(
    out: &mut Output,
    version: &str,
    options: WalkOptions,
    paths: Vec<RootInput>,
    events: Vec<WalkEvent>,
    result: Result<WalkResult, StreamError>,
    first: int,
    index: int,
    entry: Entry,
    read: Metadata,
)
    requires
        call_ensures(
            aggregate::aggregate_jsonl,
            (out, version, options, paths, events),
            result,
        ),
        ({
            let history = happening(options, paths@, events@);
            &&& 0 <= first < events@.len()
            &&& account::is_sound_entry(history.events[first])
            &&& forall|i: int|
                0 <= i < first ==> !(#[trigger] account::is_sound_entry(history.events[i]))
            &&& 0 <= index < events@.len()
            &&& events@[index].event == RootEvent::Entry(Ok(entry))
            &&& entry.metadata == Some(Ok::<Metadata, String>(read))
            &&& events@[index].root < history.roots().len()
        }),
    ensures
        ({
            let history = happening(options, paths@, events@);
            let at = old(out)@.lines.len() + line_of_event(history, first, index);
            let counts = options.count_hard_links || ((entry.is_dir || !account::was_linked(
                history.events.take(index),
                read,
            )) && (options.cross_filesystems || read.device_id
                == history.roots()[events@[index].root as int].device_id));
            &&& result is Ok ==> at < final(out)@.lines.len()
            &&& at < final(out)@.lines.len() ==> final(out)@.lines[at] == wire::entry_text(
                entry.path@,
                entry.depth as nat,
                entry.is_dir,
                if counts { read.len as nat } else { 0 },
                if counts && !entry.is_dir && read.size_on_disk is Some {
                    read.size_on_disk->0 as nat
                } else {
                    0
                },
            )
        }),
{
    let history = happening(options, paths@, events@);
    let event = history.events[index];
    let earlier = history.events.take(index);
    let at = line_of_event(history, first, index);
    let from = old(out)@.lines.len();
    let lines = final(out)@.lines;
    lemma_whole_scan(*old(out), *final(out), options, paths@, events@, version@, result);
    assert(event == events@[index]@);
    lemma_line_of_event(history, version@, first, index);
    account::law_entry_is_reported_as_it_is(
        options,
        history.roots(),
        earlier,
        event.root,
        entry.path@,
        entry.depth as nat,
        entry.is_dir,
        MetadataView::Read(read),
    );
    account::law_sizes_of_an_entry(
        options,
        history.roots(),
        earlier,
        event.root,
        entry.path@,
        entry.depth as nat,
        entry.is_dir,
        read,
    );
    let stream = history.stream(version@);
    let through = old(out).takes(stream.len());
    if from + at < lines.len() {
        assert(record::shows(lines[from + at], stream.take(through as int)[at]));
        if let Record::Entry { path, depth, is_dir, len, allocated } = stream[at] {
            wire::law_entry_line_text(lines[from + at], path, depth, is_dir, len, allocated);
        }
    }
}

/// Every failure without a path has its line in the stream of a scan, at its position, unless the
/// output failed before: it names its root, and no path, where the root has turned up before, and the
/// root as the failing path where it has not.
pub proof fn law_whole_scan_shows_every_failure(
    out: &mut Output,
    version: &str,
    options: WalkOptions,
    paths: Vec<RootInput>,
    events: Vec<WalkEvent>,
    result: Result<WalkResult, StreamError>,
    first: int,
    index: int,
    message: String,
)
    requires
        call_ensures(
            aggregate::aggregate_jsonl,
            (out, version, options, paths, events),
            result,
        ),
        ({
            let history = happening(options, paths@, events@);
            &&& 0 <= first < events@.len()
            &&& account::is_sound_entry(history.events[first])
            &&& forall|i: int|
                0 <= i < first ==> !(#[trigger] account::is_sound_entry(history.events[i]))
            &&& 0 <= index < events@.len()
            &&& events@[index].event == RootEvent::Entry(Err::<Entry, String>(message))
            &&& events@[index].root < history.roots().len()
        }),
    ensures
        ({
            let history = happening(options, paths@, events@);
            let at = old(out)@.lines.len() + line_of_event(history, first, index);
            let root = history.roots()[events@[index].root as int].path;
            let turned_up = account::root_turned_up(
                history.events.take(index),
                events@[index].root as nat,
            );
            &&& result is Ok ==> at < final(out)@.lines.len()
            &&& at < final(out)@.lines.len() && turned_up ==> final(out)@.lines[at]
                == wire::error_text(Some(root), None, None, ErrorKind::Read, message@)
            &&& at < final(out)@.lines.len() && !turned_up ==> exists|parent: Option<Seq<char>>|
                {
                    &&& crate::paths::is_parent_of(Some(root), parent)
                    &&& final(out)@.lines[at] == #[trigger] wire::error_text(
                        Some(root),
                        parent,
                        Some(root),
                        ErrorKind::Root,
                        message@,
                    )
                }
        }),
{
    let history = happening(options, paths@, events@);
    let event = history.events[index];
    let earlier = history.events.take(index);
    let at = line_of_event(history, first, index);
    let from = old(out)@.lines.len();
    let lines = final(out)@.lines;
    lemma_whole_scan(*old(out), *final(out), options, paths@, events@, version@, result);
    assert(event == events@[index]@);
    lemma_line_of_event(history, version@, first, index);
    account::law_failure_is_attributed(options, history.roots(), earlier, event.root, message@);
    let stream = history.stream(version@);
    let through = old(out).takes(stream.len());
    if from + at < lines.len() {
        assert(record::shows(lines[from + at], stream.take(through as int)[at]));
        if let Record::Error { root, path, kind, message: said } = stream[at] {
            let parent = wire::law_error_line_text(lines[from + at], root, path, kind, said);
            assert(lines[from + at] == wire::error_text(root, parent, path, kind, said));
        }
    }
}

/// Every event of the walk but the end of a root has its line in the stream of a scan, at its position,
/// unless the output failed before.
pub proof fn law_whole_scan_shows_every_event(
    out: &mut Output,
    version: &str,
    options: WalkOptions,
    paths: Vec<RootInput>,
    events: Vec<WalkEvent>,
    result: Result<WalkResult, StreamError>,
    first: int,
    index: int,
)
    requires
        call_ensures(
            aggregate::aggregate_jsonl,
            (out, version, options, paths, events),
            result,
        ),
        ({
            let history = happening(options, paths@, events@);
            &&& 0 <= first < events@.len()
            &&& account::is_sound_entry(history.events[first])
            &&& forall|i: int|
                0 <= i < first ==> !(#[trigger] account::is_sound_entry(history.events[i]))
            &&& 0 <= index < events@.len()
            &&& !(events@[index].event is Finished)
        }),
    ensures
        ({
            let history = happening(options, paths@, events@);
            let at = old(out)@.lines.len() + line_of_event(history, first, index);
            &&& result is Ok ==> at < final(out)@.lines.len()
            &&& at < final(out)@.lines.len() ==> (report::event_record(
                options,
                history.roots(),
                history.events.take(index),
                history.events[index],
            ) matches Some(record) && record::shows(final(out)@.lines[at], record))
        }),
{
    let history = happening(options, paths@, events@);
    let at = line_of_event(history, first, index);
    let from = old(out)@.lines.len();
    let lines = final(out)@.lines;
    lemma_whole_scan(*old(out), *final(out), options, paths@, events@, version@, result);
    assert(history.events[index] == events@[index]@);
    lemma_line_of_event(history, version@, first, index);
    let stream = history.stream(version@);
    let through = old(out).takes(stream.len());
    if from + at < lines.len() {
        assert(record::shows(lines[from + at], stream.take(through as int)[at]));
    }
}

/// Where in the stream the record of a skipped input stands.
proof fn lemma_line_of_skipped_input(
    history: History,
    version: Seq<char>,
    index: int,
    message: Seq<char>,
) -> (at: int)
    requires
        0 <= index < history.inputs.len(),
        !history.options.cross_filesystems,
        history.inputs[index].device == Err::<u64, Seq<char>>(message),
    ensures
        at == account::skipped_among(history.options, history.inputs.take(index)) + (
        if account::has_sound_entry(history.events) {
            2int
        } else {
            1int
        }),
        1 <= at < history.stream(version).len() - 2,
        history.stream(version)[at] == (Record::Error {
            root: Some(history.inputs[index].path),
            path: Some(history.inputs[index].path),
            kind: ErrorKind::Root,
            message,
        }),
{
    let place = account::skipped_among(history.options, history.inputs.take(index)) as int;
    let stream = history.stream(version);
    account::law_skipped_input_is_reported(history, index);
    account::law_stream_from_first_to_last(history, version);
    if account::has_sound_entry(history.events) {
        let first = lemma_first_entry(history.events);
        account::law_first_entry_is_emitted_first(history, first);
        account::lemma_skipped_before(history, index);
        assert(history.body()[place + 1] == history.happened()[place]);
        assert(stream[(place + 1) + 1] == history.body()[place + 1]);
        place + 2
    } else {
        account::law_without_entries_all_records_wait(history);
        assert(stream[place + 1] == history.body()[place]);
        place + 1
    }
}

/// Every skipped input has its line in the stream of a scan, in the order of the inputs and behind the
/// first entry where one comes up, unless the output failed before. It names the input, and what the
/// lookup of its device said.
pub proof fn law_whole_scan_shows_every_skipped_input(
    out: &mut Output,
    version: &str,
    options: WalkOptions,
    paths: Vec<RootInput>,
    events: Vec<WalkEvent>,
    result: Result<WalkResult, StreamError>,
    index: int,
    message: String,
)
    requires
        call_ensures(
            aggregate::aggregate_jsonl,
            (out, version, options, paths, events),
            result,
        ),
        0 <= index < paths@.len(),
        !options.cross_filesystems,
        paths@[index].device == Err::<u64, String>(message),
    ensures
        ({
            let history = happening(options, paths@, events@);
            let path = paths@[index].path@;
            let at = old(out)@.lines.len() + account::skipped_among(
                options,
                history.inputs.take(index),
            ) + (if account::has_sound_entry(history.events) { 2int } else { 1int });
            &&& result is Ok ==> at < final(out)@.lines.len()
            &&& at < final(out)@.lines.len() ==> exists|parent: Option<Seq<char>>|
                {
                    &&& crate::paths::is_parent_of(Some(path), parent)
                    &&& final(out)@.lines[at] == #[trigger] wire::error_text(
                        Some(path),
                        parent,
                        Some(path),
                        ErrorKind::Root,
                        message@,
                    )
                }
        }),
{
    let history = happening(options, paths@, events@);
    let path = paths@[index].path@;
    let from = old(out)@.lines.len();
    let lines = final(out)@.lines;
    lemma_whole_scan(*old(out), *final(out), options, paths@, events@, version@, result);
    assert(history.inputs[index] == paths@[index]@);
    let at = lemma_line_of_skipped_input(history, version@, index, message@);
    let stream = history.stream(version@);
    let through = old(out).takes(stream.len());
    if from + at < lines.len() {
        assert(record::shows(lines[from + at], stream.take(through as int)[at]));
        let parent = wire::law_error_line_text(
            lines[from + at],
            Some(path),
            Some(path),
            ErrorKind::Root,
            message@,
        );
        assert(lines[from + at] == wire::error_text(
            Some(path),
            parent,
            Some(path),
            ErrorKind::Root,
            message@,
        ));
    }
}

/// The first entry that comes up.
proof fn lemma_first_entry(events: Seq<WalkEventView>) -> (first: int)
    requires
        account::has_sound_entry(events),
    ensures
        0 <= first < events.len(),
        account::is_sound_entry(events[first]),
        forall|i: int| 0 <= i < first ==> !(#[trigger] account::is_sound_entry(events[i])),
    decreases events.len(),
{
    let front = events.drop_last();
    if account::has_sound_entry(front) {
        let first = lemma_first_entry(front);
        assert forall|i: int| 0 <= i < first implies !(#[trigger] account::is_sound_entry(
            events[i],
        )) by {
            assert(front[i] == events[i]);
        }
        first
    } else {
        let first = events.len() - 1;
        assert forall|i: int| 0 <= i < first implies !(#[trigger] account::is_sound_entry(
            events[i],
        )) by {
            assert(front[i] == events[i]);
        }
        let i = choose|i: int| 0 <= i < events.len() && #[trigger] account::is_sound_entry(events[i]);
        first
    }
}

/// Where no entry comes up, the records have their lines in the order in which they came about, behind
/// the announcement, unless the output failed before.
pub proof fn law_whole_scan_without_entries(
    out: &mut Output,
    version: &str,
    options: WalkOptions,
    paths: Vec<RootInput>,
    events: Vec<WalkEvent>,
    result: Result<WalkResult, StreamError>,
    index: int,
)
    requires
        call_ensures(
            aggregate::aggregate_jsonl,
            (out, version, options, paths, events),
            result,
        ),
        ({
            let history = happening(options, paths@, events@);
            &&& !account::has_sound_entry(history.events)
            &&& 0 <= index < events@.len()
            &&& !(events@[index].event is Finished)
        }),
    ensures
        ({
            let history = happening(options, paths@, events@);
            let at = old(out)@.lines.len() + account::place_of(history, index) + 1;
            &&& result is Ok ==> at < final(out)@.lines.len()
            &&& at < final(out)@.lines.len() ==> (report::event_record(
                options,
                history.roots(),
                history.events.take(index),
                history.events[index],
            ) matches Some(record) && record::shows(final(out)@.lines[at as int], record))
        }),
{
    let history = happening(options, paths@, events@);
    let place = account::place_of(history, index) as int;
    let from = old(out)@.lines.len();
    let lines = final(out)@.lines;
    lemma_whole_scan(*old(out), *final(out), options, paths@, events@, version@, result);
    assert(history.events[index] == events@[index]@);
    account::law_without_entries_all_records_wait(history);
    account::law_record_of_event(history, index);
    account::law_stream_from_first_to_last(history, version@);
    let stream = history.stream(version@);
    let through = old(out).takes(stream.len());
    assert(stream[place + 1] == history.body()[place]);
    if from + place + 1 < lines.len() {
        assert(record::shows(lines[from + (place + 1)], stream.take(through as int)[place + 1]));
    }
}

/// A scan takes every event while there is room, every input that it was announced with before its
/// walk begins, and can be ended at any time.
pub proof fn law_scan_takes_what_comes(
    scan: &mut Scan,
    input: RootInput,
    root_idx: usize,
    event: RootEvent,
)
    requires
        old(scan).wf(),
    ensures
        account::entries_among(old(scan)@.events) < 0xffff_ffff_ffff_ffff && account::skipped_among(
            old(scan)@.options,
            old(scan)@.inputs,
        ) + account::failures_among(old(scan)@.events) < 0xffff_ffff_ffff_ffff ==> call_requires(
            Scan::observe,
            (scan, root_idx, event),
        ),
        old(scan)@.inputs.len() < old(scan)@.announced && old(scan)@.events.len() == 0 ==> call_requires(
            Scan::add_root,
            (scan, input),
        ),
        call_requires(Scan::has_room, (old(scan),)),
        call_requires(Scan::finish, (*old(scan),)),
{
    account::law_room(old(scan)@);
}

/// A whole scan can be asked for with any inputs and events that can be counted, on any output.
pub proof fn law_whole_scan_takes_what_comes(
    out: &mut Output,
    version: &str,
    options: WalkOptions,
    paths: Vec<RootInput>,
    events: Vec<WalkEvent>,
)
    requires
        paths@.len() + events@.len() <= 0xffff_ffff_ffff_ffff,
    ensures
        call_requires(aggregate::aggregate_jsonl, (out, version, options, paths, events)),
{
}

/// Nothing has been observed at first.
pub proof fn law_nothing_observed_at_first(filter: InodeFilter)
    requires
        call_ensures(InodeFilter::default, (), filter),
    ensures
        forall|id: FileId| !(#[trigger] filter@.contains(id)),
{
}

/// Nothing has been counted at first.
pub proof fn law_nothing_counted_at_first(totals: Totals)
    requires
        call_ensures(Totals::default, (), totals),
    ensures
        totals.entries == 0,
        totals.dirs == 0,
        totals.files == 0,
        totals.errors == 0,
        totals.apparent_bytes == 0,
        totals.allocated_bytes == 0,
{
}

} // verus!
