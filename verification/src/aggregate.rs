//! A whole scan, from its first line to its last.

use crate::output;
use crate::output::{Output, StreamError};
use crate::record;
use crate::record::Record;
use crate::report;
use crate::report::History;
use crate::scan::Scan;
use crate::walk::{RootInput, RootInputView, WalkEvent, WalkEventView, WalkOptions, WalkResult};
use vstd::prelude::*;

verus! {

/// The values of some inputs.
pub open spec fn inputs_of(paths: Seq<RootInput>) -> Seq<RootInputView> {
    Seq::new(paths.len(), |i: int| paths[i]@)
}

/// The values of some events.
pub open spec fn events_of(events: Seq<WalkEvent>) -> Seq<WalkEventView> {
    Seq::new(events.len(), |i: int| events[i]@)
}

/// The history of a scan of `paths` whose walk brings up `events`.
pub open spec fn history_of(
    options: WalkOptions,
    paths: Seq<RootInput>,
    events: Seq<WalkEvent>,
) -> History {
    History {
        options,
        announced: paths.len(),
        inputs: inputs_of(paths),
        events: events_of(events),
    }
}

/// What a scan of `whole` comes to on an output that was `before`: the records that the output takes
/// have their lines, in order and behind what was there. If it takes all of them, the result says how
/// many errors there were; if not, nothing is written behind the line that failed, and the result is
/// the failure of the output.
pub open spec fn comes_to(
    before: Output,
    after: Output,
    whole: History,
    version: Seq<char>,
    result: Result<WalkResult, StreamError>,
) -> bool {
    let stream = whole.stream(version);
    let from = before@.lines.len();
    let through = before.takes(stream.len());
    let written = before@.accepted + output::stream_bytes(after@.lines.skip(from as int));
    &&& record::lines_show(after@.lines, from, stream.take(through as int))
    &&& after@.lines.take(from as int) == before@.lines
    &&& after.fault() == before.fault()
    &&& if through == stream.len() {
        &&& result matches Ok(result) && result.num_errors == record::tally(whole.body()).errors
        &&& after@.accepted == written
    } else {
        &&& before.fault() matches Some(fault)
        &&& result == Err::<WalkResult, StreamError>(fault.error)
        &&& exists|line: Seq<char>|
            {
                &&& #[trigger] record::shows(line, stream[through as int])
                &&& after@.accepted == written + output::accepted_of(fault, line)
            }
    }
}

/// The counters of a scan have room for another event while fewer inputs and events have come in
/// than they can count.
proof fn lemma_room(history: History)
    requires
        history.inputs.len() + history.events.len() < u64::MAX,
    ensures
        history.has_room(),
{
    report::lemma_input_records_bound(history.options, history.inputs);
    report::lemma_event_records_bound(history.options, history.roots(), history.events);
    record::lemma_tally_bound(history.happened());
}

/// A whole scan: the output before it, what happens in it, and the version it announces.
struct Course {
    before: Output,
    whole: History,
    version: Seq<char>,
}

impl Course {
    /// Every record of the scan.
    spec fn stream(self) -> Seq<Record> {
        self.whole.stream(self.version)
    }

    /// The records emitted so far are the first of the stream, and each has its line.
    spec fn reached(self, out: Output, emitted: Seq<Record>) -> bool {
        let from = self.before@.lines.len();
        &&& emitted.is_prefix_of(self.stream())
        &&& record::lines_show(out@.lines, from, emitted)
        &&& out@.lines.take(from as int) == self.before@.lines
        &&& out@.accepted == self.before@.accepted + output::stream_bytes(
            out@.lines.skip(from as int),
        )
        &&& out.fault() == self.before.fault()
        &&& emitted.len() > 0 ==> (self.before.fault() matches Some(fault) ==> out@.lines.len()
            <= fault.after)
    }

    /// What the scan comes to.
    spec fn ended(self, out: Output, result: Result<WalkResult, StreamError>) -> bool {
        comes_to(self.before, out, self.whole, self.version, result)
    }
}

/// Write the line of the next record of a scan.
fn emit(
    course: Ghost<Course>,
    emitted: Ghost<Seq<Record>>,
    next: Ghost<Record>,
    out: &mut Output,
    line: String,
) -> (result: Result<(), StreamError>)
    requires
        course@.reached(*old(out), emitted@),
        emitted@.push(next@).is_prefix_of(course@.stream()),
        record::shows(line@, next@),
    ensures
        match result {
            Ok(_) => course@.reached(*final(out), emitted@.push(next@)),
            Err(error) => course@.ended(*final(out), Err(error)),
        },
{
    let ghost text = line@;
    let result = output::write_flushed(out, line);
    proof {
        let from = course@.before@.lines.len() as int;
        assert(emitted@.len() < course@.stream().len());
        assert(course@.stream()[emitted@.len() as int] == emitted@.push(next@).last());
        if result is Ok {
            assert(out@.lines.take(from) =~= course@.before@.lines);
            assert(out@.lines.skip(from).drop_last() =~= old(out)@.lines.skip(from));
            assert(out@.accepted =~= course@.before@.accepted + output::stream_bytes(
                out@.lines.skip(from),
            ));
            assert forall|i: int| 0 <= i < emitted@.push(next@).len() implies record::shows(
                #[trigger] out@.lines[from + i],
                emitted@.push(next@)[i],
            ) by {
                if i < emitted@.len() {
                    assert(out@.lines[from + i] == old(out)@.lines[from + i]);
                }
            }
        } else {
            assert(course@.before.takes(course@.stream().len()) == emitted@.len());
            assert(course@.stream().take(emitted@.len() as int) =~= emitted@);
            assert(record::shows(text, course@.stream()[emitted@.len() as int]));
        }
    }
    result
}

/// Write the lines of the next records of a scan.
fn emit_all(
    course: Ghost<Course>,
    emitted: Ghost<Seq<Record>>,
    next: Ghost<Seq<Record>>,
    out: &mut Output,
    lines: Vec<String>,
) -> (result: Result<(), StreamError>)
    requires
        course@.reached(*old(out), emitted@),
        (emitted@ + next@).is_prefix_of(course@.stream()),
        record::lines_show(record::texts(lines@), 0, next@),
    ensures
        match result {
            Ok(_) => course@.reached(*final(out), emitted@ + next@),
            Err(error) => course@.ended(*final(out), Err(error)),
        },
{
    assert(emitted@ + next@.take(0) =~= emitted@);
    for line in it: lines
        invariant
            it.seq() == lines@,
            record::lines_show(record::texts(lines@), 0, next@),
            (emitted@ + next@).is_prefix_of(course@.stream()),
            course@.reached(*out, emitted@ + next@.take(it.index() as int)),
    {
        let ghost index = it.index() as int;
        let ghost before = emitted@ + next@.take(index);
        proof {
            assert(record::texts(lines@)[0 + index] == line@);
            assert(before.push(next@[index]) =~= emitted@ + next@.take(index + 1));
            assert(before.push(next@[index]) =~= course@.stream().take(before.len() as int + 1));
        }
        emit(course, Ghost(before), Ghost(next@[index]), out, line)?;
    }
    assert(next@.take(next@.len() as int) =~= next@);
    Ok(())
}

/// The first line of a scan, and what it has emitted up to some point.
spec fn opening(history: History, version: Seq<char>) -> Seq<Record> {
    seq![
        Record::Hello { version, threads: history.options.threads as nat, roots: history.announced },
    ] + history.emitted()
}

/// A history that is cut short behind so many inputs and events.
spec fn cut(whole: History, inputs: nat, events: nat) -> History {
    History {
        inputs: whole.inputs.take(inputs as int),
        events: whole.events.take(events as int),
        ..whole
    }
}

proof fn lemma_opening(whole: History, version: Seq<char>, inputs: nat, events: nat)
    requires
        inputs <= whole.inputs.len(),
        events <= whole.events.len(),
        inputs == whole.inputs.len() || events == 0,
    ensures
        opening(cut(whole, inputs, events), version).is_prefix_of(whole.stream(version)),
{
    report::law_records_are_final(whole, inputs, events);
}

/// Walk the inputs and stream one event per line to `out`.
///
/// Every input in `paths` becomes a root at depth `0`; `events` are what the walk of the roots
/// brings up, in order, each with the position of its root among the roots that are walked. All
/// depths are streamed; retention and depth limiting belong to the consumer. The stream stops early
/// if writing fails, and the error is returned to the caller. Error lines wait until an entry line has
/// gone out, or until the walk has ended without one.
pub fn aggregate_jsonl(
    out: &mut Output,
    version: &str,
    walk_options: WalkOptions,
    paths: Vec<RootInput>,
    events: Vec<WalkEvent>,
) -> (result: Result<WalkResult, StreamError>)
    requires
        paths@.len() + events@.len() <= u64::MAX,
    ensures
        comes_to(
            *old(out),
            *final(out),
            history_of(walk_options, paths@, events@),
            version@,
            result,
        ),
{
    let ghost whole = history_of(walk_options, paths@, events@);
    let ghost course = Course { before: *out, whole, version: version@ };
    let (mut scan, line) = Scan::begin(version, walk_options, paths.len());
    proof {
        assert(out@.lines.take(out@.lines.len() as int) =~= out@.lines);
        assert(out@.lines.skip(out@.lines.len() as int) =~= Seq::empty());
        assert(out@.accepted + output::stream_bytes(Seq::empty()) =~= out@.accepted);
        lemma_opening(whole, version@, 0, 0);
        assert(whole.inputs.take(0) =~= Seq::empty());
        assert(whole.events.take(0) =~= Seq::empty());
        report::lemma_before_walk(scan@);
        assert(opening(scan@, version@) =~= Seq::<Record>::empty().push(
            opening(scan@, version@)[0],
        ));
    }
    let hello = emit(
        Ghost(course),
        Ghost(Seq::empty()),
        Ghost(opening(scan@, version@)[0]),
        out,
        line,
    );
    if let Err(error) = hello {
        return Err(error);
    }
    for input in it: paths
        invariant
            it.seq() == paths@,
            course.whole == whole,
            whole == history_of(walk_options, paths@, events@),
            scan.wf(),
            scan@ == cut(whole, it.index() as nat, 0),
            course.reached(*out, opening(scan@, version@)),
    {
        let ghost index = it.index() as int;
        proof {
            assert(whole.inputs.take(index + 1) =~= whole.inputs.take(index).push(input@));
            assert(whole.events.take(0) =~= Seq::empty());
            report::lemma_before_walk(scan@);
            report::lemma_before_walk(scan@.with_input(input@));
        }
        let _ = scan.add_root(input);
    }
    assert(whole.inputs.take(paths@.len() as int) =~= whole.inputs);
    for event in it: events
        invariant
            it.seq() == events@,
            course.before == *old(out),
            course.whole == whole,
            course.version == version@,
            whole == history_of(walk_options, paths@, events@),
            paths@.len() + events@.len() <= u64::MAX,
            scan.wf(),
            scan@ == cut(whole, whole.inputs.len(), it.index() as nat),
            course.reached(*out, opening(scan@, version@)),
    {
        let ghost before = scan@;
        let ghost index = it.index() as int;
        proof {
            lemma_opening(whole, version@, whole.inputs.len(), (index + 1) as nat);
            assert(whole.events.take(index + 1) =~= whole.events.take(index).push(event@));
            lemma_room(before);
        }
        let lines = scan.observe(event.root, event.event);
        let ghost due = scan@.emitted().skip(before.emitted().len() as int);
        assert(opening(scan@, version@) =~= opening(before, version@) + due);
        let written = emit_all(
            Ghost(course),
            Ghost(opening(before, version@)),
            Ghost(due),
            out,
            lines,
        );
        if let Err(error) = written {
            return Err(error);
        }
    }
    proof {
        assert(whole.events.take(events@.len() as int) =~= whole.events);
        assert(scan@ == whole);
        report::law_stream_is_opened_walked_and_closed(whole, version@);
        assert(whole.stream(version@) =~= opening(whole, version@) + whole.closing());
    }
    let (lines, walked) = scan.finish();
    let written = emit_all(
        Ghost(course),
        Ghost(opening(whole, version@)),
        Ghost(whole.closing()),
        out,
        lines,
    );
    if let Err(error) = written {
        return Err(error);
    }
    assert(whole.stream(version@).take(whole.stream(version@).len() as int) =~= whole.stream(
        version@,
    ));
    Ok(walked)
}

} // verus!
