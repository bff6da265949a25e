//! Which records a scan emits, as a function of what has happened in it.

use crate::inodes::FileId;
use crate::record;
use crate::record::{ErrorKind, Record};
use crate::walk;
use crate::walk::{
    EventView, Metadata, MetadataView, RootInputView, WalkEventView, WalkOptions,
};
use vstd::prelude::*;

verus! {

/// What has happened in a scan: how it was configured, the inputs it was given and the events of
/// the walk, each in order.
pub struct History {
    pub options: WalkOptions,
    /// The number of inputs that the scan was announced with.
    pub announced: nat,
    pub inputs: Seq<RootInputView>,
    pub events: Seq<WalkEventView>,
}

/// A root that is walked.
pub struct KnownRoot {
    pub path: Seq<char>,
    pub device_id: u64,
}

/// The device that an input is walked on, or the message that says why it is not walked. Where file
/// systems may be crossed, every input is walked, and its device does not matter.
pub open spec fn device_of(options: WalkOptions, input: RootInputView) -> Result<u64, Seq<char>> {
    if options.cross_filesystems {
        Ok(0)
    } else {
        input.device
    }
}

/// The roots that are walked: the inputs whose device is known, in order.
pub open spec fn walked_roots(options: WalkOptions, inputs: Seq<RootInputView>) -> Seq<KnownRoot>
    decreases inputs.len(),
{
    if inputs.len() == 0 {
        Seq::empty()
    } else {
        let before = walked_roots(options, inputs.drop_last());
        match device_of(options, inputs.last()) {
            Ok(device_id) => before.push(KnownRoot { path: inputs.last().path, device_id }),
            Err(_) => before,
        }
    }
}

/// The record for an input: an error that names the input, where its device is not known.
pub open spec fn input_record(options: WalkOptions, input: RootInputView) -> Option<Record> {
    match device_of(options, input) {
        Ok(_) => None,
        Err(message) => Some(
            Record::Error {
                root: Some(input.path),
                path: Some(input.path),
                kind: ErrorKind::Root,
                message,
            },
        ),
    }
}

/// The records for the inputs, in order.
pub open spec fn input_records(options: WalkOptions, inputs: Seq<RootInputView>) -> Seq<Record>
    decreases inputs.len(),
{
    if inputs.len() == 0 {
        Seq::empty()
    } else {
        let before = input_records(options, inputs.drop_last());
        match input_record(options, inputs.last()) {
            Some(record) => before.push(record),
            None => before,
        }
    }
}

/// Whether `event` is the entry of the root itself.
pub open spec fn is_root_entry(event: WalkEventView, root: nat) -> bool {
    event.root == root && (event.event matches EventView::Entry { depth, .. } && depth == 0)
}

/// Whether the root itself has turned up among `events`.
pub open spec fn root_reported(events: Seq<WalkEventView>, root: nat) -> bool {
    exists|i: int|
        #![trigger events[i]]
        0 <= i < events.len() && is_root_entry(events[i], root)
}

/// Whether `event` is an entry, other than a directory, of the file `id` whose metadata was read.
pub open spec fn is_link_to(event: EventView, id: FileId) -> bool {
    event matches EventView::Entry { is_dir, metadata, .. } && !is_dir && (
    metadata matches MetadataView::Read(read) && read.id == id)
}

/// Whether a link to the file `id` is among `events`.
pub open spec fn link_observed(events: Seq<WalkEventView>, id: FileId) -> bool {
    exists|i: int|
        #![trigger events[i]]
        0 <= i < events.len() && is_link_to(events[i].event, id)
}

/// The root at a position, where there is one.
pub open spec fn root_path(roots: Seq<KnownRoot>, root: nat) -> Option<Seq<char>> {
    if root < roots.len() {
        Some(roots[root as int].path)
    } else {
        None
    }
}

/// The device of the root at a position, and `0` where there is no such root.
pub open spec fn root_device(roots: Seq<KnownRoot>, root: nat) -> u64 {
    if root < roots.len() {
        roots[root as int].device_id
    } else {
        0
    }
}

/// Whether the bytes of an entry count, when `earlier` went before it: the first observation of each
/// file does, on the device of its root. With hard links counted every entry does.
pub open spec fn counted(
    options: WalkOptions,
    roots: Seq<KnownRoot>,
    earlier: Seq<WalkEventView>,
    root: nat,
    is_dir: bool,
    metadata: Metadata,
) -> bool {
    ||| options.count_hard_links
    ||| {
        &&& is_dir || !link_observed(earlier, metadata.id)
        &&& options.cross_filesystems || metadata.device_id == root_device(roots, root)
    }
}

/// The record that an event of the walk brings about, when `earlier` went before it.
pub open spec fn event_record(
    options: WalkOptions,
    roots: Seq<KnownRoot>,
    earlier: Seq<WalkEventView>,
    event: WalkEventView,
) -> Option<Record> {
    match event.event {
        EventView::Finished => None,
        EventView::Entry { path, depth, is_dir, metadata } => match metadata {
            MetadataView::Read(read) => {
                let counts = counted(options, roots, earlier, event.root, is_dir, read);
                Some(
                    Record::Entry {
                        path,
                        depth,
                        is_dir,
                        len: if counts { read.len as nat } else { 0 },
                        allocated: if counts { walk::allocation(is_dir, read) as nat } else { 0 },
                    },
                )
            },
            MetadataView::Failed(message) => Some(
                Record::Error {
                    root: root_path(roots, event.root),
                    path: Some(path),
                    kind: ErrorKind::Metadata,
                    message,
                },
            ),
            MetadataView::Skipped => Some(
                Record::Entry { path, depth, is_dir, len: 0, allocated: 0 },
            ),
        },
        EventView::Failed(message) => if event.root < roots.len() && !root_reported(
            earlier,
            event.root,
        ) {
            Some(
                Record::Error {
                    root: root_path(roots, event.root),
                    path: root_path(roots, event.root),
                    kind: ErrorKind::Root,
                    message,
                },
            )
        } else {
            Some(
                Record::Error {
                    root: root_path(roots, event.root),
                    path: None,
                    kind: ErrorKind::Read,
                    message,
                },
            )
        },
    }
}

/// The records that the events of the walk bring about, in order.
pub open spec fn event_records(
    options: WalkOptions,
    roots: Seq<KnownRoot>,
    events: Seq<WalkEventView>,
) -> Seq<Record>
    decreases events.len(),
{
    if events.len() == 0 {
        Seq::empty()
    } else {
        let before = event_records(options, roots, events.drop_last());
        match event_record(options, roots, events.drop_last(), events.last()) {
            Some(record) => before.push(record),
            None => before,
        }
    }
}

/// `records` with the first entry among them moved to the front: no error comes before it.
pub open spec fn entry_first(records: Seq<Record>) -> Seq<Record>
    decreases records.len(),
{
    if records.len() == 0 {
        records
    } else if record::has_entry(records.drop_last()) {
        entry_first(records.drop_last()).push(records.last())
    } else if records.last() is Entry {
        seq![records.last()] + records.drop_last()
    } else {
        records
    }
}

impl History {
    /// The roots that are walked.
    pub open spec fn roots(self) -> Seq<KnownRoot> {
        walked_roots(self.options, self.inputs)
    }

    /// The entries and errors that have come about, in the order in which they did.
    pub open spec fn happened(self) -> Seq<Record> {
        input_records(self.options, self.inputs) + event_records(
            self.options,
            self.roots(),
            self.events,
        )
    }

    /// The entries and errors in the order in which they are emitted: errors are held back until an
    /// entry has been emitted.
    pub open spec fn body(self) -> Seq<Record> {
        entry_first(self.happened())
    }

    /// The entries and errors that are emitted while the walk goes on: all of them once there is an
    /// entry, and none before.
    pub open spec fn emitted(self) -> Seq<Record> {
        if record::has_entry(self.happened()) {
            self.body()
        } else {
            Seq::empty()
        }
    }

    /// What is emitted when the walk has ended: the errors still held back, and the closing records.
    pub open spec fn closing(self) -> Seq<Record> {
        self.body().skip(self.emitted().len() as int) + seq![
            Record::Summary(record::tally(self.body())),
            Record::Done { errors: record::tally(self.body()).errors },
        ]
    }

    /// What happened, and another input.
    pub open spec fn with_input(self, input: RootInputView) -> History {
        History { inputs: self.inputs.push(input), ..self }
    }

    /// What happened, and another event of the walk.
    pub open spec fn with_event(self, event: WalkEventView) -> History {
        History { events: self.events.push(event), ..self }
    }

    /// Whether the counters can take another event.
    pub open spec fn has_room(self) -> bool {
        &&& record::tally(self.happened()).entries < u64::MAX
        &&& record::tally(self.happened()).errors < u64::MAX
    }

    /// Every record of the stream, from the first to the last.
    pub open spec fn stream(self, version: Seq<char>) -> Seq<Record> {
        seq![
            Record::Hello {
                version,
                threads: self.options.threads as nat,
                roots: self.announced,
            },
        ] + self.body() + seq![
            Record::Summary(record::tally(self.body())),
            Record::Done { errors: record::tally(self.body()).errors },
        ]
    }
}

/// The roots of the walk do not depend on its events, and each event adds at most one record.
pub proof fn lemma_with_event(history: History, event: WalkEventView)
    ensures
        history.with_event(event).roots() == history.roots(),
        history.with_event(event).happened() == (match event_record(
            history.options,
            history.roots(),
            history.events,
            event,
        ) {
            Some(record) => history.happened().push(record),
            None => history.happened(),
        }),
{
    let next = history.with_event(event);
    assert(next.events.drop_last() =~= history.events);
    assert(next.happened() =~= (match event_record(
        history.options,
        history.roots(),
        history.events,
        event,
    ) {
        Some(record) => history.happened().push(record),
        None => history.happened(),
    }));
}

/// Before the walk begins, the records are those of the inputs, and none of them is an entry.
pub proof fn lemma_before_walk(history: History)
    requires
        history.events.len() == 0,
    ensures
        history.happened() == input_records(history.options, history.inputs),
        !record::has_entry(history.happened()),
{
    assert(history.happened() =~= input_records(history.options, history.inputs));
    lemma_input_records_are_errors(history.options, history.inputs);
}

/// Inputs bring about errors only.
pub proof fn lemma_input_records_are_errors(options: WalkOptions, inputs: Seq<RootInputView>)
    ensures
        forall|i: int|
            0 <= i < input_records(options, inputs).len()
                ==> #[trigger] input_records(options, inputs)[i] is Error,
    decreases inputs.len(),
{
    if inputs.len() > 0 {
        lemma_input_records_are_errors(options, inputs.drop_last());
    }
}

/// What one more record does to the order of emission.
pub proof fn lemma_entry_first_push(records: Seq<Record>, next: Record)
    ensures
        record::has_entry(records.push(next)) == (record::has_entry(records) || next is Entry),
        entry_first(records.push(next)) == (if record::has_entry(records) {
            entry_first(records).push(next)
        } else if next is Entry {
            seq![next] + records
        } else {
            records.push(next)
        }),
{
    let after = records.push(next);
    assert(after.drop_last() =~= records);
    record::lemma_has_entry(records);
    record::lemma_has_entry(after);
}

/// Without an entry the order stays as it is.
pub proof fn lemma_entry_first_without_entry(records: Seq<Record>)
    requires
        !record::has_entry(records),
    ensures
        entry_first(records) == records,
{
    if records.len() > 0 {
        let front = records.drop_last();
        if record::has_entry(front) {
            let i = choose|i: int| 0 <= i < front.len() && #[trigger] front[i] is Entry;
            assert(records[i] is Entry);
        }
        assert(!(records[records.len() - 1] is Entry));
    }
}

/// The order of emission is the order in which the records came about, but for one entry that moves
/// to the front.
pub proof fn lemma_entry_first_splits(records: Seq<Record>)
    requires
        record::has_entry(records),
    ensures
        exists|at: int| #[trigger] moves_entry(records, at),
    decreases records.len(),
{
    let front = records.drop_last();
    if record::has_entry(front) {
        lemma_entry_first_splits(front);
        let at = choose|at: int| #[trigger] moves_entry(front, at);
        assert(records.take(at) =~= front.take(at));
        assert(entry_first(records) =~= seq![records[at]] + records.take(at) + records.skip(at + 1));
        assert forall|i: int| 0 <= i < at implies !(#[trigger] records[i] is Entry) by {
            assert(front[i] == records[i]);
        }
        assert(moves_entry(records, at));
    } else {
        let at = records.len() - 1;
        let i = choose|i: int| 0 <= i < records.len() && #[trigger] records[i] is Entry;
        if i < at {
            assert(front[i] is Entry);
        }
        assert(records.last() == records[at]);
        assert forall|i: int| 0 <= i < at implies !(#[trigger] records[i] is Entry) by {
            assert(front[i] == records[i]);
        }
        assert(entry_first(records) =~= seq![records[at]] + records.take(at) + records.skip(at + 1));
        assert(moves_entry(records, at));
    }
}

/// Whether the first entry of `records` is at `at`, and is what moves to the front.
pub open spec fn moves_entry(records: Seq<Record>, at: int) -> bool {
    &&& 0 <= at < records.len()
    &&& records[at] is Entry
    &&& forall|i: int| 0 <= i < at ==> !(#[trigger] records[i] is Entry)
    &&& entry_first(records) == seq![records[at]] + records.take(at) + records.skip(at + 1)
}

/// Holding errors back changes no counter and no size.
pub proof fn law_holding_back_counts_alike(records: Seq<Record>)
    ensures
        record::tally(entry_first(records)) == record::tally(records),
{
    if record::has_entry(records) {
        lemma_entry_first_splits(records);
        let at = choose|at: int| #[trigger] moves_entry(records, at);
        let entry = seq![records[at]];
        let held = records.take(at);
        let rest = records.skip(at + 1);
        record::lemma_tally_concat(entry, held);
        record::lemma_tally_concat(held, entry);
        record::lemma_tally_concat(entry + held, rest);
        record::lemma_tally_concat(held + entry, rest);
        assert(records =~= held + entry + rest);
    } else {
        lemma_entry_first_without_entry(records);
    }
}

/// Holding errors back loses no record and adds none.
pub proof fn law_holding_back_keeps_every_record(records: Seq<Record>)
    ensures
        entry_first(records).to_multiset() == records.to_multiset(),
{
    broadcast use vstd::seq_lib::group_to_multiset_ensures;

    if record::has_entry(records) {
        lemma_entry_first_splits(records);
        let at = choose|at: int| #[trigger] moves_entry(records, at);
        let entry = seq![records[at]];
        let held = records.take(at);
        let rest = records.skip(at + 1);
        assert(records =~= held + entry + rest);
        vstd::seq_lib::lemma_multiset_commutative(held, entry);
        vstd::seq_lib::lemma_multiset_commutative(entry, held);
        vstd::seq_lib::lemma_multiset_commutative(held + entry, rest);
        vstd::seq_lib::lemma_multiset_commutative(entry + held, rest);
        assert(entry_first(records).to_multiset() =~= records.to_multiset());
    } else {
        lemma_entry_first_without_entry(records);
    }
}

/// Once an entry has been emitted, more records only add to what is emitted.
proof fn lemma_entry_first_grows(records: Seq<Record>, more: Seq<Record>)
    requires
        records.is_prefix_of(more),
        record::has_entry(records),
    ensures
        record::has_entry(more),
        entry_first(records).is_prefix_of(entry_first(more)),
    decreases more.len(),
{
    if records.len() == more.len() {
        assert(records =~= more);
    } else {
        assert(records =~= more.drop_last().take(records.len() as int));
        lemma_entry_first_grows(records, more.drop_last());
        lemma_entry_first_push(more.drop_last(), more.last());
        assert(more.drop_last().push(more.last()) =~= more);
    }
}

/// What one more event adds to the roots that have turned up and to the files observed.
pub proof fn lemma_observed(events: Seq<WalkEventView>, event: WalkEventView)
    ensures
        forall|root: nat| #[trigger]
            root_reported(events.push(event), root) == (root_reported(events, root)
                || is_root_entry(event, root)),
        forall|id: FileId| #[trigger]
            link_observed(events.push(event), id) == (link_observed(events, id)
                || is_link_to(event.event, id)),
{
    let after = events.push(event);
    assert(after[events.len() as int] == event);
    assert forall|root: nat| #[trigger]
        root_reported(after, root) == (root_reported(events, root)
            || is_root_entry(event, root)) by {
        if root_reported(events, root) {
            let i = choose|i: int|
                #![trigger events[i]]
                0 <= i < events.len() && is_root_entry(events[i], root);
            assert(after[i] == events[i]);
        }
    }
    assert forall|id: FileId| #[trigger]
        link_observed(after, id) == (link_observed(events, id)
            || is_link_to(event.event, id)) by {
        if link_observed(events, id) {
            let i = choose|i: int|
                #![trigger events[i]]
                0 <= i < events.len() && is_link_to(events[i].event, id);
            assert(after[i] == events[i]);
        }
    }
}

/// An input has at most one record.
pub proof fn lemma_input_records_bound(options: WalkOptions, inputs: Seq<RootInputView>)
    ensures
        input_records(options, inputs).len() <= inputs.len(),
    decreases inputs.len(),
{
    if inputs.len() > 0 {
        lemma_input_records_bound(options, inputs.drop_last());
    }
}

/// An event has at most one record.
pub proof fn lemma_event_records_bound(
    options: WalkOptions,
    roots: Seq<KnownRoot>,
    events: Seq<WalkEventView>,
)
    ensures
        event_records(options, roots, events).len() <= events.len(),
    decreases events.len(),
{
    if events.len() > 0 {
        lemma_event_records_bound(options, roots, events.drop_last());
    }
}

/// Cutting a history short takes records off the end of what is emitted, and changes none: what has
/// been emitted is final.
pub proof fn law_records_are_final(history: History, inputs: nat, events: nat)
    requires
        inputs <= history.inputs.len(),
        events <= history.events.len(),
        inputs == history.inputs.len() || events == 0,
    ensures
        (History {
            inputs: history.inputs.take(inputs as int),
            events: history.events.take(events as int),
            ..history
        }).emitted().is_prefix_of(history.body()),
{
    let cut = History {
        inputs: history.inputs.take(inputs as int),
        events: history.events.take(events as int),
        ..history
    };
    lemma_input_records_grow(history.options, history.inputs, inputs);
    lemma_event_records_grow(history.options, history.roots(), history.events, events);
    if inputs == history.inputs.len() {
        assert(history.inputs.take(inputs as int) =~= history.inputs);
    } else {
        assert(history.events.take(0) =~= Seq::empty());
    }
    assert(cut.happened().is_prefix_of(history.happened()));
    if record::has_entry(cut.happened()) {
        lemma_entry_first_grows(cut.happened(), history.happened());
    }
}

/// The stream is its first line, what is emitted while the walk goes on, and what is emitted when it
/// has ended.
pub proof fn law_stream_is_opened_walked_and_closed(history: History, version: Seq<char>)
    ensures
        history.stream(version) == seq![history.stream(version)[0]] + history.emitted()
            + history.closing(),
{
    assert(history.stream(version) =~= seq![history.stream(version)[0]] + history.emitted()
        + history.closing());
}

proof fn lemma_input_records_grow(options: WalkOptions, inputs: Seq<RootInputView>, count: nat)
    requires
        count <= inputs.len(),
    ensures
        input_records(options, inputs.take(count as int)).is_prefix_of(
            input_records(options, inputs),
        ),
    decreases inputs.len(),
{
    if count == inputs.len() {
        assert(inputs.take(count as int) =~= inputs);
    } else {
        lemma_input_records_grow(options, inputs.drop_last(), count);
        assert(inputs.drop_last().take(count as int) =~= inputs.take(count as int));
    }
}

/// The records of the first events are the first of all records.
pub proof fn lemma_event_records_grow(
    options: WalkOptions,
    roots: Seq<KnownRoot>,
    events: Seq<WalkEventView>,
    count: nat,
)
    requires
        count <= events.len(),
    ensures
        event_records(options, roots, events.take(count as int)).is_prefix_of(
            event_records(options, roots, events),
        ),
    decreases events.len(),
{
    if count == events.len() {
        assert(events.take(count as int) =~= events);
    } else {
        lemma_event_records_grow(options, roots, events.drop_last(), count);
        assert(events.drop_last().take(count as int) =~= events.take(count as int));
    }
}

} // verus!
