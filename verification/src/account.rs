//! What a scan reports of its inputs and of its walk.
//!
//! The laws here say, for every input and every event of the walk, which record it brings about and
//! where in the stream that record stands, in terms of the input or event itself.

use crate::record;
use crate::record::{ErrorKind, Record};
use crate::report;
use crate::report::{History, KnownRoot};
use crate::walk::{
    EventView, Metadata, MetadataView, RootEvent, RootInput, RootInputView, WalkEvent,
    WalkEventView, WalkOptions,
};
use vstd::prelude::*;

verus! {

/// Whether an input is walked: its device is known, or does not matter.
pub open spec fn is_walked(options: WalkOptions, input: RootInputView) -> bool {
    options.cross_filesystems || input.device is Ok
}

/// How many of `inputs` are walked.
pub open spec fn walked_among(options: WalkOptions, inputs: Seq<RootInputView>) -> nat {
    inputs.filter(|input: RootInputView| is_walked(options, input)).len()
}

/// How many of `inputs` are skipped.
pub open spec fn skipped_among(options: WalkOptions, inputs: Seq<RootInputView>) -> nat {
    inputs.filter(|input: RootInputView| !is_walked(options, input)).len()
}

/// How many of `events` bring something up, and not only the end of a root.
pub open spec fn telling_among(events: Seq<WalkEventView>) -> nat {
    events.filter(|event: WalkEventView| !(event.event is Finished)).len()
}

/// Whether an event brings up an entry whose metadata did not fail.
pub open spec fn is_sound_entry(event: WalkEventView) -> bool {
    event.event matches EventView::Entry { metadata, .. } && !(metadata is Failed)
}

/// Whether an event brings up a failure, of an entry's metadata or without a path.
pub open spec fn is_failure(event: WalkEventView) -> bool {
    ||| event.event is Failed
    ||| event.event matches EventView::Entry { metadata, .. } && metadata is Failed
}

/// Whether some event brings up an entry whose metadata did not fail.
pub open spec fn has_sound_entry(events: Seq<WalkEventView>) -> bool {
    exists|i: int| 0 <= i < events.len() && #[trigger] is_sound_entry(events[i])
}

/// Inputs and events are taken as they come: nothing in them is changed or left out.
pub proof fn law_values_are_taken_as_they_are(input: RootInput, event: WalkEvent)
    ensures
        input@.path == input.path@,
        input.device matches Ok(device_id) ==> input@.device == Ok::<u64, Seq<char>>(device_id),
        input.device matches Err(message) ==> input@.device == Err::<u64, Seq<char>>(message@),
        event@.root == event.root,
        event.event is Finished ==> event@.event is Finished,
        event.event matches RootEvent::Entry(Err(message)) ==> event@.event == EventView::Failed(
            message@,
        ),
        event.event matches RootEvent::Entry(Ok(entry)) ==> (event@.event matches EventView::Entry {
            path,
            depth,
            is_dir,
            metadata,
        } && {
            &&& path == entry.path@
            &&& depth == entry.depth
            &&& is_dir == entry.is_dir
            &&& entry.metadata matches Some(Ok(read)) ==> metadata == MetadataView::Read(read)
            &&& entry.metadata matches Some(Err(message)) ==> metadata == MetadataView::Failed(
                message@,
            )
            &&& entry.metadata is None ==> metadata is Skipped
        }),
{
}

/// Every walked input is a root, in the order of the inputs, with its path and the device it is on;
/// where file systems may be crossed the device is `0`. There are no other roots.
pub proof fn law_walked_input_is_a_root(
    options: WalkOptions,
    inputs: Seq<RootInputView>,
    index: int,
)
    requires
        0 <= index < inputs.len(),
        is_walked(options, inputs[index]),
    ensures
        report::walked_roots(options, inputs).len() == walked_among(options, inputs),
        walked_among(options, inputs.take(index)) < walked_among(options, inputs),
        ({
            let root = report::walked_roots(options, inputs)[walked_among(
                options,
                inputs.take(index),
            ) as int];
            &&& root.path == inputs[index].path
            &&& options.cross_filesystems ==> root.device_id == 0
            &&& !options.cross_filesystems ==> inputs[index].device == Ok::<u64, Seq<char>>(
                root.device_id,
            )
        }),
    decreases inputs.len(),
{
    reveal(Seq::filter);
    lemma_walked_count(options, inputs);
    lemma_walked_count(options, inputs.drop_last());
    if index == inputs.len() - 1 {
        assert(inputs.take(index) =~= inputs.drop_last());
    } else {
        assert(inputs.drop_last().take(index) =~= inputs.take(index));
        assert(inputs.drop_last()[index] == inputs[index]);
        law_walked_input_is_a_root(options, inputs.drop_last(), index);
    }
}

proof fn lemma_walked_count(options: WalkOptions, inputs: Seq<RootInputView>)
    ensures
        report::walked_roots(options, inputs).len() == walked_among(options, inputs),
        report::input_records(options, inputs).len() == skipped_among(options, inputs),
    decreases inputs.len(),
{
    reveal(Seq::filter);
    if inputs.len() > 0 {
        lemma_walked_count(options, inputs.drop_last());
    }
}

/// There are as many roots as there are walked inputs.
pub proof fn law_only_walked_inputs_are_roots(options: WalkOptions, inputs: Seq<RootInputView>)
    ensures
        report::walked_roots(options, inputs).len() == walked_among(options, inputs),
{
    lemma_walked_count(options, inputs);
}

proof fn lemma_skipped_input(options: WalkOptions, inputs: Seq<RootInputView>, index: int)
    requires
        0 <= index < inputs.len(),
        !is_walked(options, inputs[index]),
    ensures
        skipped_among(options, inputs.take(index)) < skipped_among(options, inputs),
        inputs[index].device matches Err(message) && report::input_records(
            options,
            inputs,
        )[skipped_among(options, inputs.take(index)) as int] == (Record::Error {
            root: Some(inputs[index].path),
            path: Some(inputs[index].path),
            kind: ErrorKind::Root,
            message,
        }),
    decreases inputs.len(),
{
    reveal(Seq::filter);
    lemma_walked_count(options, inputs);
    lemma_walked_count(options, inputs.drop_last());
    if index == inputs.len() - 1 {
        assert(inputs.take(index) =~= inputs.drop_last());
    } else {
        assert(inputs.drop_last().take(index) =~= inputs.take(index));
        assert(inputs.drop_last()[index] == inputs[index]);
        lemma_skipped_input(options, inputs.drop_last(), index);
    }
}

proof fn lemma_telling_count(
    options: WalkOptions,
    roots: Seq<KnownRoot>,
    events: Seq<WalkEventView>,
)
    ensures
        report::event_records(options, roots, events).len() == telling_among(events),
    decreases events.len(),
{
    reveal(Seq::filter);
    if events.len() > 0 {
        lemma_telling_count(options, roots, events.drop_last());
    }
}

proof fn lemma_event_place(
    options: WalkOptions,
    roots: Seq<KnownRoot>,
    events: Seq<WalkEventView>,
    index: int,
)
    requires
        0 <= index < events.len(),
        !(events[index].event is Finished),
    ensures
        telling_among(events.take(index)) < telling_among(events),
        report::event_record(options, roots, events.take(index), events[index]) == Some(
            report::event_records(options, roots, events)[telling_among(
                events.take(index),
            ) as int],
        ),
    decreases events.len(),
{
    reveal(Seq::filter);
    lemma_telling_count(options, roots, events);
    lemma_telling_count(options, roots, events.drop_last());
    if index == events.len() - 1 {
        assert(events.take(index) =~= events.drop_last());
    } else {
        assert(events.drop_last().take(index) =~= events.take(index));
        assert(events.drop_last()[index] == events[index]);
        lemma_event_place(options, roots, events.drop_last(), index);
    }
}

/// Every input that is skipped, and every event but the end of a root, brings about one record, and
/// nothing else does.
pub proof fn law_one_record_each(history: History)
    ensures
        history.happened().len() == skipped_among(history.options, history.inputs) + telling_among(
            history.events,
        ),
{
    lemma_walked_count(history.options, history.inputs);
    lemma_telling_count(history.options, history.roots(), history.events);
}

/// An input whose device could not be determined brings about an error that names it, in the order of
/// the inputs and ahead of what the walk brings up.
pub proof fn law_skipped_input_is_reported(history: History, index: int)
    requires
        0 <= index < history.inputs.len(),
        !is_walked(history.options, history.inputs[index]),
    ensures
        ({
            let place = skipped_among(history.options, history.inputs.take(index));
            &&& place < history.happened().len()
            &&& history.happened()[place as int] matches Record::Error { root, path, kind, message }
            &&& root == Some(history.inputs[index].path)
            &&& path == Some(history.inputs[index].path)
            &&& kind is Root
            &&& history.inputs[index].device == Err::<u64, Seq<char>>(message)
        }),
{
    lemma_walked_count(history.options, history.inputs);
    lemma_skipped_input(history.options, history.inputs, index);
}

/// The records of skipped inputs are ahead of those of the walk.
pub proof fn lemma_skipped_before(history: History, index: int)
    requires
        0 <= index < history.inputs.len(),
        !is_walked(history.options, history.inputs[index]),
    ensures
        skipped_among(history.options, history.inputs.take(index)) < skipped_among(
            history.options,
            history.inputs,
        ),
{
    lemma_skipped_input(history.options, history.inputs, index);
}

/// Where among the records the one of an event stands: behind those of the skipped inputs and of the
/// events before it.
pub open spec fn place_of(history: History, index: int) -> nat {
    skipped_among(history.options, history.inputs) + telling_among(history.events.take(index))
}

/// An event brings about its record in the order of the walk, from what went before it and from
/// nothing that comes later.
pub proof fn law_record_of_event(history: History, index: int)
    requires
        0 <= index < history.events.len(),
        !(history.events[index].event is Finished),
    ensures
        place_of(history, index) < history.happened().len(),
        report::event_record(
            history.options,
            history.roots(),
            history.events.take(index),
            history.events[index],
        ) == Some(history.happened()[place_of(history, index) as int]),
{
    lemma_walked_count(history.options, history.inputs);
    lemma_telling_count(history.options, history.roots(), history.events);
    lemma_event_place(history.options, history.roots(), history.events, index);
}

/// The end of a root brings about nothing.
pub proof fn law_end_of_root_is_silent(
    options: WalkOptions,
    roots: Seq<KnownRoot>,
    earlier: Seq<WalkEventView>,
    root: nat,
)
    ensures
        report::event_record(
            options,
            roots,
            earlier,
            WalkEventView { root, event: EventView::Finished },
        ) is None,
{
}

/// An entry whose metadata did not fail is reported under its own path and depth and as what it is,
/// whatever root it is under and whatever went before it.
pub proof fn law_entry_is_reported_as_it_is(
    options: WalkOptions,
    roots: Seq<KnownRoot>,
    earlier: Seq<WalkEventView>,
    root: nat,
    path: Seq<char>,
    depth: nat,
    is_dir: bool,
    metadata: MetadataView,
)
    requires
        !(metadata is Failed),
    ensures
        report::event_record(
            options,
            roots,
            earlier,
            WalkEventView { root, event: EventView::Entry { path, depth, is_dir, metadata } },
        ) matches Some(Record::Entry { path: reported, depth: at, is_dir: kind, .. }) && {
            &&& reported == path
            &&& at == depth
            &&& kind == is_dir
        },
{
}

/// The first link to a file reports its sizes in full, where file systems may be crossed or it is on
/// the device of its root, whichever root that is.
pub proof fn law_first_link_counts(
    options: WalkOptions,
    roots: Seq<KnownRoot>,
    earlier: Seq<WalkEventView>,
    root: nat,
    path: Seq<char>,
    depth: nat,
    read: Metadata,
)
    requires
        root < roots.len(),
        options.cross_filesystems || read.device_id == roots[root as int].device_id,
        forall|i: int|
            0 <= i < earlier.len() ==> !(#[trigger] earlier[i].event matches EventView::Entry {
                is_dir: false,
                metadata: MetadataView::Read(other),
                ..
            } && other.id == read.id),
    ensures
        report::event_record(
            options,
            roots,
            earlier,
            WalkEventView {
                root,
                event: EventView::Entry {
                    path,
                    depth,
                    is_dir: false,
                    metadata: MetadataView::Read(read),
                },
            },
        ) == Some(
            (Record::Entry {
                path,
                depth,
                is_dir: false,
                len: read.len as nat,
                allocated: match read.size_on_disk {
                    Some(size) => size as nat,
                    None => 0,
                },
            }),
        ),
{
}

/// A directory reports its apparent size and no size on disk, whatever went before it, where file
/// systems may be crossed or it is on the device of its root, whichever root that is.
pub proof fn law_directory_counts(
    options: WalkOptions,
    roots: Seq<KnownRoot>,
    earlier: Seq<WalkEventView>,
    root: nat,
    path: Seq<char>,
    depth: nat,
    read: Metadata,
)
    requires
        root < roots.len(),
        options.cross_filesystems || read.device_id == roots[root as int].device_id,
    ensures
        report::event_record(
            options,
            roots,
            earlier,
            WalkEventView {
                root,
                event: EventView::Entry {
                    path,
                    depth,
                    is_dir: true,
                    metadata: MetadataView::Read(read),
                },
            },
        ) == Some(
            (Record::Entry { path, depth, is_dir: true, len: read.len as nat, allocated: 0 }),
        ),
{
}

/// A later link to a file reports no size, unless hard links are counted: under whatever root, on
/// whatever device and however long after the first.
pub proof fn law_later_link_does_not_count(
    options: WalkOptions,
    roots: Seq<KnownRoot>,
    earlier: Seq<WalkEventView>,
    root: nat,
    path: Seq<char>,
    depth: nat,
    read: Metadata,
    index: int,
)
    requires
        !options.count_hard_links,
        0 <= index < earlier.len(),
        earlier[index].event matches EventView::Entry {
            is_dir: false,
            metadata: MetadataView::Read(other),
            ..
        } && other.id == read.id,
    ensures
        report::event_record(
            options,
            roots,
            earlier,
            WalkEventView {
                root,
                event: EventView::Entry {
                    path,
                    depth,
                    is_dir: false,
                    metadata: MetadataView::Read(read),
                },
            },
        ) == Some((Record::Entry { path, depth, is_dir: false, len: 0, allocated: 0 })),
{
    assert(report::is_link_to(earlier[index].event, read.id));
}

/// An entry on another device than its root reports no size, unless hard links are counted or file
/// systems may be crossed.
pub proof fn law_entry_on_another_device_does_not_count(
    options: WalkOptions,
    roots: Seq<KnownRoot>,
    earlier: Seq<WalkEventView>,
    root: nat,
    path: Seq<char>,
    depth: nat,
    is_dir: bool,
    read: Metadata,
)
    requires
        !options.count_hard_links,
        !options.cross_filesystems,
        root < roots.len(),
        read.device_id != roots[root as int].device_id,
    ensures
        report::event_record(
            options,
            roots,
            earlier,
            WalkEventView {
                root,
                event: EventView::Entry {
                    path,
                    depth,
                    is_dir,
                    metadata: MetadataView::Read(read),
                },
            },
        ) == Some((Record::Entry { path, depth, is_dir, len: 0, allocated: 0 })),
{
}

/// Where hard links are counted, every entry reports its sizes in full, whatever went before it and
/// whatever device it is on.
pub proof fn law_every_link_counts_when_asked_for(
    options: WalkOptions,
    roots: Seq<KnownRoot>,
    earlier: Seq<WalkEventView>,
    root: nat,
    path: Seq<char>,
    depth: nat,
    is_dir: bool,
    read: Metadata,
)
    requires
        options.count_hard_links,
    ensures
        report::event_record(
            options,
            roots,
            earlier,
            WalkEventView {
                root,
                event: EventView::Entry {
                    path,
                    depth,
                    is_dir,
                    metadata: MetadataView::Read(read),
                },
            },
        ) == Some(
            (Record::Entry {
                path,
                depth,
                is_dir,
                len: read.len as nat,
                allocated: match read.size_on_disk {
                    Some(size) if !is_dir => size as nat,
                    _ => 0,
                },
            }),
        ),
{
}

/// Whether one of `earlier` is an entry, other than a directory, of the same file.
pub open spec fn was_linked(earlier: Seq<WalkEventView>, read: Metadata) -> bool {
    exists|i: int|
        0 <= i < earlier.len() && (#[trigger] earlier[i].event matches EventView::Entry {
            is_dir,
            metadata,
            ..
        } && !is_dir && (metadata matches MetadataView::Read(other) && other.id.volume
            == read.id.volume && other.id.file == read.id.file))
}

/// An entry whose bytes count reports its whole apparent size, and its whole size on disk unless it is
/// a directory: every entry where hard links are counted, and otherwise a directory or the first link
/// to its file, where file systems may be crossed or the entry is on the device of its root. It does
/// not matter which root that is. An entry whose bytes do not count reports no size at all.
pub proof fn law_sizes_of_an_entry(
    options: WalkOptions,
    roots: Seq<KnownRoot>,
    earlier: Seq<WalkEventView>,
    root: nat,
    path: Seq<char>,
    depth: nat,
    is_dir: bool,
    read: Metadata,
)
    requires
        root < roots.len(),
    ensures
        report::event_record(
            options,
            roots,
            earlier,
            WalkEventView {
                root,
                event: EventView::Entry {
                    path,
                    depth,
                    is_dir,
                    metadata: MetadataView::Read(read),
                },
            },
        ) matches Some(Record::Entry { len, allocated, .. }) && {
            let counts = options.count_hard_links || ((is_dir || !was_linked(earlier, read)) && (
            options.cross_filesystems || read.device_id == roots[root as int].device_id));
            &&& counts ==> len == read.len
            &&& counts && is_dir ==> allocated == 0
            &&& counts && !is_dir && read.size_on_disk is None ==> allocated == 0
            &&& counts && !is_dir ==> (read.size_on_disk matches Some(size) ==> allocated == size)
            &&& !counts ==> len == 0 && allocated == 0
        },
{
    let id = read.id;
    if was_linked(earlier, read) {
        let i = choose|i: int|
            0 <= i < earlier.len() && (#[trigger] earlier[i].event matches EventView::Entry {
                is_dir,
                metadata,
                ..
            } && !is_dir && (metadata matches MetadataView::Read(other) && other.id.volume
                == read.id.volume && other.id.file == read.id.file));
        assert(report::is_link_to(earlier[i].event, id));
    }
    if report::link_observed(earlier, id) {
        let i = choose|i: int|
            #![trigger earlier[i]]
            0 <= i < earlier.len() && report::is_link_to(earlier[i].event, id);
        assert(earlier[i].event matches EventView::Entry { is_dir, metadata, .. } && !is_dir && (
        metadata matches MetadataView::Read(other) && other.id.volume == read.id.volume
            && other.id.file == read.id.file));
    }
}

/// An entry under a root that is not known counts as if that root were on device `0`.
pub proof fn law_sizes_under_an_unknown_root(
    options: WalkOptions,
    roots: Seq<KnownRoot>,
    earlier: Seq<WalkEventView>,
    root: nat,
    path: Seq<char>,
    depth: nat,
    is_dir: bool,
    read: Metadata,
)
    requires
        root >= roots.len(),
    ensures
        ({
            let event = EventView::Entry { path, depth, is_dir, metadata: MetadataView::Read(read) };
            report::event_record(options, roots, earlier, WalkEventView { root, event })
                == report::event_record(
                options,
                roots.push(KnownRoot { path: Seq::empty(), device_id: 0 }),
                earlier,
                WalkEventView { root: roots.len(), event },
            )
        }),
{
}

/// An entry without metadata is reported without a size.
pub proof fn law_no_size_without_metadata(
    options: WalkOptions,
    roots: Seq<KnownRoot>,
    earlier: Seq<WalkEventView>,
    root: nat,
    path: Seq<char>,
    depth: nat,
    is_dir: bool,
)
    ensures
        report::event_record(
            options,
            roots,
            earlier,
            WalkEventView {
                root,
                event: EventView::Entry { path, depth, is_dir, metadata: MetadataView::Skipped },
            },
        ) matches Some(Record::Entry { len, allocated, .. }) && len == 0 && allocated == 0,
{
}

/// An entry whose metadata could not be read is an error that names the entry itself, the root that
/// it is under where that is known, and what the system says.
pub proof fn law_failed_metadata_names_the_entry(
    options: WalkOptions,
    roots: Seq<KnownRoot>,
    earlier: Seq<WalkEventView>,
    root: nat,
    path: Seq<char>,
    depth: nat,
    is_dir: bool,
    message: Seq<char>,
)
    ensures
        report::event_record(
            options,
            roots,
            earlier,
            WalkEventView {
                root,
                event: EventView::Entry {
                    path,
                    depth,
                    is_dir,
                    metadata: MetadataView::Failed(message),
                },
            },
        ) matches Some(Record::Error { root: owner, path: failing, kind, message: said }) && {
            &&& failing == Some(path)
            &&& kind is Metadata
            &&& said == message
            &&& root < roots.len() ==> owner == Some(roots[root as int].path)
            &&& root >= roots.len() ==> owner is None
        },
{
}

/// Whether the entry of a root itself is among `earlier`.
pub open spec fn root_turned_up(earlier: Seq<WalkEventView>, root: nat) -> bool {
    exists|i: int|
        0 <= i < earlier.len() && #[trigger] earlier[i].root == root && (
        earlier[i].event matches EventView::Entry { depth, .. } && depth == 0)
}

/// A failure without a path is the root's own, with the root's path, where the root has not turned up
/// before; where it has, or where the root is not known, no path is named. It does not matter which
/// root it is.
pub proof fn law_failure_is_attributed(
    options: WalkOptions,
    roots: Seq<KnownRoot>,
    earlier: Seq<WalkEventView>,
    root: nat,
    message: Seq<char>,
)
    ensures
        report::event_record(
            options,
            roots,
            earlier,
            WalkEventView { root, event: EventView::Failed(message) },
        ) matches Some(Record::Error { root: owner, path, kind, message: said }) && {
            &&& said == message
            &&& root < roots.len() ==> owner == Some(roots[root as int].path)
            &&& root >= roots.len() ==> owner is None
            &&& root < roots.len() && !root_turned_up(earlier, root) ==> kind is Root && path == Some(
                roots[root as int].path,
            )
            &&& root < roots.len() && root_turned_up(earlier, root) ==> kind is Read && path is None
            &&& root >= roots.len() ==> kind is Read && path is None
        },
{
    if root_turned_up(earlier, root) {
        let i = choose|i: int|
            0 <= i < earlier.len() && #[trigger] earlier[i].root == root && (
            earlier[i].event matches EventView::Entry { depth, .. } && depth == 0);
        assert(report::is_root_entry(earlier[i], root));
    }
    if report::root_reported(earlier, root) {
        let i = choose|i: int|
            #![trigger earlier[i]]
            0 <= i < earlier.len() && report::is_root_entry(earlier[i], root);
        assert(earlier[i].root == root);
    }
}

/// Once a root itself has turned up, whether its metadata could be read or not, a failure without a path
/// under it names the root as the owner and no path.
pub proof fn law_failure_after_the_root_names_no_path(
    options: WalkOptions,
    roots: Seq<KnownRoot>,
    earlier: Seq<WalkEventView>,
    root: nat,
    message: Seq<char>,
    index: int,
)
    requires
        root < roots.len(),
        0 <= index < earlier.len(),
        earlier[index].root == root,
        earlier[index].event matches EventView::Entry { depth, .. } && depth == 0,
    ensures
        report::event_record(
            options,
            roots,
            earlier,
            WalkEventView { root, event: EventView::Failed(message) },
        ) == Some(
            (Record::Error {
                root: Some(roots[root as int].path),
                path: None,
                kind: ErrorKind::Read,
                message,
            }),
        ),
{
    assert(report::is_root_entry(earlier[index], root));
}

/// As long as a root itself has not turned up, a failure without a path under it is the root's own.
pub proof fn law_failure_before_the_root_is_its_own(
    options: WalkOptions,
    roots: Seq<KnownRoot>,
    earlier: Seq<WalkEventView>,
    root: nat,
    message: Seq<char>,
)
    requires
        root < roots.len(),
        forall|i: int|
            0 <= i < earlier.len() && #[trigger] earlier[i].root == root
                ==> !(earlier[i].event matches EventView::Entry { depth, .. } && depth == 0),
    ensures
        report::event_record(
            options,
            roots,
            earlier,
            WalkEventView { root, event: EventView::Failed(message) },
        ) == Some(
            (Record::Error {
                root: Some(roots[root as int].path),
                path: Some(roots[root as int].path),
                kind: ErrorKind::Root,
                message,
            }),
        ),
{
}

/// An event of the walk adds its record to what has come about, and changes nothing before it; the end
/// of a root adds nothing.
pub proof fn law_event_adds_its_record(history: History, event: WalkEventView)
    ensures
        ({
            let after = history.with_event(event).happened();
            let next = report::event_record(
                history.options,
                history.roots(),
                history.events,
                event,
            );
            &&& event.event is Finished ==> after == history.happened()
            &&& !(event.event is Finished) ==> next is Some && after == history.happened().push(
                next->0,
            )
        }),
{
    report::lemma_with_event(history, event);
}

/// An input adds a root or an error, before the walk begins, and changes nothing before it.
pub proof fn law_input_adds_a_root_or_an_error(history: History, input: RootInputView)
    requires
        history.events.len() == 0,
    ensures
        ({
            let after = history.with_input(input);
            let device_id: u64 = if history.options.cross_filesystems {
                0
            } else {
                input.device->Ok_0
            };
            if history.options.cross_filesystems || input.device is Ok {
                &&& after.roots() == history.roots().push(
                    KnownRoot { path: input.path, device_id },
                )
                &&& after.happened() == history.happened()
            } else {
                &&& after.roots() == history.roots()
                &&& after.happened() == history.happened().push(
                    (Record::Error {
                        root: Some(input.path),
                        path: Some(input.path),
                        kind: ErrorKind::Root,
                        message: input.device->Err_0,
                    }),
                )
            }
        }),
{
    let after = history.with_input(input);
    assert(after.inputs.drop_last() =~= history.inputs);
    report::lemma_before_walk(history);
    report::lemma_before_walk(after);
}

/// What is emitted is what came about, with its first entry in front.
pub proof fn law_first_entry_moves_to_the_front(history: History, at: int)
    requires
        0 <= at < history.happened().len(),
        history.happened()[at] is Entry,
        forall|i: int| 0 <= i < at ==> !(#[trigger] history.happened()[i] is Entry),
    ensures
        history.body() == seq![history.happened()[at]] + history.happened().take(at)
            + history.happened().skip(at + 1),
        history.emitted() == history.body(),
{
    let records = history.happened();
    assert(record::has_entry(records));
    report::lemma_entry_first_splits(records);
    let first = choose|first: int| #[trigger] report::moves_entry(records, first);
    assert(first == at);
}

/// One more entry is counted once, as a directory or as a file, and adds its sizes as long as the sums
/// can be held; no error is counted.
pub proof fn law_one_more_entry(
    records: Seq<Record>,
    path: Seq<char>,
    depth: nat,
    is_dir: bool,
    len: nat,
    allocated: nat,
)
    ensures
        ({
            let before = record::tally(records);
            let after = record::tally(
                records.push(Record::Entry { path, depth, is_dir, len, allocated }),
            );
            let apparent = before.apparent_bytes + len;
            let on_disk = before.allocated_bytes + allocated;
            &&& after.entries == before.entries + 1
            &&& after.dirs == before.dirs + (if is_dir { 1int } else { 0 })
            &&& after.files == before.files + (if is_dir { 0int } else { 1 })
            &&& after.errors == before.errors
            &&& apparent <= 0xffff_ffff_ffff_ffff ==> after.apparent_bytes == apparent
            &&& apparent > 0xffff_ffff_ffff_ffff ==> after.apparent_bytes == 0xffff_ffff_ffff_ffff
            &&& on_disk <= 0xffff_ffff_ffff_ffff ==> after.allocated_bytes == on_disk
            &&& on_disk > 0xffff_ffff_ffff_ffff ==> after.allocated_bytes == 0xffff_ffff_ffff_ffff
        }),
{
    record::lemma_tally_push(records, Record::Entry { path, depth, is_dir, len, allocated });
}

/// One more error is counted once, and changes no other counter and no size.
pub proof fn law_one_more_error(
    records: Seq<Record>,
    root: Option<Seq<char>>,
    path: Option<Seq<char>>,
    kind: ErrorKind,
    message: Seq<char>,
)
    ensures
        ({
            let before = record::tally(records);
            let after = record::tally(records.push(Record::Error { root, path, kind, message }));
            &&& after.errors == before.errors + 1
            &&& after.entries == before.entries
            &&& after.dirs == before.dirs
            &&& after.files == before.files
            &&& after.apparent_bytes == before.apparent_bytes
            &&& after.allocated_bytes == before.allocated_bytes
        }),
{
    record::lemma_tally_push(records, Record::Error { root, path, kind, message });
}

/// Nothing is counted where nothing came about.
pub proof fn law_nothing_to_count()
    ensures
        ({
            let none = record::tally(Seq::empty());
            &&& none.entries == 0
            &&& none.dirs == 0
            &&& none.files == 0
            &&& none.errors == 0
            &&& none.apparent_bytes == 0
            &&& none.allocated_bytes == 0
        }),
{
}

/// Taking in an input or an event changes nothing of what was taken in before.
pub proof fn law_history_grows(history: History, input: RootInputView, event: WalkEventView)
    ensures
        history.with_input(input).inputs == history.inputs.push(input),
        history.with_input(input).events == history.events,
        history.with_input(input).options == history.options,
        history.with_input(input).announced == history.announced,
        history.with_event(event).events == history.events.push(event),
        history.with_event(event).inputs == history.inputs,
        history.with_event(event).options == history.options,
        history.with_event(event).announced == history.announced,
{
}

/// The roots of a scan are those of its inputs.
pub proof fn law_roots_are_those_of_the_inputs(history: History)
    ensures
        history.roots() == report::walked_roots(history.options, history.inputs),
{
}

proof fn lemma_entries_come_from_events(
    options: WalkOptions,
    roots: Seq<KnownRoot>,
    events: Seq<WalkEventView>,
)
    ensures
        record::has_entry(report::event_records(options, roots, events)) <==> has_sound_entry(events),
    decreases events.len(),
{
    let records = report::event_records(options, roots, events);
    if events.len() > 0 {
        let front = events.drop_last();
        let before = report::event_records(options, roots, front);
        lemma_entries_come_from_events(options, roots, front);
        if has_sound_entry(events) {
            let i = choose|i: int| 0 <= i < events.len() && #[trigger] is_sound_entry(events[i]);
            if i < front.len() {
                assert(is_sound_entry(front[i]));
                let k = choose|k: int| 0 <= k < before.len() && #[trigger] before[k] is Entry;
                assert(records[k] is Entry);
            } else {
                assert(records[records.len() - 1] is Entry);
            }
        }
        if record::has_entry(records) {
            let k = choose|k: int| 0 <= k < records.len() && #[trigger] records[k] is Entry;
            if k < before.len() {
                assert(before[k] is Entry);
                let i = choose|i: int| 0 <= i < front.len() && #[trigger] is_sound_entry(front[i]);
                assert(is_sound_entry(events[i]));
            } else {
                assert(is_sound_entry(events[events.len() - 1]));
            }
        }
    }
}

/// There is an entry among the records exactly when one has come up.
pub proof fn lemma_has_entry(history: History)
    ensures
        record::has_entry(history.happened()) <==> has_sound_entry(history.events),
{
    let before = report::input_records(history.options, history.inputs);
    let records = report::event_records(history.options, history.roots(), history.events);
    report::lemma_input_records_are_errors(history.options, history.inputs);
    lemma_entries_come_from_events(history.options, history.roots(), history.events);
    if record::has_entry(history.happened()) {
        let k = choose|k: int|
            0 <= k < history.happened().len() && #[trigger] history.happened()[k] is Entry;
        assert(before.len() <= k);
        assert(records[k - before.len()] is Entry);
    }
    if record::has_entry(records) {
        let k = choose|k: int| 0 <= k < records.len() && #[trigger] records[k] is Entry;
        assert(history.happened()[before.len() + k] is Entry);
    }
}

/// While no entry has come up, the records are emitted in the order in which they came about, when
/// the walk has ended.
pub proof fn law_without_entries_all_records_wait(history: History)
    requires
        !has_sound_entry(history.events),
    ensures
        history.body() == history.happened(),
        history.emitted().len() == 0,
{
    lemma_has_entry(history);
    report::lemma_entry_first_without_entry(history.happened());
}

/// The first entry that came up is emitted first, behind it the records that came about before it,
/// and then all others, each in the order in which they came about; and nothing waits.
pub proof fn law_first_entry_is_emitted_first(history: History, index: int)
    requires
        0 <= index < history.events.len(),
        is_sound_entry(history.events[index]),
        forall|i: int| 0 <= i < index ==> !(#[trigger] is_sound_entry(history.events[i])),
    ensures
        ({
            let place = place_of(history, index) as int;
            &&& 0 <= place < history.happened().len()
            &&& history.body() == seq![history.happened()[place]] + history.happened().take(place)
                + history.happened().skip(place + 1)
            &&& history.emitted() == history.body()
        }),
{
    let place = place_of(history, index) as int;
    let records = history.happened();
    let inputs = report::input_records(history.options, history.inputs);
    let first = history.events.take(index);
    let early = report::event_records(history.options, history.roots(), first);
    lemma_has_entry(history);
    law_record_of_event(history, index);
    report::lemma_entry_first_splits(records);
    let at = choose|at: int| #[trigger] report::moves_entry(records, at);
    assert(records[place] is Entry);
    lemma_walked_count(history.options, history.inputs);
    lemma_telling_count(history.options, history.roots(), first);
    report::lemma_event_records_grow(
        history.options,
        history.roots(),
        history.events,
        index as nat,
    );
    report::lemma_input_records_are_errors(history.options, history.inputs);
    lemma_entries_come_from_events(history.options, history.roots(), first);
    if has_sound_entry(first) {
        let i = choose|i: int| 0 <= i < first.len() && #[trigger] is_sound_entry(first[i]);
        assert(is_sound_entry(history.events[i]));
    }
    if at < place {
        if at < inputs.len() {
            assert(records[at] == inputs[at]);
        } else {
            assert(early[at - inputs.len()] == records[at]);
        }
    }
    assert(at == place);
}

/// How many of `events` bring up an entry whose metadata did not fail.
pub open spec fn entries_among(events: Seq<WalkEventView>) -> nat {
    events.filter(|event: WalkEventView| is_sound_entry(event)).len()
}

/// How many of `events` bring up such an entry of a directory.
pub open spec fn dirs_among(events: Seq<WalkEventView>) -> nat {
    events.filter(
        |event: WalkEventView|
            is_sound_entry(event) && (event.event matches EventView::Entry { is_dir, .. } && is_dir),
    ).len()
}

/// How many of `events` bring up such an entry of anything else.
pub open spec fn files_among(events: Seq<WalkEventView>) -> nat {
    events.filter(
        |event: WalkEventView|
            is_sound_entry(event) && (event.event matches EventView::Entry { is_dir, .. }
                && !is_dir),
    ).len()
}

/// How many of `events` bring up a failure.
pub open spec fn failures_among(events: Seq<WalkEventView>) -> nat {
    events.filter(|event: WalkEventView| is_failure(event)).len()
}

proof fn lemma_event_counts(
    options: WalkOptions,
    roots: Seq<KnownRoot>,
    events: Seq<WalkEventView>,
)
    ensures
        ({
            let tally = record::tally(report::event_records(options, roots, events));
            &&& tally.entries == entries_among(events)
            &&& tally.dirs == dirs_among(events)
            &&& tally.files == files_among(events)
            &&& tally.errors == failures_among(events)
        }),
    decreases events.len(),
{
    reveal(Seq::filter);
    if events.len() > 0 {
        let front = events.drop_last();
        lemma_event_counts(options, roots, front);
        if let Some(next) = report::event_record(options, roots, front, events.last()) {
            record::lemma_tally_push(report::event_records(options, roots, front), next);
        }
    }
}

proof fn lemma_input_counts(options: WalkOptions, inputs: Seq<RootInputView>)
    ensures
        ({
            let tally = record::tally(report::input_records(options, inputs));
            &&& tally.entries == 0
            &&& tally.dirs == 0
            &&& tally.files == 0
            &&& tally.errors == skipped_among(options, inputs)
        }),
    decreases inputs.len(),
{
    reveal(Seq::filter);
    if inputs.len() > 0 {
        let front = inputs.drop_last();
        lemma_input_counts(options, front);
        if let Some(next) = report::input_record(options, inputs.last()) {
            record::lemma_tally_push(report::input_records(options, front), next);
        }
    }
}

/// The counters of a scan count what came up: entries, directories and everything else among them,
/// and skipped inputs and failures as errors. It does not matter in which order they are emitted.
pub proof fn law_counters(history: History)
    ensures
        ({
            let tally = record::tally(history.body());
            &&& tally.entries == entries_among(history.events)
            &&& tally.dirs == dirs_among(history.events)
            &&& tally.files == files_among(history.events)
            &&& tally.errors == skipped_among(history.options, history.inputs) + failures_among(
                history.events,
            )
            &&& tally == record::tally(history.happened())
        }),
{
    report::law_holding_back_counts_alike(history.happened());
    lemma_input_counts(history.options, history.inputs);
    lemma_event_counts(history.options, history.roots(), history.events);
    record::lemma_tally_concat(
        report::input_records(history.options, history.inputs),
        report::event_records(history.options, history.roots(), history.events),
    );
}

/// The apparent sizes of the entries among `records`, added up.
pub open spec fn apparent_total(records: Seq<Record>) -> nat {
    records.fold_left(
        0,
        |sum: nat, record: Record|
            match record {
                Record::Entry { len, .. } => sum + len,
                _ => sum,
            },
    )
}

/// The allocated sizes of the entries among `records`, added up.
pub open spec fn allocated_total(records: Seq<Record>) -> nat {
    records.fold_left(
        0,
        |sum: nat, record: Record|
            match record {
                Record::Entry { allocated, .. } => sum + allocated,
                _ => sum,
            },
    )
}

/// The sizes of the summary are the sizes of the entries added up, to the byte, as long as the sums
/// are below two to the sixty-fourth; from there on they stay at the largest number below it.
pub proof fn law_sizes_add_up(records: Seq<Record>)
    ensures
        apparent_total(records) <= 0xffff_ffff_ffff_ffff ==> record::tally(records).apparent_bytes
            == apparent_total(records),
        apparent_total(records) > 0xffff_ffff_ffff_ffff ==> record::tally(records).apparent_bytes
            == 0xffff_ffff_ffff_ffff,
        allocated_total(records) <= 0xffff_ffff_ffff_ffff ==> record::tally(records).allocated_bytes
            == allocated_total(records),
        allocated_total(records) > 0xffff_ffff_ffff_ffff ==> record::tally(records).allocated_bytes
            == 0xffff_ffff_ffff_ffff,
    decreases records.len(),
{
    if records.len() > 0 {
        law_sizes_add_up(records.drop_last());
    }
}

/// The sizes of what is emitted are those of what came about.
pub proof fn law_sizes_do_not_depend_on_the_order(history: History)
    ensures
        record::tally(history.body()).apparent_bytes == record::tally(
            history.happened(),
        ).apparent_bytes,
        record::tally(history.body()).allocated_bytes == record::tally(
            history.happened(),
        ).allocated_bytes,
{
    report::law_holding_back_counts_alike(history.happened());
}

/// The stream is the announcement of the scan with its version, its threads and the number of its
/// inputs, then all the records, then the counters and sizes, then how many errors there were.
pub proof fn law_stream_from_first_to_last(history: History, version: Seq<char>)
    ensures
        ({
            let stream = history.stream(version);
            let count = history.happened().len() as int;
            &&& history.body().len() == count
            &&& stream.len() == count + 3
            &&& stream[0] == (Record::Hello {
                version,
                threads: history.options.threads as nat,
                roots: history.announced,
            })
            &&& forall|i: int|
                0 <= i < count ==> #[trigger] stream[i + 1] == history.body()[i]
            &&& stream[count + 1] == Record::Summary(record::tally(history.body()))
            &&& stream[count + 2] == (Record::Done {
                errors: skipped_among(history.options, history.inputs) + failures_among(
                    history.events,
                ),
            })
        }),
{
    law_counters(history);
    let records = history.happened();
    if record::has_entry(records) {
        report::lemma_entry_first_splits(records);
    } else {
        report::lemma_entry_first_without_entry(records);
    }
}

/// There is room for another event as long as fewer entries, and fewer errors, have come up than a
/// counter can hold.
pub proof fn law_room(history: History)
    ensures
        history.has_room() <==> entries_among(history.events) < 0xffff_ffff_ffff_ffff
            && skipped_among(history.options, history.inputs) + failures_among(history.events)
            < 0xffff_ffff_ffff_ffff,
{
    law_counters(history);
}

} // verus!
