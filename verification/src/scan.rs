//! A scan in progress: from what happens in it to the lines that it emits.
//!
//! A driver announces a scan, adds its inputs, hands over the events of the walk as they come in,
//! and asks for the closing lines. Each step gives the lines that are due; they are to be written and
//! flushed before the next step, so that a consumer can process the stream incrementally and exert
//! back-pressure on the traversal. Errors are held back until an entry has been emitted, or until the
//! walk has ended without one.

use crate::inodes::InodeFilter;
use crate::record;
use crate::record::{ErrorKind, Record, Totals};
use crate::report;
use crate::report::History;
use crate::walk;
use crate::walk::{
    Entry, EventView, Metadata, RootEvent, RootInput, WalkEventView, WalkOptions,
    WalkResult, WalkRoot,
};
use vstd::prelude::*;

verus! {

/// A scan in progress.
pub struct Scan {
    options: WalkOptions,
    announced: usize,
    added: usize,
    /// The walked roots, and for each whether it has turned up in the walk, and its device.
    root_paths: Vec<String>,
    root_emitted: Vec<bool>,
    device_ids: Vec<u64>,
    inodes: InodeFilter,
    totals: Totals,
    /// The lines of the errors that are held back.
    held: Vec<String>,
    history: Ghost<History>,
}

impl View for Scan {
    type V = History;

    closed spec fn view(&self) -> History {
        self.history@
    }
}

/// What ignore patterns are relative to, where there are any.
pub open spec fn pattern_root(options: WalkOptions, path: Seq<char>) -> Option<Seq<char>> {
    if options.ignore_patterns {
        Some(path)
    } else {
        None
    }
}

impl Scan {
    /// The state agrees with what has happened, and the lines held back are those of the records that
    /// have come about without an entry among them.
    pub closed spec fn wf(self) -> bool {
        &&& self.in_step()
        &&& if record::has_entry(self.history@.happened()) {
            self.held@.len() == 0
        } else {
            record::lines_show(record::texts(self.held@), 0, self.history@.happened())
        }
    }

    /// The state agrees with what has happened, leaving aside the lines held back.
    spec fn in_step(self) -> bool {
        let history = self.history@;
        let roots = history.roots();
        &&& history.options == self.options
        &&& history.announced == self.announced
        &&& history.inputs.len() == self.added
        &&& self.added <= self.announced
        &&& self.root_paths@.len() == roots.len()
        &&& self.root_emitted@.len() == roots.len()
        &&& self.device_ids@.len() == roots.len()
        &&& forall|i: int|
            0 <= i < roots.len() ==> (#[trigger] self.root_paths@[i])@ == roots[i].path
        &&& forall|i: int|
            0 <= i < roots.len() ==> #[trigger] self.device_ids@[i] == roots[i].device_id
        &&& forall|i: int|
            0 <= i < roots.len() ==> #[trigger] self.root_emitted@[i] == report::root_reported(
                history.events,
                i as nat,
            )
        &&& !self.options.count_hard_links ==> self.inodes@ == Set::new(
            |id| report::link_observed(history.events, id),
        )
        &&& self.totals@ == record::tally(history.happened())
    }

    /// Announce a scan of `roots` inputs; the line is the first of the stream.
    pub fn begin(version: &str, options: WalkOptions, roots: usize) -> (begun: (Scan, String))
        ensures
            begun.0.wf(),
            begun.0@ == (History {
                options,
                announced: roots as nat,
                inputs: Seq::empty(),
                events: Seq::empty(),
            }),
            record::shows(
                begun.1@,
                (Record::Hello {
                    version: version@,
                    threads: options.threads as nat,
                    roots: roots as nat,
                }),
            ),
    {
        let ghost history = History {
            options,
            announced: roots as nat,
            inputs: Seq::empty(),
            events: Seq::empty(),
        };
        let line = record::hello_line(version, options.threads, roots);
        let scan = Scan {
            options,
            announced: roots,
            added: 0,
            root_paths: Vec::new(),
            root_emitted: Vec::new(),
            device_ids: Vec::new(),
            inodes: InodeFilter::default(),
            totals: Totals::default(),
            held: Vec::new(),
            history: Ghost(history),
        };
        assert(history.happened() =~= Seq::empty());
        assert(scan.inodes@ =~= Set::new(|id| report::link_observed(history.events, id)));
        (scan, line)
    }

    /// Add the next input, and give the root to walk. An input whose device could not be determined is
    /// skipped, and the error is held back.
    pub fn add_root(&mut self, input: RootInput) -> (root: Option<WalkRoot>)
        requires
            old(self).wf(),
            old(self)@.inputs.len() < old(self)@.announced,
            old(self)@.events.len() == 0,
        ensures
            final(self).wf(),
            final(self)@ == old(self)@.with_input(input@),
            match report::device_of(old(self)@.options, input@) {
                Ok(device_id) => root matches Some(root) && {
                    &&& root.index == old(self)@.inputs.len()
                    &&& root.path@ == input@.path
                    &&& crate::paths::text_of(root.pattern_root) == pattern_root(
                        old(self)@.options,
                        input@.path,
                    )
                    &&& root.device_id == device_id
                },
                Err(_) => root is None,
            },
    {
        let ghost before = self.history@;
        let ghost after = before.with_input(input@);
        let index = self.added;
        proof {
            assert(after.inputs.drop_last() =~= before.inputs);
            report::lemma_before_walk(before);
            report::lemma_before_walk(after);
            record::lemma_tally_bound(before.happened());
            report::lemma_input_records_bound(before.options, before.inputs);
            self.history@ = after;
        }
        self.added = self.added + 1;
        let device_id: u64 = if self.options.cross_filesystems {
            0
        } else {
            match &input.device {
                Ok(device_id) => *device_id,
                Err(message) => {
                    let line = record::report_error(
                        Some(input.path.as_str()),
                        Some(input.path.as_str()),
                        ErrorKind::Root,
                        message.as_str(),
                        &mut self.totals,
                    );
                    self.hold(line, Ghost(before.happened()), Ghost(after.happened().last()));
                    proof {
                        record::lemma_tally_push(before.happened(), after.happened().last());
                    }
                    return None;
                },
            }
        };
        self.root_paths.push(input.path.clone());
        self.root_emitted.push(false);
        self.device_ids.push(device_id);
        let pattern_root: Option<String> = if self.options.ignore_patterns {
            Some(input.path.clone())
        } else {
            None
        };
        Some(WalkRoot { index, path: input.path, pattern_root, device_id })
    }

    /// Hold back the line of an error.
    fn hold(&mut self, line: String, before: Ghost<Seq<Record>>, next: Ghost<Record>)
        requires
            record::lines_show(record::texts(old(self).held@), 0, before@),
            record::shows(line@, next@),
        ensures
            *final(self) == (Scan { held: final(self).held, ..*old(self) }),
            record::lines_show(record::texts(final(self).held@), 0, before@.push(next@)),
    {
        self.held.push(line);
        proof {
            let was = record::texts(old(self).held@);
            let now = record::texts(self.held@);
            assert forall|i: int| 0 <= i < before@.push(next@).len() implies record::shows(
                #[trigger] now[0 + i],
                before@.push(next@)[i],
            ) by {
                if i < before@.len() {
                    assert(now[i] == was[0 + i]);
                }
            }
        }
    }

    /// Whether the counters can take another event.
    pub fn has_room(&self) -> (result: bool)
        requires
            self.wf(),
        ensures
            result == self@.has_room(),
    {
        self.totals.entries < u64::MAX && self.totals.errors < u64::MAX
    }

    /// Whether the bytes of an entry count. Must be asked once for each entry, in order.
    fn count(&mut self, root_idx: usize, is_dir: bool, metadata: &Metadata) -> (counts: bool)
        requires
            old(self).in_step(),
        ensures
            counts == report::counted(
                old(self)@.options,
                old(self)@.roots(),
                old(self)@.events,
                root_idx as nat,
                is_dir,
                *metadata,
            ),
            *final(self) == (Scan { inodes: final(self).inodes, ..*old(self) }),
            !old(self).options.count_hard_links ==> final(self).inodes@ == (if is_dir {
                old(self).inodes@
            } else {
                old(self).inodes@.insert(metadata.id)
            }),
    {
        if self.options.count_hard_links {
            return true;
        }
        let first = self.inodes.add(is_dir, metadata.id);
        let device_id: u64 = if root_idx < self.device_ids.len() {
            self.device_ids[root_idx]
        } else {
            0
        };
        first && (self.options.cross_filesystems || metadata.device_id == device_id)
    }

    /// Count an emitted entry.
    fn add_entry(totals: &mut Totals, is_dir: bool, len: u64, allocated: u64)
        requires
            old(totals).entries < u64::MAX,
            old(totals).dirs + old(totals).files == old(totals).entries,
        ensures
            final(totals)@ == (record::Tally {
                entries: old(totals)@.entries + 1,
                dirs: old(totals)@.dirs + if is_dir { 1nat } else { 0 },
                files: old(totals)@.files + if is_dir { 0nat } else { 1 },
                errors: old(totals)@.errors,
                apparent_bytes: record::capped(old(totals)@.apparent_bytes + len as nat),
                allocated_bytes: record::capped(old(totals)@.allocated_bytes + allocated as nat),
            }),
    {
        totals.entries = totals.entries + 1;
        if is_dir {
            totals.dirs = totals.dirs + 1;
        } else {
            totals.files = totals.files + 1;
        }
        totals.apparent_bytes = totals.apparent_bytes.saturating_add(len);
        totals.allocated_bytes = totals.allocated_bytes.saturating_add(allocated);
    }

    /// Take in an entry, and give its line.
    fn observe_entry(&mut self, root_idx: usize, entry: Entry) -> (line: String)
        requires
            old(self).in_step(),
            old(self)@.has_room(),
        ensures
            final(self).in_step(),
            final(self).held == old(self).held,
            final(self)@ == old(self)@.with_event(
                WalkEventView { root: root_idx as nat, event: entry@ },
            ),
            report::event_record(
                old(self)@.options,
                old(self)@.roots(),
                old(self)@.events,
                WalkEventView { root: root_idx as nat, event: entry@ },
            ) matches Some(record) && record::shows(line@, record),
    {
        let ghost before = self.history@;
        let ghost happened = WalkEventView { root: root_idx as nat, event: entry@ };
        let ghost next = report::event_record(
            before.options,
            before.roots(),
            before.events,
            happened,
        )->0;
        proof {
            record::law_dirs_and_files_make_up_entries(before.happened());
            report::lemma_with_event(before, happened);
            record::lemma_tally_push(before.happened(), next);
            report::lemma_observed(before.events, happened);
        }
        let line = match &entry.metadata {
            Some(Ok(metadata)) => {
                let counts = self.count(root_idx, entry.is_dir, metadata);
                let len: u64 = if counts { metadata.len } else { 0 };
                let allocated: u64 = if counts {
                    walk::allocated_size(entry.is_dir, metadata)
                } else {
                    0
                };
                Self::add_entry(&mut self.totals, entry.is_dir, len, allocated);
                record::entry_line(entry.path.as_str(), entry.depth, entry.is_dir, len, allocated)
            },
            Some(Err(message)) => {
                // The failing entry is known here, so its exact path is reported.
                let root: Option<&str> = if root_idx < self.root_paths.len() {
                    Some(self.root_paths[root_idx].as_str())
                } else {
                    None
                };
                record::report_error(
                    root,
                    Some(entry.path.as_str()),
                    ErrorKind::Metadata,
                    message.as_str(),
                    &mut self.totals,
                )
            },
            None => {
                // No metadata was asked for: a zero-sized entry rather than a guessed size.
                Self::add_entry(&mut self.totals, entry.is_dir, 0, 0);
                record::entry_line(entry.path.as_str(), entry.depth, entry.is_dir, 0, 0)
            },
        };
        if entry.depth == 0 && root_idx < self.root_emitted.len() {
            self.root_emitted.set(root_idx, true);
        }
        proof {
            self.history@ = before.with_event(happened);
            if !self.options.count_hard_links {
                assert(self.inodes@ =~= Set::new(
                    |id| report::link_observed(self.history@.events, id),
                ));
            }
        }
        line
    }

    /// Take in an error that no path is known for, and give its line.
    fn observe_failure(&mut self, root_idx: usize, message: String) -> (line: String)
        requires
            old(self).in_step(),
            old(self)@.has_room(),
        ensures
            final(self).in_step(),
            final(self).held == old(self).held,
            final(self)@ == old(self)@.with_event(
                WalkEventView { root: root_idx as nat, event: EventView::Failed(message@) },
            ),
            report::event_record(
                old(self)@.options,
                old(self)@.roots(),
                old(self)@.events,
                WalkEventView { root: root_idx as nat, event: EventView::Failed(message@) },
            ) matches Some(record) && record::shows(line@, record),
    {
        let ghost before = self.history@;
        let ghost happened = WalkEventView {
            root: root_idx as nat,
            event: EventView::Failed(message@),
        };
        proof {
            report::lemma_with_event(before, happened);
            record::lemma_tally_push(
                before.happened(),
                report::event_record(before.options, before.roots(), before.events, happened)->0,
            );
            report::lemma_observed(before.events, happened);
        }
        let root: Option<&str> = if root_idx < self.root_paths.len() {
            Some(self.root_paths[root_idx].as_str())
        } else {
            None
        };
        // A root whose own preparation failed never turned up at depth `0`, so the error is
        // attributed to the input path exactly. Errors that arrive after the root turned up cannot
        // be tied to a directory; only the owning input root is named.
        let line = if root_idx < self.root_emitted.len() && !self.root_emitted[root_idx] {
            record::report_error(root, root, ErrorKind::Root, message.as_str(), &mut self.totals)
        } else {
            record::report_error(root, None, ErrorKind::Read, message.as_str(), &mut self.totals)
        };
        proof {
            self.history@ = before.with_event(happened);
            if !self.options.count_hard_links {
                assert(self.inodes@ =~= Set::new(
                    |id| report::link_observed(self.history@.events, id),
                ));
            }
        }
        line
    }

    /// Take in an event of the walk, and give the line for it, if it has one.
    fn take_in(&mut self, root_idx: usize, event: RootEvent) -> (line: Option<String>)
        requires
            old(self).in_step(),
            old(self)@.has_room(),
        ensures
            final(self).in_step(),
            final(self).held == old(self).held,
            final(self)@ == old(self)@.with_event(
                WalkEventView { root: root_idx as nat, event: event@ },
            ),
            match report::event_record(
                old(self)@.options,
                old(self)@.roots(),
                old(self)@.events,
                WalkEventView { root: root_idx as nat, event: event@ },
            ) {
                Some(record) => line matches Some(text) && record::shows(text@, record),
                None => line is None,
            },
    {
        match event {
            RootEvent::Finished => {
                proof {
                    let before = self.history@;
                    let happened = WalkEventView {
                        root: root_idx as nat,
                        event: EventView::Finished,
                    };
                    report::lemma_with_event(before, happened);
                    report::lemma_observed(before.events, happened);
                    self.history@ = before.with_event(happened);
                    if !self.options.count_hard_links {
                        assert(self.inodes@ =~= Set::new(
                            |id| report::link_observed(self.history@.events, id),
                        ));
                    }
                }
                None
            },
            RootEvent::Entry(Ok(entry)) => Some(self.observe_entry(root_idx, entry)),
            RootEvent::Entry(Err(message)) => Some(self.observe_failure(root_idx, message)),
        }
    }

    /// Take in an event of the walk, and give the lines that are due: none while only errors have come
    /// about, the first entry and the errors held back until it, and from there on the line of the
    /// event.
    pub fn observe(&mut self, root_idx: usize, event: RootEvent) -> (due: Vec<String>)
        requires
            old(self).wf(),
            old(self)@.has_room(),
        ensures
            final(self).wf(),
            final(self)@ == old(self)@.with_event(
                WalkEventView { root: root_idx as nat, event: event@ },
            ),
            old(self)@.emitted().is_prefix_of(final(self)@.emitted()),
            record::lines_show(
                record::texts(due@),
                0,
                final(self)@.emitted().skip(old(self)@.emitted().len() as int),
            ),
    {
        let ghost before = self.history@;
        let ghost held = record::texts(self.held@);
        proof {
            let happened = WalkEventView { root: root_idx as nat, event: event@ };
            report::lemma_with_event(before, happened);
            record::lemma_has_entry(before.happened());
            record::lemma_has_entry(before.with_event(happened).happened());
            if let Some(next) = report::event_record(
                before.options,
                before.roots(),
                before.events,
                happened,
            ) {
                report::lemma_entry_first_push(before.happened(), next);
            }
        }
        let begun = self.totals.entries > 0;
        let mut due: Vec<String> = Vec::new();
        match self.take_in(root_idx, event) {
            Some(line) => {
                let ghost next = self.history@.happened().last();
                assert(self.history@.happened() == before.happened().push(next));
                if self.totals.entries == 0 {
                    self.hold(line, Ghost(before.happened()), Ghost(next));
                    assert(self.history@.emitted() =~= Seq::empty());
                } else {
                    due.push(line);
                    if !begun {
                        due.append(&mut self.held);
                        proof {
                            let lines = record::texts(due@);
                            let emitted = self.history@.emitted();
                            assert(emitted =~= seq![next] + before.happened());
                            assert(emitted.skip(0) =~= emitted);
                            assert forall|i: int| 0 <= i < emitted.len() implies record::shows(
                                #[trigger] lines[0 + i],
                                emitted[i],
                            ) by {
                                if i > 0 {
                                    assert(lines[i] == held[0 + (i - 1)]);
                                }
                            }
                        }
                    } else {
                        assert(self.history@.emitted().skip(before.emitted().len() as int)
                            =~= seq![next]);
                        assert(record::texts(due@)[0] == line@);
                    }
                }
            },
            None => {
                assert(self.history@.emitted().skip(before.emitted().len() as int)
                    =~= Seq::empty());
            },
        }
        due
    }

    /// End the scan: the lines that close the stream, beginning with the errors still held back, and
    /// how the walk went.
    pub fn finish(self) -> (closed: (Vec<String>, WalkResult))
        requires
            self.wf(),
        ensures
            record::lines_show(record::texts(closed.0@), 0, self@.closing()),
            closed.1.num_errors == record::tally(self@.body()).errors,
    {
        let ghost history = self.history@;
        let ghost held = record::texts(self.held@);
        proof {
            report::law_holding_back_counts_alike(history.happened());
            if !record::has_entry(history.happened()) {
                report::lemma_entry_first_without_entry(history.happened());
            }
        }
        let summary = record::summary_line(&self.totals);
        let done = record::done_line(&self.totals);
        let result = WalkResult { num_errors: self.totals.errors };
        let mut lines = self.held;
        lines.push(summary);
        lines.push(done);
        proof {
            let shown = record::texts(lines@);
            let closing = history.closing();
            let behind = history.body().skip(history.emitted().len() as int);
            assert(behind.len() == held.len());
            assert forall|i: int| 0 <= i < closing.len() implies record::shows(
                #[trigger] shown[0 + i],
                closing[i],
            ) by {
                if i < held.len() {
                    assert(shown[i] == held[0 + i]);
                    assert(behind =~= history.happened());
                }
            }
        }
        (lines, result)
    }
}

} // verus!
