//! What a traversal reads from the file system, as plain values.

use crate::inodes::FileId;
use vstd::prelude::*;

verus! {

/// How the inputs are walked.
#[derive(Clone, Copy, Debug)]
pub struct WalkOptions {
    /// The number of threads that walk.
    pub threads: usize,
    /// Count every hard link of a file, not only the first that is observed.
    pub count_hard_links: bool,
    /// Count entries on other file systems than the one of their root.
    pub cross_filesystems: bool,
    /// Whether there are patterns of entries to ignore.
    pub ignore_patterns: bool,
}

/// An input of the walk, with what the lookup of its device gave: an identifier, or the message of
/// the error. The lookup is not looked at where file systems may be crossed.
#[derive(Debug)]
pub struct RootInput {
    pub path: String,
    pub device: Result<u64, String>,
}

/// A root to be walked.
#[derive(Debug)]
pub struct WalkRoot {
    /// The position of the root among the inputs.
    pub index: usize,
    pub path: String,
    /// What ignore patterns are relative to, where there are any.
    pub pattern_root: Option<String>,
    pub device_id: u64,
}

/// What the file system says of an entry.
#[derive(Clone, Copy, Debug)]
pub struct Metadata {
    /// The apparent size in bytes.
    pub len: u64,
    /// The size on disk in bytes, where it could be determined.
    pub size_on_disk: Option<u64>,
    /// What tells the file apart from others.
    pub id: FileId,
    /// The device that the entry is on.
    pub device_id: u64,
}

/// A traversed entry.
#[derive(Debug)]
pub struct Entry {
    pub path: String,
    /// How far below its root the entry is; `0` for the root itself.
    pub depth: usize,
    pub is_dir: bool,
    /// The metadata or the message of the error that came in its place; `None` where it was not
    /// asked for.
    pub metadata: Option<Result<Metadata, String>>,
}

/// What the walk of a root brings up.
#[derive(Debug)]
pub enum RootEvent {
    /// The root has been walked.
    Finished,
    /// An entry, or the message of an error that no path is known for.
    Entry(Result<Entry, String>),
}

/// An event of the walk, with the position of its root among the walked roots.
#[derive(Debug)]
pub struct WalkEvent {
    pub root: usize,
    pub event: RootEvent,
}

/// How a walk went.
#[derive(Clone, Copy, Debug, PartialEq, Eq, Structural)]
pub struct WalkResult {
    pub num_errors: u64,
}

/// The mathematical value of a `RootInput`.
pub struct RootInputView {
    pub path: Seq<char>,
    pub device: Result<u64, Seq<char>>,
}

/// The mathematical value of an `Entry`'s metadata.
pub enum MetadataView {
    Read(Metadata),
    Failed(Seq<char>),
    Skipped,
}

/// The mathematical value of a `RootEvent`.
pub enum EventView {
    Finished,
    Entry { path: Seq<char>, depth: nat, is_dir: bool, metadata: MetadataView },
    Failed(Seq<char>),
}

/// The mathematical value of a `WalkEvent`.
pub struct WalkEventView {
    pub root: nat,
    pub event: EventView,
}

impl View for RootInput {
    type V = RootInputView;

    open spec fn view(&self) -> RootInputView {
        RootInputView {
            path: self.path@,
            device: match self.device {
                Ok(id) => Ok(id),
                Err(message) => Err(message@),
            },
        }
    }
}

impl View for Entry {
    type V = EventView;

    open spec fn view(&self) -> EventView {
        EventView::Entry {
            path: self.path@,
            depth: self.depth as nat,
            is_dir: self.is_dir,
            metadata: match self.metadata {
                Some(Ok(metadata)) => MetadataView::Read(metadata),
                Some(Err(message)) => MetadataView::Failed(message@),
                None => MetadataView::Skipped,
            },
        }
    }
}

impl View for RootEvent {
    type V = EventView;

    open spec fn view(&self) -> EventView {
        match self {
            RootEvent::Finished => EventView::Finished,
            RootEvent::Entry(Ok(entry)) => entry@,
            RootEvent::Entry(Err(message)) => EventView::Failed(message@),
        }
    }
}

impl View for WalkEvent {
    type V = WalkEventView;

    open spec fn view(&self) -> WalkEventView {
        WalkEventView { root: self.root as nat, event: self.event@ }
    }
}

/// The protocol-facing kind of an entry.
pub open spec fn kind_name(is_dir: bool) -> Seq<char> {
    if is_dir {
        "dir"@
    } else {
        "file"@
    }
}

/// The bytes allocated for an entry: none for a directory, to match disk-usage accounting, which
/// only sizes files, and none where the size on disk is not known.
pub open spec fn allocation(is_dir: bool, metadata: Metadata) -> u64 {
    if is_dir {
        0
    } else {
        match metadata.size_on_disk {
            Some(bytes) => bytes,
            None => 0,
        }
    }
}

/// Return the protocol-facing kind of a traversed entry.
pub fn entry_kind(is_dir: bool) -> (kind: &'static str)
    ensures
        kind@ == kind_name(is_dir),
{
    if is_dir {
        "dir"
    } else {
        "file"
    }
}

/// Allocate `0` bytes for directories to match the CLI's disk-usage accounting, which only sizes
/// files; every other entry reports its filesystem allocation.
pub fn allocated_size(is_dir: bool, metadata: &Metadata) -> (bytes: u64)
    ensures
        bytes == allocation(is_dir, *metadata),
{
    if is_dir {
        0
    } else {
        match metadata.size_on_disk {
            Some(bytes) => bytes,
            None => 0,
        }
    }
}

} // verus!
