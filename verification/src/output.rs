//! The output that lines are written to, and how it can fail.

use crate::record;
use vstd::prelude::*;

verus! {

/// What is done with a line.
#[derive(Clone, Copy, Debug, PartialEq, Eq, Structural)]
pub enum Stage {
    Write,
    Flush,
}

impl Stage {
    /// What a failure at this stage is reported as.
    pub fn context(self) -> (text: &'static str)
        ensures
            text@ == (match self {
                Stage::Write => "could not write NDJSON event"@,
                Stage::Flush => "could not flush NDJSON event"@,
            }),
    {
        match self {
            Stage::Write => "could not write NDJSON event",
            Stage::Flush => "could not flush NDJSON event",
        }
    }
}

/// A line that did not get through.
#[derive(Debug)]
pub struct StreamError {
    pub stage: Stage,
    /// What the output says of it.
    pub cause: String,
}

/// The failure of an output: it flushes so many lines in all, and fails at the next.
#[derive(Debug)]
pub struct Fault {
    pub after: usize,
    /// How many bytes of the next line are accepted, at most, where writing it is what fails.
    pub partial: usize,
    pub error: StreamError,
}

/// An output that keeps what it was given.
#[derive(Debug)]
pub struct Output {
    lines: Vec<String>,
    accepted: Vec<u8>,
    fault: Option<Fault>,
}

/// What an output was given: the lines that were written and flushed, without their line ends, and
/// all the bytes that were accepted, those of a line that failed later on among them.
pub struct OutputView {
    pub lines: Seq<Seq<char>>,
    pub accepted: Seq<u8>,
}

impl View for Output {
    type V = OutputView;

    closed spec fn view(&self) -> OutputView {
        OutputView { lines: record::texts(self.lines@), accepted: self.accepted@ }
    }
}

/// The bytes of a line and its line end.
pub open spec fn framed(line: Seq<char>) -> Seq<u8> {
    vstd::utf8::encode_utf8(line.push('\n'))
}

/// The bytes of a stream: every line with a line end behind it.
pub open spec fn stream_bytes(lines: Seq<Seq<char>>) -> Seq<u8>
    decreases lines.len(),
{
    if lines.len() == 0 {
        Seq::empty()
    } else {
        stream_bytes(lines.drop_last()) + framed(lines.last())
    }
}

/// The bytes of a line that are accepted although the line fails: all of them where flushing is what
/// fails, and a front part where writing is.
pub open spec fn accepted_of(fault: Fault, line: Seq<char>) -> Seq<u8> {
    if fault.error.stage is Flush || framed(line).len() <= fault.partial {
        framed(line)
    } else {
        framed(line).take(fault.partial as int)
    }
}

impl Output {
    /// When and how the output fails, if it does.
    pub closed spec fn fault(self) -> Option<Fault> {
        self.fault
    }

    /// How many of `count` further lines get through.
    pub open spec fn takes(self, count: nat) -> nat {
        match self.fault() {
            Some(fault) => if fault.after <= self@.lines.len() {
                0
            } else if fault.after - self@.lines.len() < count {
                (fault.after - self@.lines.len()) as nat
            } else {
                count
            },
            None => count,
        }
    }

    /// An output that holds some bytes already, and fails as told, or never.
    pub fn new(accepted: Vec<u8>, fault: Option<Fault>) -> (output: Output)
        ensures
            output@.lines == Seq::<Seq<char>>::empty(),
            output@.accepted == accepted@,
            output.fault() == fault,
    {
        let output = Output { lines: Vec::new(), accepted, fault };
        assert(output@.lines =~= Seq::empty());
        output
    }

    /// The number of lines that got through.
    pub fn len(&self) -> (count: usize)
        ensures
            count == self@.lines.len(),
    {
        self.lines.len()
    }

    /// A line that got through.
    pub fn line(&self, index: usize) -> (line: &str)
        requires
            index < self@.lines.len(),
        ensures
            line@ == self@.lines[index as int],
    {
        self.lines[index].as_str()
    }

    /// All the bytes that were accepted.
    pub fn accepted(&self) -> (bytes: &Vec<u8>)
        ensures
            bytes@ == self@.accepted,
    {
        &self.accepted
    }

    /// Accept the first `count` bytes of `bytes`.
    fn accept(&mut self, bytes: &[u8], count: usize)
        requires
            count <= bytes@.len(),
        ensures
            final(self).accepted@ == old(self).accepted@ + bytes@.take(count as int),
            final(self).lines == old(self).lines,
            final(self).fault == old(self).fault,
    {
        let mut i: usize = 0;
        assert(self.accepted@ =~= old(self).accepted@ + bytes@.take(0));
        while i < count
            invariant
                i <= count <= bytes@.len(),
                self.accepted@ == old(self).accepted@ + bytes@.take(i as int),
                self.lines == old(self).lines,
                self.fault == old(self).fault,
            decreases count - i,
        {
            self.accepted.push(bytes[i]);
            i = i + 1;
            assert(self.accepted@ =~= old(self).accepted@ + bytes@.take(i as int));
        }
    }
}

/// Write a line and its line end, and flush it.
///
/// Where flushing fails, the whole line has been accepted; where writing fails, it need not have been.
pub fn write_flushed(out: &mut Output, line: String) -> (result: Result<(), StreamError>)
    ensures
        final(out).fault() == old(out).fault(),
        match old(out).fault() {
            Some(fault) if fault.after <= old(out)@.lines.len() => {
                &&& result == Err::<(), StreamError>(fault.error)
                &&& final(out)@.lines == old(out)@.lines
                &&& final(out)@.accepted == old(out)@.accepted + accepted_of(fault, line@)
            },
            _ => {
                &&& result is Ok
                &&& final(out)@.lines == old(out)@.lines.push(line@)
                &&& final(out)@.accepted == old(out)@.accepted + framed(line@)
            },
        },
{
    let mut text = line.clone();
    text.push('\n');
    let bytes = text.as_str().as_bytes();
    let len = bytes.len();
    assert(bytes@ == framed(line@));
    assert(bytes@.take(len as int) =~= bytes@);
    let mut failed: Option<StreamError> = None;
    let mut count: usize = len;
    if let Some(fault) = &out.fault {
        if fault.after <= out.lines.len() {
            failed =
            Some(StreamError { stage: fault.error.stage, cause: fault.error.cause.clone() });
            if fault.error.stage == Stage::Write && fault.partial < len {
                count = fault.partial;
            }
        }
    }
    out.accept(bytes, count);
    match failed {
        Some(error) => Err(error),
        None => {
            out.lines.push(line);
            assert(out@.lines =~= old(out)@.lines.push(line@));
            Ok(())
        },
    }
}

} // verus!
