//! Writing a whole file: what is to be done to the file, one step at a time.
//!
//! A `Writer` holds what a call has to put into a file and how far it has
//! come. The caller asks for the next step, performs it on the file, and
//! reports how it went. The first step that fails ends the work: its error is
//! what the call returns, and nothing is asked of the file after it.

use crate::error::IoError;
use crate::record::{record, records, LF};
use crate::text::{encode_all, encode_text};
use vstd::prelude::*;
use vstd::slice::*;
use vstd::string::*;
use vstd::utf8::*;

verus! {

/// How the file is opened for writing. Either way it is created where it does
/// not exist.
#[derive(Clone, Copy, Debug, PartialEq, Eq, Structural)]
pub enum WriteMode {
    /// What the file held is discarded before anything is written.
    Overwrite,
    /// What the file held stays, and writing starts at its end.
    Append,
}

/// The step that a writer asks for.
#[derive(Clone, Copy, Debug, PartialEq, Eq)]
pub enum WriteAction<'a> {
    /// Open the file in this mode.
    Open(WriteMode),
    /// Write all of these bytes to the file.
    Write(&'a [u8]),
    /// Flush what was written.
    Flush,
    /// The work is over: return this.
    Return(Result<(), IoError>),
}

/// A `WriteAction` as contracts see it.
pub enum WriteStep {
    Open(WriteMode),
    Write(Seq<u8>),
    Flush,
    Return(Result<(), IoError>),
}

impl<'a> View for WriteAction<'a> {
    type V = WriteStep;

    open spec fn view(&self) -> WriteStep {
        match *self {
            WriteAction::Open(mode) => WriteStep::Open(mode),
            WriteAction::Write(bytes) => WriteStep::Write(bytes@),
            WriteAction::Flush => WriteStep::Flush,
            WriteAction::Return(result) => WriteStep::Return(result),
        }
    }
}

/// How far a writer has come, as contracts see it.
pub enum WriteStage {
    /// The file is still to be opened.
    Opening,
    /// The file is open, this many records are written, and at least one is
    /// still to be written.
    Writing(nat),
    /// Every record is written; the flush is still to be done.
    Flushing,
    /// Every step succeeded.
    Done,
    /// A step failed with this error.
    Failed(IoError),
}

/// A writer as contracts see it.
pub struct WriterView {
    pub mode: WriteMode,
    /// The byte strings to write, each with one write, in this order.
    pub records: Seq<Seq<u8>>,
    pub stage: WriteStage,
}

impl WriterView {
    /// The writer before its first step.
    pub open spec fn start(mode: WriteMode, records: Seq<Seq<u8>>) -> WriterView {
        WriterView { mode, records, stage: WriteStage::Opening }
    }

    /// The stage of an open file with `written` records written.
    pub open spec fn stage_after(self, written: nat) -> WriteStage {
        if written < self.records.len() {
            WriteStage::Writing(written)
        } else {
            WriteStage::Flushing
        }
    }

    /// The step to perform now.
    pub open spec fn action(self) -> WriteStep {
        match self.stage {
            WriteStage::Opening => WriteStep::Open(self.mode),
            WriteStage::Writing(written) => WriteStep::Write(self.records[written as int]),
            WriteStage::Flushing => WriteStep::Flush,
            WriteStage::Done => WriteStep::Return(Ok(())),
            WriteStage::Failed(error) => WriteStep::Return(Err(error)),
        }
    }

    /// The writer after its step went as `outcome` says. A finished writer
    /// stays as it is.
    pub open spec fn advance(self, outcome: Result<(), IoError>) -> WriterView {
        let stage = match self.stage {
            WriteStage::Done => WriteStage::Done,
            WriteStage::Failed(error) => WriteStage::Failed(error),
            WriteStage::Opening => match outcome {
                Ok(_) => self.stage_after(0),
                Err(error) => WriteStage::Failed(error),
            },
            WriteStage::Writing(written) => match outcome {
                Ok(_) => self.stage_after(written + 1),
                Err(error) => WriteStage::Failed(error),
            },
            WriteStage::Flushing => match outcome {
                Ok(_) => WriteStage::Done,
                Err(error) => WriteStage::Failed(error),
            },
        };
        WriterView { stage, ..self }
    }
}

/// What each of `records` holds.
spec fn contents(records: Seq<Vec<u8>>) -> Seq<Seq<u8>> {
    records.map_values(|bytes: Vec<u8>| bytes@)
}

#[derive(Clone, Copy, Debug)]
enum Stage {
    Opening,
    Writing(usize),
    Flushing,
    Done,
    Failed(IoError),
}

/// The work of one call that writes a file.
#[derive(Debug)]
pub struct Writer {
    mode: WriteMode,
    records: Vec<Vec<u8>>,
    stage: Stage,
}

impl View for Writer {
    type V = WriterView;

    closed spec fn view(&self) -> WriterView {
        WriterView {
            mode: self.mode,
            records: contents(self.records@),
            stage: match self.stage {
                Stage::Opening => WriteStage::Opening,
                Stage::Writing(written) => WriteStage::Writing(written as nat),
                Stage::Flushing => WriteStage::Flushing,
                Stage::Done => WriteStage::Done,
                Stage::Failed(error) => WriteStage::Failed(error),
            },
        }
    }
}

impl Writer {
    #[verifier::type_invariant]
    spec fn inv(self) -> bool {
        self.stage matches Stage::Writing(written) ==> written < self.records.len()
    }

    fn new(mode: WriteMode, records: Vec<Vec<u8>>) -> (writer: Writer)
        ensures
            writer@ == WriterView::start(mode, contents(records@)),
    {
        Writer { mode, records, stage: Stage::Opening }
    }

    fn stage_after(&self, written: usize) -> (stage: Stage)
        requires
            written <= self.records.len(),
        ensures
            stage matches Stage::Writing(w) ==> w == written && written < self.records.len(),
            stage is Writing || stage is Flushing,
            stage is Flushing ==> written == self.records.len(),
    {
        if written < self.records.len() {
            Stage::Writing(written)
        } else {
            Stage::Flushing
        }
    }

    /// The step to perform now. For a finished writer it is to return the
    /// result of the work.
    pub fn next_action(&self) -> (action: WriteAction<'_>)
        ensures
            action@ == self@.action(),
    {
        proof {
            use_type_invariant(self);
        }
        match self.stage {
            Stage::Opening => WriteAction::Open(self.mode),
            Stage::Writing(written) => WriteAction::Write(self.records[written].as_slice()),
            Stage::Flushing => WriteAction::Flush,
            Stage::Done => WriteAction::Return(Ok(())),
            Stage::Failed(error) => WriteAction::Return(Err(error)),
        }
    }

    /// Takes note of how the step went that `next_action` asked for. A failure
    /// ends the work. A finished writer takes no note.
    pub fn advance(&mut self, outcome: Result<(), IoError>)
        ensures
            final(self)@ == old(self)@.advance(outcome),
    {
        proof {
            use_type_invariant(&*self);
        }
        let stage = match self.stage {
            Stage::Done => Stage::Done,
            Stage::Failed(error) => Stage::Failed(error),
            Stage::Opening => match outcome {
                Ok(_) => self.stage_after(0),
                Err(error) => Stage::Failed(error),
            },
            Stage::Writing(written) => match outcome {
                Ok(_) => self.stage_after(written + 1),
                Err(error) => Stage::Failed(error),
            },
            Stage::Flushing => match outcome {
                Ok(_) => Stage::Done,
                Err(error) => Stage::Failed(error),
            },
        };
        self.stage = stage;
    }
}

/// The texts of `lines`, in their order.
pub open spec fn texts(lines: Seq<&str>) -> Seq<Seq<char>> {
    lines.map_values(|line: &str| line@)
}

/// The record of each line: its bytes and a line feed.
fn line_records(lines: &[&str]) -> (out: Vec<Vec<u8>>)
    ensures
        contents(out@) == records(encode_all(texts(lines@))),
{
    let mut out: Vec<Vec<u8>> = Vec::new();
    let mut i: usize = 0;
    while i < lines.len()
        invariant
            i <= lines.len(),
            out.len() == i,
            forall|k: int| 0 <= k < i ==> out[k]@ == record(encode_utf8(lines@[k]@)),
        decreases lines.len() - i,
    {
        let mut bytes = encode_text(lines[i]);
        bytes.push(LF);
        out.push(bytes);
        i += 1;
    }
    assert(contents(out@) =~= records(encode_all(texts(lines@))));
    out
}

fn one_record(bytes: Vec<u8>) -> (out: Vec<Vec<u8>>)
    ensures
        contents(out@) == seq![bytes@],
{
    let mut out: Vec<Vec<u8>> = Vec::new();
    out.push(bytes);
    assert(contents(out@) =~= seq![bytes@]);
    out
}

/// The work of writing `bytes` to a file in place of what it held.
pub fn write_all_bytes(bytes: &[u8]) -> (writer: Writer)
    ensures
        writer@ == WriterView::start(WriteMode::Overwrite, seq![bytes@]),
{
    Writer::new(WriteMode::Overwrite, one_record(slice_to_vec(bytes)))
}

/// The work of writing `bytes` at the end of a file.
pub fn append_all_bytes(bytes: &[u8]) -> (writer: Writer)
    ensures
        writer@ == WriterView::start(WriteMode::Append, seq![bytes@]),
{
    Writer::new(WriteMode::Append, one_record(slice_to_vec(bytes)))
}

/// The work of writing `text` to a file in place of what it held.
pub fn write_all_text(text: &str) -> (writer: Writer)
    ensures
        writer@ == WriterView::start(WriteMode::Overwrite, seq![encode_utf8(text@)]),
{
    write_all_bytes(text.as_bytes())
}

/// The work of writing `text` at the end of a file.
pub fn append_all_text(text: &str) -> (writer: Writer)
    ensures
        writer@ == WriterView::start(WriteMode::Append, seq![encode_utf8(text@)]),
{
    append_all_bytes(text.as_bytes())
}

/// The work of writing `lines` to a file in place of what it held: each line
/// with a line feed after it, one write for each, in their order.
pub fn write_all_lines(lines: &[&str]) -> (writer: Writer)
    ensures
        writer@ == WriterView::start(WriteMode::Overwrite, records(encode_all(texts(lines@)))),
{
    Writer::new(WriteMode::Overwrite, line_records(lines))
}

/// The work of writing `lines` at the end of a file: each line with a line
/// feed after it, one write for each, in their order.
pub fn append_all_lines(lines: &[&str]) -> (writer: Writer)
    ensures
        writer@ == WriterView::start(WriteMode::Append, records(encode_all(texts(lines@)))),
{
    Writer::new(WriteMode::Append, line_records(lines))
}

} // verus!
