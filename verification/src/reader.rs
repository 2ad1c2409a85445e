//! Reading a whole file: as text, or line by line.
//!
//! The caller opens the file and reads its bytes; what is made of them is
//! decided here. For the lines of a file the caller does so only when the
//! producer asks for it, which is when its first line is wanted.

use crate::error::IoError;
use crate::record::{
    first_record_len, lemma_first_record_len, line_of, scan_line, scan_record, split,
};
use crate::text::{decode, decode_all, decode_text};
use vstd::prelude::*;
use vstd::slice::*;
use vstd::utf8::*;

verus! {

/// What happens to a producer of lines.
#[derive(Debug, PartialEq, Eq)]
pub enum LineEvent {
    /// The next line is wanted.
    Demand,
    /// The file was opened and read, as the producer had asked, and this came
    /// of it: the bytes of the file, or the error of the step that failed.
    Opened(Result<Vec<u8>, IoError>),
}

/// What a producer of lines answers.
#[derive(Debug, PartialEq, Eq)]
pub enum LineAction {
    /// Open the file, read it, and say what came of it.
    Open,
    /// This is the next item: a line, an error, or nothing where the lines
    /// have run out.
    Yield(Option<Result<String, IoError>>),
}

/// A `LineAction` as contracts see it.
pub enum LineStep {
    Open,
    Yield(Option<Result<Seq<char>, IoError>>),
}

impl View for LineAction {
    type V = LineStep;

    open spec fn view(&self) -> LineStep {
        match *self {
            LineAction::Open => LineStep::Open,
            LineAction::Yield(None) => LineStep::Yield(None),
            LineAction::Yield(Some(Ok(line))) => LineStep::Yield(Some(Ok(line@))),
            LineAction::Yield(Some(Err(error))) => LineStep::Yield(Some(Err(error))),
        }
    }
}

/// A producer of lines as contracts see it.
pub enum LinesView {
    /// Nothing was asked of the file yet.
    Unopened,
    /// The file was read, and these of its bytes are still to be handed out.
    Open(Seq<u8>),
    /// Nothing more will come.
    Exhausted,
}

impl LinesView {
    /// The next item of an open producer with `rest` still to hand out, and
    /// the producer after it.
    pub open spec fn pull(rest: Seq<u8>) -> (LinesView, LineStep) {
        if rest.len() == 0 {
            (LinesView::Exhausted, LineStep::Yield(None))
        } else {
            let n = first_record_len(rest);
            (
                LinesView::Open(rest.subrange(n, rest.len() as int)),
                LineStep::Yield(Some(decode(line_of(rest.subrange(0, n))))),
            )
        }
    }

    /// The producer after `event`, and its answer. An unopened producer that
    /// is asked for a line asks for the file. Told that the file could not be
    /// had, it hands out the error and is exhausted. An opened or exhausted
    /// producer never asks for the file, whatever it is told.
    pub open spec fn step(self, event: LineEvent) -> (LinesView, LineStep) {
        match self {
            LinesView::Unopened => match event {
                LineEvent::Demand => (LinesView::Unopened, LineStep::Open),
                LineEvent::Opened(Err(error)) => (
                    LinesView::Exhausted,
                    LineStep::Yield(Some(Err(error))),
                ),
                LineEvent::Opened(Ok(bytes)) => LinesView::pull(bytes@),
            },
            LinesView::Open(rest) => LinesView::pull(rest),
            LinesView::Exhausted => (LinesView::Exhausted, LineStep::Yield(None)),
        }
    }
}

#[derive(Debug)]
enum State {
    Unopened,
    Open { bytes: Vec<u8>, at: usize },
    Exhausted,
}

/// A producer of the lines of a file, which asks for the file when its first
/// line is wanted and not before.
#[must_use]
#[derive(Debug)]
pub struct Lines {
    state: State,
}

impl View for Lines {
    type V = LinesView;

    closed spec fn view(&self) -> LinesView {
        match self.state {
            State::Unopened => LinesView::Unopened,
            State::Open { bytes, at } => LinesView::Open(
                bytes@.subrange(at as int, bytes@.len() as int),
            ),
            State::Exhausted => LinesView::Exhausted,
        }
    }
}

/// A producer of the lines of a file. Nothing is asked of the file here.
pub fn iterate_all_lines() -> (lines: Lines)
    ensures
        lines@ == LinesView::Unopened,
{
    Lines { state: State::Unopened }
}

impl Lines {
    #[verifier::type_invariant]
    spec fn inv(self) -> bool {
        self.state matches State::Open { bytes, at } ==> at <= bytes.len()
    }

    fn pull(bytes: Vec<u8>, at: usize) -> (next: (State, LineAction))
        requires
            at <= bytes.len(),
        ensures
            next.0 matches State::Open { bytes: b, at: a } ==> a <= b.len(),
            (Lines { state: next.0 }@, next.1@) == LinesView::pull(
                bytes@.subrange(at as int, bytes@.len() as int),
            ),
    {
        if at == bytes.len() {
            (State::Exhausted, LineAction::Yield(None))
        } else {
            let rest = slice_subrange(bytes.as_slice(), at, bytes.len());
            let n = scan_record(rest);
            let record = slice_subrange(rest, 0, n);
            let line = slice_subrange(record, 0, scan_line(record));
            let item = decode_text(line);
            assert(rest@.subrange(n as int, rest@.len() as int) =~= bytes@.subrange(
                at + n,
                bytes@.len() as int,
            ));
            (State::Open { bytes, at: at + n }, LineAction::Yield(Some(item)))
        }
    }

    /// Takes `event` and answers it.
    pub fn next(&mut self, event: LineEvent) -> (action: LineAction)
        ensures
            (final(self)@, action@) == old(self)@.step(event),
    {
        proof {
            use_type_invariant(&*self);
        }
        let mut state = State::Exhausted;
        core::mem::swap(&mut self.state, &mut state);
        let (state, action) = match state {
            State::Unopened => match event {
                LineEvent::Demand => (State::Unopened, LineAction::Open),
                LineEvent::Opened(Err(error)) => (
                    State::Exhausted,
                    LineAction::Yield(Some(Err(error))),
                ),
                LineEvent::Opened(Ok(bytes)) => {
                    assert(bytes@.subrange(0, bytes@.len() as int) =~= bytes@);
                    Lines::pull(bytes, 0)
                },
            },
            State::Open { bytes, at } => Lines::pull(bytes, at),
            State::Exhausted => (State::Exhausted, LineAction::Yield(None)),
        };
        self.state = state;
        action
    }
}

/// The text of a file whose opening and reading gave `source`: the error
/// where either failed, the error for invalid text where the bytes are no
/// UTF-8, and else the text that the bytes stand for.
pub fn read_all_to_string(source: Result<Vec<u8>, IoError>) -> (text: Result<String, IoError>)
    ensures
        source matches Err(error) ==> text == Err::<String, IoError>(error),
        source matches Ok(bytes) ==> match decode(bytes@) {
            Ok(chars) => text matches Ok(s) && s@ == chars,
            Err(error) => text == Err::<String, IoError>(error),
        },
{
    match source {
        Ok(bytes) => decode_text(bytes.as_slice()),
        Err(error) => Err(error),
    }
}

spec fn read_bytes(source: Result<Vec<u8>, IoError>) -> Seq<u8> {
    match source {
        Ok(bytes) => bytes@,
        Err(_) => Seq::empty(),
    }
}

/// The texts of `lines`, in their order.
pub open spec fn line_texts(lines: Seq<String>) -> Seq<Seq<char>> {
    lines.map_values(|line: String| line@)
}

/// The lines of a file that holds `bytes`, as text and in file order, or the
/// error for invalid text where a line of it is no UTF-8.
pub open spec fn decode_lines(bytes: Seq<u8>) -> Result<Seq<Seq<char>>, IoError> {
    let lines = split(bytes);
    if forall|i: int| 0 <= i < lines.len() ==> valid_utf8(#[trigger] lines[i]) {
        Ok(decode_all(lines))
    } else {
        Err(IoError::invalid_text())
    }
}

/// The lines of a file whose opening and reading gave `source`: the error
/// where either failed, the error for invalid text where a line is no UTF-8,
/// and else every line, in file order.
pub fn read_all_lines(source: Result<Vec<u8>, IoError>) -> (lines: Result<Vec<String>, IoError>)
    ensures
        source matches Err(error) ==> lines == Err::<Vec<String>, IoError>(error),
        source matches Ok(bytes) ==> match decode_lines(bytes@) {
            Ok(texts) => lines matches Ok(found) && line_texts(found@) == texts,
            Err(error) => lines == Err::<Vec<String>, IoError>(error),
        },
{
    let ghost all: Seq<u8> = read_bytes(source);
    let ghost mut pending: Seq<u8> = all;
    let ghost mut taken: Seq<Seq<u8>> = Seq::empty();
    let mut producer = iterate_all_lines();
    let mut found: Vec<String> = Vec::new();
    let mut action = producer.next(LineEvent::Opened(source));
    loop
        invariant
            source matches Err(error) ==> action@ == LineStep::Yield(Some(Err(error))),
            source matches Ok(bytes) ==> {
                &&& all == bytes@
                &&& (producer@, action@) == LinesView::pull(pending)
                &&& split(all) == taken + split(pending)
                &&& forall|i: int| 0 <= i < taken.len() ==> valid_utf8(#[trigger] taken[i])
                &&& line_texts(found@) == decode_all(taken)
            },
        decreases pending.len(),
    {
        match action {
            LineAction::Yield(Some(Ok(line))) => {
                proof {
                    let n = first_record_len(pending);
                    let first = line_of(pending.subrange(0, n));
                    assert(decode(first) == Ok::<Seq<char>, IoError>(line@));
                    lemma_first_record_len(pending);
                    assert(split(all) =~= taken.push(first) + split(
                        pending.subrange(n, pending.len() as int),
                    ));
                    assert(line_texts(found@.push(line)) =~= decode_all(taken.push(first))) by {
                        assert(line_texts(found@).len() == decode_all(taken).len());
                        assert forall|i: int| 0 <= i < found@.len() implies line_texts(
                            found@.push(line),
                        )[i] == decode_all(taken.push(first))[i] by {
                            assert(line_texts(found@)[i] == decode_all(taken)[i]);
                        }
                    }
                    taken = taken.push(first);
                    pending = pending.subrange(n, pending.len() as int);
                }
                found.push(line);
            },
            LineAction::Yield(Some(Err(error))) => {
                proof {
                    if source is Ok {
                        let first = line_of(pending.subrange(0, first_record_len(pending)));
                        assert(split(all)[taken.len() as int] == first);
                        assert(!valid_utf8(first));
                    }
                }
                return Err(error);
            },
            LineAction::Yield(None) => {
                proof {
                    assert(split(all) =~= taken);
                }
                return Ok(found);
            },
            LineAction::Open => {
                // Never taken: only an unopened producer asks for the file.
                return Ok(found);
            },
        }
        action = producer.next(LineEvent::Demand);
    }
}

} // verus!
