//! What the steps of a writer do to a file, and what therefore holds of
//! writing a file and reading it again.
//!
//! A file is taken as absent or as present with its bytes; a step that fails
//! leaves it as it was. Nothing here runs: these are the terms in which the
//! laws below speak of the file.

use crate::error::IoError;
use crate::reader::{decode_lines, LineEvent, LineStep, LinesView};
use crate::record::{lemma_first_record_len, lemma_split_records, records, split, survives};
use crate::text::{decode, decode_all, encode_all, is_plain_line, lemma_plain_line_survives};
use crate::writer::{WriteMode, WriteStage, WriteStep, WriterView};
use vstd::prelude::*;
use vstd::utf8::*;

verus! {

/// The bytes of a file; an absent file holds none.
pub open spec fn content(file: Option<Seq<u8>>) -> Seq<u8> {
    match file {
        Some(bytes) => bytes,
        None => Seq::empty(),
    }
}

/// What a file holds once it is opened in `mode`.
pub open spec fn opened(mode: WriteMode, file: Option<Seq<u8>>) -> Seq<u8> {
    match mode {
        WriteMode::Overwrite => Seq::empty(),
        WriteMode::Append => content(file),
    }
}

/// The file after `step` went as `outcome` says.
pub open spec fn perform(file: Option<Seq<u8>>, step: WriteStep, outcome: Result<(), IoError>)
    -> Option<Seq<u8>> {
    match outcome {
        Err(_) => file,
        Ok(_) => match step {
            WriteStep::Open(mode) => Some(opened(mode, file)),
            WriteStep::Write(bytes) => Some(content(file) + bytes),
            WriteStep::Flush => file,
            WriteStep::Return(_) => file,
        },
    }
}

/// The writer and the file after the writer's steps went as `outcomes` say,
/// one after the other.
pub open spec fn run(
    writer: WriterView,
    file: Option<Seq<u8>>,
    outcomes: Seq<Result<(), IoError>>,
) -> (WriterView, Option<Seq<u8>>)
    decreases outcomes.len(),
{
    if outcomes.len() == 0 {
        (writer, file)
    } else {
        let (before, held) = run(writer, file, outcomes.drop_last());
        (before.advance(outcomes.last()), perform(held, before.action(), outcomes.last()))
    }
}

/// `count` steps that succeed.
pub open spec fn successes(count: nat) -> Seq<Result<(), IoError>> {
    Seq::new(count, |i: int| Ok(()))
}

/// After the opening and `written` writes have succeeded, the file holds what
/// it held when opened and then the first `written` records.
pub proof fn lemma_run_successes(
    mode: WriteMode,
    records: Seq<Seq<u8>>,
    file: Option<Seq<u8>>,
    written: nat,
)
    requires
        written <= records.len(),
    ensures
        run(WriterView::start(mode, records), file, successes(written + 1)) == (
            WriterView {
                stage: WriterView::start(mode, records).stage_after(written),
                ..WriterView::start(mode, records)
            },
            Some(opened(mode, file) + records.take(written as int).flatten()),
        ),
    decreases written,
{
    let start = WriterView::start(mode, records);
    let steps = successes(written + 1);
    assert(steps.drop_last() =~= successes(written));
    if written == 0 {
        assert(run(start, file, successes(0)) == (start, file));
        assert(records.take(0) =~= Seq::<Seq<u8>>::empty());
        assert(opened(mode, file) + records.take(0).flatten() =~= opened(mode, file));
    } else {
        let earlier = (written - 1) as nat;
        lemma_run_successes(mode, records, file, earlier);
        assert(records.take(written as int) =~= records.take(earlier as int).push(
            records[earlier as int],
        ));
        records.take(earlier as int).lemma_flatten_push(records[earlier as int]);
        assert(opened(mode, file) + records.take(earlier as int).flatten()
            + records[earlier as int] =~= opened(mode, file) + records.take(
            written as int,
        ).flatten());
    }
}

/// A finished writer and its file stay as they are, whatever is reported.
pub proof fn lemma_run_finished(
    writer: WriterView,
    file: Option<Seq<u8>>,
    outcomes: Seq<Result<(), IoError>>,
)
    requires
        writer.stage is Done || writer.stage is Failed,
    ensures
        run(writer, file, outcomes) == (writer, file),
    decreases outcomes.len(),
{
    if outcomes.len() > 0 {
        lemma_run_finished(writer, file, outcomes.drop_last());
    }
}

/// Where every step succeeds, the work ends well, and the file then holds
/// what it held when opened, followed by every record in order. The steps
/// are the opening, one write for each record, and the flush.
pub proof fn law_success_writes_every_record(
    mode: WriteMode,
    records: Seq<Seq<u8>>,
    file: Option<Seq<u8>>,
)
    ensures
        run(WriterView::start(mode, records), file, successes(records.len() + 2)) == (
            WriterView { stage: WriteStage::Done, ..WriterView::start(mode, records) },
            Some(opened(mode, file) + records.flatten()),
        ),
{
    let steps = successes(records.len() + 2);
    assert(steps.drop_last() =~= successes(records.len() + 1));
    lemma_run_successes(mode, records, file, records.len());
    assert(records.take(records.len() as int) =~= records);
}

/// Writing in place of what a file held: after the work has ended well the
/// file holds the records and nothing else, whatever it held before and
/// whether or not it was there.
pub proof fn law_overwrite_discards(records: Seq<Seq<u8>>, file: Option<Seq<u8>>)
    ensures
        run(
            WriterView::start(WriteMode::Overwrite, records),
            file,
            successes(records.len() + 2),
        ).1 == Some(records.flatten()),
{
    law_success_writes_every_record(WriteMode::Overwrite, records, file);
    assert(Seq::<u8>::empty() + records.flatten() =~= records.flatten());
}

/// Writing at the end of a file: after the work has ended well the file
/// holds what it held before, then the records. An absent file is created
/// and holds the records.
pub proof fn law_append_keeps(records: Seq<Seq<u8>>, file: Option<Seq<u8>>)
    ensures
        run(
            WriterView::start(WriteMode::Append, records),
            file,
            successes(records.len() + 2),
        ).1 == Some(content(file) + records.flatten()),
{
    law_success_writes_every_record(WriteMode::Append, records, file);
}

/// The first step that fails ends the work with its error, and leaves in the
/// file what the steps before it had put there: nothing is changed where the
/// opening fails, and else the file holds what it held when opened and the
/// records written before the failure. Here `done` steps succeed before the
/// one that fails.
pub proof fn law_failure_keeps_earlier_records(
    mode: WriteMode,
    records: Seq<Seq<u8>>,
    file: Option<Seq<u8>>,
    done: nat,
    error: IoError,
)
    requires
        done <= records.len() + 1,
    ensures
        run(WriterView::start(mode, records), file, successes(done).push(Err(error))) == (
            WriterView { stage: WriteStage::Failed(error), ..WriterView::start(mode, records) },
            if done == 0 {
                file
            } else if done <= records.len() {
                Some(opened(mode, file) + records.take(done - 1).flatten())
            } else {
                Some(opened(mode, file) + records.flatten())
            },
        ),
{
    let start = WriterView::start(mode, records);
    let steps = successes(done).push(Err(error));
    assert(steps.drop_last() =~= successes(done));
    if done == 0 {
        assert(run(start, file, successes(0)) == (start, file));
    } else {
        lemma_run_successes(mode, records, file, (done - 1) as nat);
        if done > records.len() {
            assert(records.take(records.len() as int) =~= records);
        }
    }
}

/// After a failure the writer asks for nothing more of the file: its every
/// later step is to return the error, and the file stays as the failure left
/// it, whatever is reported afterwards.
pub proof fn law_failure_is_final(
    writer: WriterView,
    file: Option<Seq<u8>>,
    error: IoError,
    later: Seq<Result<(), IoError>>,
)
    requires
        writer.stage == WriteStage::Failed(error),
    ensures
        run(writer, file, later) == (writer, file),
        run(writer, file, later).0.action() == WriteStep::Return(Err(error)),
{
    lemma_run_finished(writer, file, later);
}

/// A line-writing call whose write of line `failing` fails (counted from 0)
/// leaves in the file what it held when opened and exactly the lines before
/// that one, each with its line feed; the call returns the error.
pub proof fn law_failed_line_leaves_earlier_lines(
    mode: WriteMode,
    lines: Seq<Seq<char>>,
    file: Option<Seq<u8>>,
    failing: nat,
    error: IoError,
)
    requires
        failing < lines.len(),
    ensures
        run(
            WriterView::start(mode, records(encode_all(lines))),
            file,
            successes(failing + 1).push(Err(error)),
        ) == (
            WriterView {
                stage: WriteStage::Failed(error),
                ..WriterView::start(mode, records(encode_all(lines)))
            },
            Some(opened(mode, file) + records(encode_all(lines.take(failing as int))).flatten()),
        ),
{
    let all = records(encode_all(lines));
    law_failure_keeps_earlier_records(mode, all, file, failing + 1, error);
    assert(all.take(failing as int) =~= records(encode_all(lines.take(failing as int))));
}

/// Text written in place of what a file held, and read again, is the text.
pub proof fn law_text_round_trip(text: Seq<char>, file: Option<Seq<u8>>)
    ensures
        run(
            WriterView::start(WriteMode::Overwrite, seq![encode_utf8(text)]),
            file,
            successes(3),
        ).1 == Some(encode_utf8(text)),
        decode(encode_utf8(text)) == Ok::<Seq<char>, IoError>(text),
{
    let payload = seq![encode_utf8(text)];
    law_overwrite_discards(payload, file);
    payload.lemma_flatten_singleton();
    encode_utf8_valid_utf8(text);
    encode_utf8_decode_utf8(text);
}

/// Bytes written in place of what a file held are what the file then holds,
/// so reading the file gives the bytes.
pub proof fn law_bytes_round_trip(bytes: Seq<u8>, file: Option<Seq<u8>>)
    ensures
        run(WriterView::start(WriteMode::Overwrite, seq![bytes]), file, successes(3)).1 == Some(
            bytes,
        ),
{
    let payload = seq![bytes];
    law_overwrite_discards(payload, file);
    payload.lemma_flatten_singleton();
}

/// Plain lines written in place of what a file held, and read again, are the
/// same lines, as many and in the same order. A line is plain if it holds no
/// line feed and does not end in a carriage return.
pub proof fn law_lines_round_trip(lines: Seq<Seq<char>>, file: Option<Seq<u8>>)
    requires
        forall|i: int| 0 <= i < lines.len() ==> is_plain_line(#[trigger] lines[i]),
    ensures
        run(
            WriterView::start(WriteMode::Overwrite, records(encode_all(lines))),
            file,
            successes(lines.len() + 2),
        ).1 == Some(records(encode_all(lines)).flatten()),
        decode_lines(records(encode_all(lines)).flatten()) == Ok::<Seq<Seq<char>>, IoError>(
            lines,
        ),
{
    let encoded = encode_all(lines);
    law_overwrite_discards(records(encoded), file);
    assert forall|i: int| 0 <= i < encoded.len() implies survives(#[trigger] encoded[i]) by {
        lemma_plain_line_survives(lines[i]);
    }
    lemma_split_records(encoded);
    assert forall|i: int| 0 <= i < encoded.len() implies valid_utf8(#[trigger] encoded[i]) by {
        encode_utf8_valid_utf8(lines[i]);
    }
    assert(decode_all(encoded) =~= lines) by {
        assert forall|i: int| 0 <= i < lines.len() implies decode_all(encoded)[i] == lines[i] by {
            encode_utf8_decode_utf8(lines[i]);
        }
    }
}

/// An open producer hands out the lines of its file in file order, one at
/// each demand: with bytes still to hand out, its next item is the first line
/// of those bytes, as text or as the error for invalid text, and the lines
/// that follow are the lines of what it keeps. With none left it hands out
/// nothing and is exhausted.
pub proof fn law_producer_hands_out_the_lines(rest: Seq<u8>)
    ensures
        rest.len() == 0 ==> LinesView::pull(rest) == (
            LinesView::Exhausted,
            LineStep::Yield(None),
        ) && split(rest).len() == 0,
        rest.len() > 0 ==> {
            &&& split(rest).len() > 0
            &&& LinesView::pull(rest).1 == LineStep::Yield(Some(decode(split(rest)[0])))
            &&& LinesView::pull(rest).0 matches LinesView::Open(kept)
            &&& kept.len() < rest.len()
            &&& split(kept) == split(rest).drop_first()
        },
{
    if rest.len() > 0 {
        lemma_first_record_len(rest);
        let n = crate::record::first_record_len(rest);
        let kept = rest.subrange(n, rest.len() as int);
        assert(split(rest).drop_first() =~= split(kept));
    }
}

/// A producer of lines asks for the file only when a line is first wanted.
/// Where the file cannot be had, the error is the one item that the producer
/// hands out: it is exhausted from then on and never asks for the file again.
pub proof fn law_lines_open_late_and_once(error: IoError, later: LineEvent)
    ensures
        LinesView::Unopened.step(LineEvent::Demand) == (LinesView::Unopened, LineStep::Open),
        LinesView::Unopened.step(LineEvent::Opened(Err(error))) == (
            LinesView::Exhausted,
            LineStep::Yield(Some(Err(error))),
        ),
        LinesView::Exhausted.step(later) == (LinesView::Exhausted, LineStep::Yield(None)),
{
}

} // verus!
