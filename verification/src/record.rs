//! Lines as they stand in a file. A file of lines is a run of records; a record
//! is a line followed by a line feed. Reading gives back the line of each
//! record, without the line feed and without a carriage return before it. What
//! follows the last line feed is a record too, unless nothing follows it.

use vstd::prelude::*;

verus! {

/// The line feed, which ends a record.
pub const LF: u8 = 0x0a;

/// The carriage return, which is dropped where it stands before the line feed.
pub const CR: u8 = 0x0d;

/// The record that holds `line`.
pub open spec fn record(line: Seq<u8>) -> Seq<u8> {
    line.push(LF)
}

/// The records that hold `lines`, one each and in their order.
pub open spec fn records(lines: Seq<Seq<u8>>) -> Seq<Seq<u8>> {
    lines.map_values(|line: Seq<u8>| record(line))
}

/// The length of the first record of `bytes`: up to the first line feed and
/// including it, or all of `bytes` where they hold none.
pub open spec fn first_record_len(bytes: Seq<u8>) -> int {
    match bytes.index_of_first(LF) {
        Some(at) => at + 1,
        None => bytes.len() as int,
    }
}

/// The line that a record holds: the record without the line feed at its end
/// and without a carriage return just before that line feed.
pub open spec fn line_of(record: Seq<u8>) -> Seq<u8> {
    if record.len() > 0 && record.last() == LF {
        let body = record.drop_last();
        if body.len() > 0 && body.last() == CR {
            body.drop_last()
        } else {
            body
        }
    } else {
        record
    }
}

/// The lines of a file that holds `bytes`, in file order.
pub open spec fn split(bytes: Seq<u8>) -> Seq<Seq<u8>>
    decreases bytes.len(),
    via split_decreases
{
    if bytes.len() == 0 {
        Seq::empty()
    } else {
        let n = first_record_len(bytes);
        seq![line_of(bytes.subrange(0, n))] + split(bytes.subrange(n, bytes.len() as int))
    }
}

#[via_fn]
proof fn split_decreases(bytes: Seq<u8>) {
    if bytes.len() != 0 {
        lemma_first_record_len(bytes);
    }
}

/// A line that comes back as it was written: it holds no line feed and does
/// not end in a carriage return.
pub open spec fn survives(line: Seq<u8>) -> bool {
    &&& !line.contains(LF)
    &&& line.len() > 0 ==> line.last() != CR
}

/// The first record of bytes that are not empty is not empty, lies within the
/// bytes, holds no line feed before its last byte, and ends in a line feed
/// unless it runs to the end of the bytes.
pub proof fn lemma_first_record_len(bytes: Seq<u8>)
    requires
        bytes.len() > 0,
    ensures
        0 < first_record_len(bytes) <= bytes.len(),
        forall|i: int| 0 <= i < first_record_len(bytes) - 1 ==> bytes[i] != LF,
        bytes[first_record_len(bytes) - 1] == LF || first_record_len(bytes) == bytes.len(),
{
    bytes.index_of_first_ensures(LF);
    if bytes.index_of_first(LF) is None {
        assert forall|i: int| 0 <= i < bytes.len() implies bytes[i] != LF by {
            if bytes[i] == LF {
                assert(bytes.contains(LF));
            }
        }
    }
}

/// A length within the bytes, with no line feed before its last byte, that
/// ends at a line feed or at the end of the bytes, is the first record's
/// length.
pub proof fn lemma_first_record_len_is(bytes: Seq<u8>, n: int)
    requires
        0 < n <= bytes.len(),
        forall|i: int| 0 <= i < n - 1 ==> bytes[i] != LF,
        bytes[n - 1] == LF || n == bytes.len(),
    ensures
        first_record_len(bytes) == n,
{
    lemma_first_record_len(bytes);
    let m = first_record_len(bytes);
    if m < n {
        assert(bytes[m - 1] == LF);
    } else if n < m {
        assert(bytes[n - 1] == LF);
    }
}

/// A record that holds a surviving line, followed by anything, splits into
/// that line and the lines of what follows.
pub proof fn lemma_split_record(line: Seq<u8>, rest: Seq<u8>)
    requires
        survives(line),
    ensures
        split(record(line) + rest) == seq![line] + split(rest),
{
    let bytes = record(line) + rest;
    let n = line.len() as int + 1;
    assert forall|i: int| 0 <= i < n - 1 implies bytes[i] != LF by {
        if bytes[i] == LF {
            assert(line[i] == LF);
            assert(line.contains(LF));
        }
    }
    lemma_first_record_len_is(bytes, n);
    assert(bytes.subrange(0, n) =~= record(line));
    assert(bytes.subrange(n, bytes.len() as int) =~= rest);
    assert(record(line).drop_last() =~= line);
}

/// Surviving lines, written as records one after the other, split into the
/// same lines.
pub proof fn lemma_split_records(lines: Seq<Seq<u8>>)
    requires
        forall|i: int| 0 <= i < lines.len() ==> survives(#[trigger] lines[i]),
    ensures
        split(records(lines).flatten()) == lines,
    decreases lines.len(),
{
    if lines.len() == 0 {
        assert(records(lines).flatten() =~= Seq::<u8>::empty());
        assert(split(records(lines).flatten()) =~= lines);
    } else {
        let tail = lines.drop_first();
        assert(records(lines).drop_first() =~= records(tail));
        assert(records(lines).flatten() == record(lines[0]) + records(tail).flatten());
        assert forall|i: int| 0 <= i < tail.len() implies survives(#[trigger] tail[i]) by {
            assert(tail[i] == lines[i + 1]);
        }
        lemma_split_records(tail);
        lemma_split_record(lines[0], records(tail).flatten());
        assert(seq![lines[0]] + tail =~= lines);
    }
}

/// The length of the first record of `bytes`.
pub fn scan_record(bytes: &[u8]) -> (len: usize)
    ensures
        len == first_record_len(bytes@),
        len <= bytes.len(),
        bytes.len() > 0 ==> len > 0,
{
    let mut i: usize = 0;
    while i < bytes.len() && bytes[i] != LF
        invariant
            i <= bytes.len(),
            forall|k: int| 0 <= k < i ==> bytes@[k] != LF,
        decreases bytes.len() - i,
    {
        i += 1;
    }
    let len = if i < bytes.len() {
        i + 1
    } else {
        i
    };
    proof {
        if bytes.len() > 0 {
            lemma_first_record_len_is(bytes@, len as int);
        } else {
            bytes@.index_of_first_ensures(LF);
        }
    }
    len
}

/// The length of the line that `record` holds.
pub fn scan_line(record: &[u8]) -> (len: usize)
    ensures
        len <= record.len(),
        record@.subrange(0, len as int) == line_of(record@),
{
    let n = record.len();
    let len = if n > 0 && record[n - 1] == LF {
        if n > 1 && record[n - 2] == CR {
            n - 2
        } else {
            n - 1
        }
    } else {
        n
    };
    assert(record@.subrange(0, len as int) =~= line_of(record@));
    len
}

} // verus!
