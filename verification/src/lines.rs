//! The line model: how a byte region splits into lines.
//!
//! A line is the maximal byte run up to and including a `\n` terminator, or
//! the final partial run up to end-of-file when the region does not end in a
//! terminator.

use vstd::prelude::*;

verus! {

/// The newline byte that terminates a line.
pub const LINE_TERMINATOR: u8 = 10;

/// Index just past the line that starts at `pos`: one past the first
/// terminator at or after `pos`, or the end of the region if no terminator
/// follows.
pub open spec fn line_end(b: Seq<u8>, pos: int) -> int
    decreases b.len() - pos,
{
    if pos < 0 || pos >= b.len() {
        pos
    } else if b[pos] == LINE_TERMINATOR {
        pos + 1
    } else {
        line_end(b, pos + 1)
    }
}

pub proof fn lemma_line_end_bounds(b: Seq<u8>, pos: int)
    requires
        0 <= pos < b.len(),
    ensures
        pos < line_end(b, pos) <= b.len(),
    decreases b.len() - pos,
{
    if b[pos] != LINE_TERMINATOR {
        if pos + 1 < b.len() {
            lemma_line_end_bounds(b, pos + 1);
        } else {
            assert(line_end(b, pos + 1) == pos + 1);
        }
    }
}

/// The lines of the region of `b` that starts at `pos`, in file order, each
/// with its terminator (the last line may lack one).
pub open spec fn lines_from(b: Seq<u8>, pos: int) -> Seq<Seq<u8>>
    decreases b.len() - pos,
    via lines_from_decreases
{
    if pos < 0 || pos >= b.len() {
        Seq::empty()
    } else {
        seq![b.subrange(pos, line_end(b, pos))] + lines_from(b, line_end(b, pos))
    }
}

#[via_fn]
proof fn lines_from_decreases(b: Seq<u8>, pos: int) {
    if 0 <= pos && pos < b.len() {
        lemma_line_end_bounds(b, pos);
    }
}

/// A line without its trailing terminator, if it has one.
pub open spec fn content_of(line: Seq<u8>) -> Seq<u8> {
    if line.len() > 0 && line.last() == LINE_TERMINATOR {
        line.drop_last()
    } else {
        line
    }
}

/// First index after the line that starts at `start`.
pub fn find_line_end(bytes: &Vec<u8>, start: usize) -> (end: usize)
    requires
        start < bytes@.len(),
    ensures
        end == line_end(bytes@, start as int),
        start < end <= bytes@.len(),
{
    let mut i: usize = start;
    while i < bytes.len()
        invariant
            start <= i <= bytes@.len(),
            line_end(bytes@, start as int) == line_end(bytes@, i as int),
        decreases bytes@.len() - i,
    {
        if bytes[i] == LINE_TERMINATOR {
            return i + 1;
        }
        i = i + 1;
    }
    proof {
        lemma_line_end_bounds(bytes@, start as int);
    }
    i
}

/// A fresh copy of `bytes[start..end]`.
pub fn copy_range(bytes: &Vec<u8>, start: usize, end: usize) -> (out: Vec<u8>)
    requires
        start <= end <= bytes@.len(),
    ensures
        out@ == bytes@.subrange(start as int, end as int),
{
    let mut out: Vec<u8> = Vec::new();
    let mut i: usize = start;
    while i < end
        invariant
            start <= i <= end <= bytes@.len(),
            out@ == bytes@.subrange(start as int, i as int),
        decreases end - i,
    {
        out.push(bytes[i]);
        i = i + 1;
        proof {
            assert(out@ =~= bytes@.subrange(start as int, i as int));
        }
    }
    out
}

} // verus!
