//! Properties of the scan model, stated and proved once for all inputs.

use vstd::prelude::*;
use crate::lines::{lemma_line_end_bounds, line_end, lines_from};
use crate::scanner::{all_lines_utf8, line_matches, match_pred, matched_lines};

verus! {

/// Filtering keeps order: two positions that both satisfy the predicate
/// appear in the filtered sequence as two positions in the same order.
proof fn lemma_filter_keeps_order<A>(s: Seq<A>, pred: spec_fn(A) -> bool, i: int, j: int)
    requires
        0 <= i < j < s.len(),
        pred(s[i]),
        pred(s[j]),
    ensures
        exists|ri: int, rj: int|
            #![trigger s.filter(pred)[ri], s.filter(pred)[rj]]
            0 <= ri < rj < s.filter(pred).len()
                && s.filter(pred)[ri] == s[i]
                && s.filter(pred)[rj] == s[j],
    decreases s.len(),
{
    reveal(Seq::filter);
    let f = s.filter(pred);
    let d = s.drop_last();
    if j == s.len() - 1 {
        assert(f == d.filter(pred).push(s[j]));
        Seq::lemma_filter_contains(d, pred, i);
        let ri = choose|k: int| 0 <= k < d.filter(pred).len() && d.filter(pred)[k] == d[i];
        let rj = f.len() - 1;
        assert(f[ri] == s[i] && f[rj] == s[j] && 0 <= ri < rj < f.len());
    } else {
        lemma_filter_keeps_order(d, pred, i, j);
        let (ri, rj) = choose|ri: int, rj: int|
            #![trigger d.filter(pred)[ri], d.filter(pred)[rj]]
            0 <= ri < rj < d.filter(pred).len()
                && d.filter(pred)[ri] == d[i]
                && d.filter(pred)[rj] == d[j];
        assert(f[ri] == s[i] && f[rj] == s[j] && 0 <= ri < rj < f.len());
    }
}

/// If no element satisfies the predicate, the filtered sequence is empty.
proof fn lemma_filter_none<A>(s: Seq<A>, pred: spec_fn(A) -> bool)
    requires
        forall|i: int| 0 <= i < s.len() ==> !pred(#[trigger] s[i]),
    ensures
        s.filter(pred) == Seq::<A>::empty(),
    decreases s.len(),
{
    reveal(Seq::filter);
    if s.len() > 0 {
        assert(forall|i: int| 0 <= i < s.drop_last().len() ==> s.drop_last()[i] == s[i]);
        lemma_filter_none(s.drop_last(), pred);
    }
    assert(s.filter(pred) =~= Seq::<A>::empty());
}

/// File order is preserved: when the lines at positions `i` and `j` of the
/// scanned region both match the pattern, with `i` before `j`, the result
/// holds their values at two positions `ri` before `rj`.
pub proof fn lemma_grep_preserves_file_order(b: Seq<u8>, pos: int, p: Seq<char>, i: int, j: int)
    requires
        0 <= i < j < lines_from(b, pos).len(),
        line_matches(p, lines_from(b, pos)[i]),
        line_matches(p, lines_from(b, pos)[j]),
    ensures
        exists|ri: int, rj: int|
            #![trigger matched_lines(b, pos, p)[ri], matched_lines(b, pos, p)[rj]]
            0 <= ri < rj < matched_lines(b, pos, p).len()
                && matched_lines(b, pos, p)[ri] == lines_from(b, pos)[i]
                && matched_lines(b, pos, p)[rj] == lines_from(b, pos)[j],
{
    let s = lines_from(b, pos);
    let pred = match_pred(p);
    lemma_filter_keeps_order(s, pred, i, j);
    let (ri, rj) = choose|ri: int, rj: int|
        #![trigger s.filter(pred)[ri], s.filter(pred)[rj]]
        0 <= ri < rj < s.filter(pred).len()
            && s.filter(pred)[ri] == s[i]
            && s.filter(pred)[rj] == s[j];
    assert(matched_lines(b, pos, p)[ri] == s[i] && matched_lines(b, pos, p)[rj] == s[j]
        && 0 <= ri < rj < matched_lines(b, pos, p).len());
}

/// Idempotence under rewind: scanning unchanged bytes from the same
/// starting position with the same pattern yields the same matched lines —
/// the outcome is a function of bytes, position, and pattern alone, however
/// many times the scan runs.
pub proof fn lemma_rescan_is_deterministic(
    b1: Seq<u8>,
    pos1: int,
    p1: Seq<char>,
    b2: Seq<u8>,
    pos2: int,
    p2: Seq<char>,
)
    requires
        b1 == b2,
        pos1 == pos2,
        p1 == p2,
    ensures
        matched_lines(b1, pos1, p1) == matched_lines(b2, pos2, p2),
{
}

/// Scans without a rewind partition the file: a successful scan leaves the
/// position at end-of-file, the region there holds no lines, so a second
/// scan matches nothing, and the two results concatenated equal one full
/// scan's result.
pub proof fn lemma_scans_partition(b: Seq<u8>, pos: int, p: Seq<char>)
    ensures
        matched_lines(b, b.len() as int, p) == Seq::<Seq<u8>>::empty(),
        matched_lines(b, pos, p) + matched_lines(b, b.len() as int, p) == matched_lines(b, pos, p),
{
    reveal(Seq::filter);
    assert(lines_from(b, b.len() as int) == Seq::<Seq<u8>>::empty());
    assert(matched_lines(b, pos, p) + matched_lines(b, b.len() as int, p) =~= matched_lines(b, pos, p));
}

/// A pattern that matches no line of the region yields an empty result and
/// no error: every line of an empty result is trivially valid UTF-8, so a
/// scan returns an empty sequence.
pub proof fn lemma_no_match_yields_empty(b: Seq<u8>, pos: int, p: Seq<char>)
    requires
        forall|i: int| 0 <= i < lines_from(b, pos).len()
            ==> !line_matches(p, #[trigger] lines_from(b, pos)[i]),
    ensures
        matched_lines(b, pos, p) == Seq::<Seq<u8>>::empty(),
        all_lines_utf8(matched_lines(b, pos, p)),
{
    lemma_filter_none(lines_from(b, pos), match_pred(p));
}

/// Every byte of the region belongs to a line, in order: the lines of the
/// region concatenate back to the region itself. In particular a final line
/// without a terminator is still scanned.
pub proof fn lemma_lines_cover_region(b: Seq<u8>, pos: int)
    requires
        0 <= pos <= b.len(),
    ensures
        lines_from(b, pos).flatten() == b.subrange(pos, b.len() as int),
    decreases b.len() - pos,
{
    if pos >= b.len() {
        assert(lines_from(b, pos).flatten() =~= b.subrange(pos, b.len() as int));
    } else {
        let end = line_end(b, pos);
        lemma_line_end_bounds(b, pos);
        lemma_lines_cover_region(b, end);
        let line = b.subrange(pos, end);
        let rest = lines_from(b, end);
        assert(lines_from(b, pos) == seq![line] + rest);
        assert((seq![line] + rest).drop_first() =~= rest);
        assert(lines_from(b, pos).flatten() == line + rest.flatten());
        assert(line + b.subrange(end, b.len() as int) =~= b.subrange(pos, b.len() as int));
    }
}

/// An empty file holds no lines: a scan of it yields an empty result and no
/// error, whatever the pattern.
pub proof fn lemma_empty_file_scans_empty(b: Seq<u8>, p: Seq<char>)
    requires
        b.len() == 0,
    ensures
        matched_lines(b, 0, p) == Seq::<Seq<u8>>::empty(),
        all_lines_utf8(matched_lines(b, 0, p)),
{
    reveal(Seq::filter);
    assert(lines_from(b, 0) == Seq::<Seq<u8>>::empty());
}

} // verus!
