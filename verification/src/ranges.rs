//! Inclusive line ranges: overlap queries, coverage counting, and the
//! shift-or-drop rule that keeps saved ranges consistent under edits.
//!
//! A range `(s, e)` denotes the lines `s..=e`, inclusive on both ends.

use vstd::prelude::*;

verus! {

/// Two inclusive ranges overlap when they share at least one line index.
pub open spec fn range_overlaps(a: (usize, usize), b: (usize, usize)) -> bool {
    !(a.1 < b.0 || a.0 > b.1)
}

/// The inclusive range `r` contains the line index `line`.
pub open spec fn range_covers(r: (usize, usize), line: int) -> bool {
    r.0 <= line <= r.1
}

/// Some range in `ranges` contains the line index `line`.
pub open spec fn line_covered(ranges: Seq<(usize, usize)>, line: int) -> bool {
    exists|j: int| 0 <= j < ranges.len() && range_covers(ranges[j], line)
}

/// Number of line indices in `[0, total)` contained in at least one range.
/// Overlapping ranges never count a line twice.
pub open spec fn covered_count(ranges: Seq<(usize, usize)>, total: nat) -> nat
    decreases total,
{
    if total == 0 {
        0
    } else {
        covered_count(ranges, (total - 1) as nat) + if line_covered(
            ranges,
            total - 1,
        ) {
            1 as nat
        } else {
            0 as nat
        }
    }
}

/// Number of line indices in `[0, total)` that lie in `r` but in no range of
/// `ranges`: the lines a new chunk over `r` would newly cover.
pub open spec fn newly_covered_count(
    ranges: Seq<(usize, usize)>,
    r: (usize, usize),
    total: nat,
) -> nat
    decreases total,
{
    if total == 0 {
        0
    } else {
        newly_covered_count(ranges, r, (total - 1) as nat) + if range_covers(r, total - 1)
            && !line_covered(ranges, total - 1) {
            1 as nat
        } else {
            0 as nat
        }
    }
}

/// Overlap is symmetric: `overlaps(a, b) == overlaps(b, a)` for any two ranges.
pub proof fn lemma_overlap_symmetric(a: (usize, usize), b: (usize, usize))
    ensures
        range_overlaps(a, b) == range_overlaps(b, a),
{
}

/// At most `total` of the first `total` lines are covered, so a coverage
/// percentage derived from the count always lies in `[0, 100]`.
pub proof fn lemma_covered_count_le_total(ranges: Seq<(usize, usize)>, total: nat)
    ensures
        covered_count(ranges, total) <= total,
    decreases total,
{
    if total > 0 {
        lemma_covered_count_le_total(ranges, (total - 1) as nat);
    }
}

proof fn lemma_line_covered_push(ranges: Seq<(usize, usize)>, r: (usize, usize), line: int)
    ensures
        line_covered(ranges.push(r), line) == (line_covered(ranges, line) || range_covers(r, line)),
{
    if line_covered(ranges, line) {
        let j = choose|j: int| 0 <= j < ranges.len() && range_covers(ranges[j], line);
        assert(ranges.push(r)[j] == ranges[j]);
        assert(line_covered(ranges.push(r), line));
    }
    if range_covers(r, line) {
        assert(ranges.push(r)[ranges.len() as int] == r);
        assert(line_covered(ranges.push(r), line));
    }
    if line_covered(ranges.push(r), line) {
        let j = choose|j: int|
            0 <= j < ranges.push(r).len() && range_covers(ranges.push(r)[j], line);
        if j < ranges.len() {
            assert(range_covers(ranges[j], line));
        } else {
            assert(ranges.push(r)[j] == r);
        }
    }
}

/// Coverage monotonicity: appending a range never decreases the covered-line
/// count, and it increases the count by exactly the number of previously
/// uncovered lines inside the new range (so by at most that number).
pub proof fn lemma_coverage_monotone(
    ranges: Seq<(usize, usize)>,
    r: (usize, usize),
    total: nat,
)
    ensures
        covered_count(ranges.push(r), total) == covered_count(ranges, total)
            + newly_covered_count(ranges, r, total),
        covered_count(ranges, total) <= covered_count(ranges.push(r), total),
    decreases total,
{
    if total > 0 {
        lemma_coverage_monotone(ranges, r, (total - 1) as nat);
        lemma_line_covered_push(ranges, r, total - 1);
    }
}

/// A line index moved by `delta`, clamped to the machine range.
pub open spec fn shift_index(x: usize, delta: int) -> usize {
    if x + delta > usize::MAX {
        usize::MAX
    } else if x + delta < 0 {
        0
    } else {
        (x + delta) as usize
    }
}

/// The shift-or-drop rule applied after `lines start..=end` of the document
/// were replaced by a block whose length differs by `delta` lines:
/// a range entirely after the edit shifts by `delta`, a range that touches
/// the edited span is dropped as stale, and a range entirely before the edit
/// is kept unchanged.
pub open spec fn shift_ranges(
    ranges: Seq<(usize, usize)>,
    start: int,
    end: int,
    delta: int,
) -> Seq<(usize, usize)>
    decreases ranges.len(),
{
    if ranges.len() == 0 {
        Seq::empty()
    } else {
        let r0 = ranges[0];
        let rest = shift_ranges(ranges.drop_first(), start, end, delta);
        if r0.0 > end {
            seq![(shift_index(r0.0, delta), shift_index(r0.1, delta))] + rest
        } else if r0.1 >= start {
            rest
        } else {
            seq![r0] + rest
        }
    }
}

proof fn lemma_shift_ranges_concat(
    a: Seq<(usize, usize)>,
    b: Seq<(usize, usize)>,
    start: int,
    end: int,
    delta: int,
)
    ensures
        shift_ranges(a + b, start, end, delta) == shift_ranges(a, start, end, delta)
            + shift_ranges(b, start, end, delta),
    decreases a.len(),
{
    if a.len() == 0 {
        assert(a + b =~= b);
        assert(shift_ranges(a, start, end, delta) + shift_ranges(b, start, end, delta)
            =~= shift_ranges(b, start, end, delta));
    } else {
        assert((a + b).drop_first() =~= a.drop_first() + b);
        lemma_shift_ranges_concat(a.drop_first(), b, start, end, delta);
        assert((a + b)[0] == a[0]);
        assert(shift_ranges(a + b, start, end, delta) =~= shift_ranges(a, start, end, delta)
            + shift_ranges(b, start, end, delta));
    }
}

/// Appending one range distributes over the shift-or-drop rule.
pub proof fn lemma_shift_ranges_push(
    ranges: Seq<(usize, usize)>,
    r: (usize, usize),
    start: int,
    end: int,
    delta: int,
)
    ensures
        shift_ranges(ranges.push(r), start, end, delta) == shift_ranges(ranges, start, end, delta)
            + shift_ranges(seq![r], start, end, delta),
{
    assert(ranges.push(r) =~= ranges + seq![r]);
    lemma_shift_ranges_concat(ranges, seq![r], start, end, delta);
}

/// Decides whether `line` lies in any of `ranges`.
pub fn line_covered_exec(ranges: &Vec<(usize, usize)>, line: usize) -> (r: bool)
    ensures
        r == line_covered(ranges@, line as int),
{
    let n = ranges.len();
    for k in 0..n
        invariant
            n == ranges@.len(),
            forall|j: int| 0 <= j < k ==> !range_covers(ranges@[j], line as int),
    {
        let (s, e) = ranges[k];
        if s <= line && line <= e {
            assert(range_covers(ranges@[k as int], line as int));
            return true;
        }
    }
    false
}

/// Counts the line indices in `[0, total)` covered by at least one range.
pub fn count_covered_lines(ranges: &Vec<(usize, usize)>, total: usize) -> (r: usize)
    ensures
        r == covered_count(ranges@, total as nat),
        r <= total,
{
    let mut count: usize = 0;
    for i in 0..total
        invariant
            count == covered_count(ranges@, i as nat),
            count <= i,
    {
        if line_covered_exec(ranges, i) {
            count = count + 1;
        }
    }
    count
}

} // verus!
