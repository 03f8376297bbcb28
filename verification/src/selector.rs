//! The splitpoint selector: a single forward pass over the canvas height that
//! commits one cut per window of at most `max_height` rows, preferring the
//! latest candidate row in the window and falling back to a forced cut at
//! exactly `cursor + max_height` when the window holds no candidate.

use vstd::prelude::*;
use crate::scorer::is_candidate;
use crate::canvas::Canvas;

verus! {

/// How a splitpoint came to be.
#[derive(Clone, Copy, Debug, PartialEq, Eq, Structural)]
pub enum SplitpointKind {
    /// Committed at a candidate row.
    Chosen,
    /// Forced commit at `cursor + max_height`; no candidate existed.
    Fallback,
    /// A candidate superseded by a later one; never committed.
    Skipped,
}

/// A canvas row offset together with how it was selected.
#[derive(Clone, Copy, Debug, PartialEq, Eq, Structural)]
pub struct Splitpoint {
    pub offset: usize,
    pub kind: SplitpointKind,
}

/// Configuration rejected before any scanning.
#[derive(Clone, Copy, Debug, PartialEq, Eq, Structural)]
pub enum ConfigurationError {
    MinAboveMax,
    ZeroInterval,
    ZeroMaxHeight,
}

/// The smallest admissible distance from the cursor to a cut: at least the
/// configured minimum, and never zero, so that offsets strictly increase.
pub open spec fn effective_min(min: int) -> int {
    if min < 1 {
        1
    } else {
        min
    }
}

pub open spec fn mark(offset: int, kind: SplitpointKind) -> Splitpoint {
    Splitpoint { offset: offset as usize, kind }
}

/// The scan-aligned candidate rows in `[lo, hi)`, in ascending order.
pub open spec fn window_cands(c: Seq<Seq<u8>>, sens: u8, k: int, lo: int, hi: int) -> Seq<int>
    decreases hi - lo,
{
    if hi <= lo {
        Seq::empty()
    } else {
        window_cands(c, sens, k, lo, hi - 1) + if (hi - 1) % k == 0 && is_candidate(
            c[hi - 1],
            sens,
        ) {
            seq![hi - 1]
        } else {
            Seq::empty()
        }
    }
}

/// The candidate rows scanned for the window that starts at `cursor`.
pub open spec fn scan_cands(
    c: Seq<Seq<u8>>,
    max: int,
    min: int,
    k: int,
    sens: u8,
    cursor: int,
) -> Seq<int> {
    window_cands(c, sens, k, cursor + effective_min(min), cursor + max + 1)
}

/// The splitpoints one window emits: every superseded candidate as `Skipped`
/// followed by the latest candidate as `Chosen`, or a single `Fallback` when
/// the window held no candidate.
pub open spec fn window_marks(cs: Seq<int>, cursor: int, max: int) -> Seq<Splitpoint> {
    if cs.len() > 0 {
        cs.drop_last().map_values(|r: int| mark(r, SplitpointKind::Skipped)).push(
            mark(cs.last(), SplitpointKind::Chosen),
        )
    } else {
        seq![mark(cursor + max, SplitpointKind::Fallback)]
    }
}

/// Where the cursor lands after one window commits.
pub open spec fn window_next(cs: Seq<int>, cursor: int, max: int) -> int {
    if cs.len() > 0 {
        cs.last()
    } else {
        cursor + max
    }
}

/// Everything a window's candidate list guarantees: rows lie in `[lo, hi)`,
/// are scan-aligned candidates, and ascend strictly.
pub proof fn lemma_window_cands_props(c: Seq<Seq<u8>>, sens: u8, k: int, lo: int, hi: int)
    ensures
        ({
            let cs = window_cands(c, sens, k, lo, hi);
            &&& forall|t: int| 0 <= t < cs.len() ==> lo <= #[trigger] cs[t] < hi
            &&& forall|t: int|
                0 <= t < cs.len() ==> (#[trigger] cs[t]) % k == 0 && is_candidate(c[cs[t]], sens)
            &&& forall|t1: int, t2: int|
                0 <= t1 < t2 < cs.len() ==> #[trigger] cs[t1] < #[trigger] cs[t2]
        }),
    decreases hi - lo,
{
    if hi > lo {
        lemma_window_cands_props(c, sens, k, lo, hi - 1);
        let prev = window_cands(c, sens, k, lo, hi - 1);
        let cs = window_cands(c, sens, k, lo, hi);
        assert(forall|t: int| 0 <= t < prev.len() ==> cs[t] == #[trigger] prev[t]);
        if (hi - 1) % k == 0 && is_candidate(c[hi - 1], sens) {
            assert(cs.len() == prev.len() + 1);
            assert(cs[cs.len() - 1] == hi - 1);
        }
    }
}

/// A window over rows that are nowhere candidates collects nothing.
pub proof fn lemma_window_cands_empty(c: Seq<Seq<u8>>, sens: u8, k: int, lo: int, hi: int)
    requires
        forall|r: int| lo <= r < hi ==> !is_candidate(#[trigger] c[r], sens),
    ensures
        window_cands(c, sens, k, lo, hi).len() == 0,
    decreases hi - lo,
{
    if hi > lo {
        lemma_window_cands_empty(c, sens, k, lo, hi - 1);
    }
}

/// The ordered splitpoints the selector emits from `cursor` onward.
pub open spec fn select_from(
    c: Seq<Seq<u8>>,
    max: int,
    min: int,
    k: int,
    sens: u8,
    cursor: int,
) -> Seq<Splitpoint>
    decreases c.len() - cursor,
        when 1 <= max && 1 <= k && 0 <= cursor
        via select_from_decreases
{
    if c.len() - cursor <= max {
        Seq::empty()
    } else {
        let cs = scan_cands(c, max, min, k, sens, cursor);
        window_marks(cs, cursor, max) + select_from(
            c,
            max,
            min,
            k,
            sens,
            window_next(cs, cursor, max),
        )
    }
}

/// The offsets of the committed (non-skipped) splitpoints, in emission order.
pub open spec fn committed_offsets(sps: Seq<Splitpoint>) -> Seq<int>
    decreases sps.len(),
{
    if sps.len() == 0 {
        Seq::empty()
    } else {
        committed_offsets(sps.drop_last()) + if sps.last().kind is Skipped {
            Seq::empty()
        } else {
            seq![sps.last().offset as int]
        }
    }
}

pub proof fn lemma_committed_add(a: Seq<Splitpoint>, b: Seq<Splitpoint>)
    ensures
        committed_offsets(a + b) == committed_offsets(a) + committed_offsets(b),
    decreases b.len(),
{
    if b.len() == 0 {
        assert(a + b =~= a);
        assert(committed_offsets(a) + committed_offsets(b) =~= committed_offsets(a));
    } else {
        lemma_committed_add(a, b.drop_last());
        assert((a + b).drop_last() =~= a + b.drop_last());
        assert((a + b).last() == b.last());
        assert(committed_offsets(a + b) =~= committed_offsets(a) + committed_offsets(b));
    }
}

proof fn lemma_committed_all_skipped(sps: Seq<Splitpoint>)
    requires
        forall|t: int| 0 <= t < sps.len() ==> (#[trigger] sps[t]).kind is Skipped,
    ensures
        committed_offsets(sps) == Seq::<int>::empty(),
    decreases sps.len(),
{
    if sps.len() > 0 {
        lemma_committed_all_skipped(sps.drop_last());
        assert(committed_offsets(sps) =~= Seq::<int>::empty());
    }
}

/// One window commits exactly one boundary: the landing point of the cursor.
pub proof fn lemma_window_marks_committed(cs: Seq<int>, cursor: int, max: int)
    requires
        0 <= cursor,
        1 <= max,
        cursor + max <= usize::MAX,
        forall|t: int| 0 <= t < cs.len() ==> 0 <= #[trigger] cs[t] <= cursor + max,
    ensures
        committed_offsets(window_marks(cs, cursor, max)) == seq![window_next(cs, cursor, max)],
{
    let marks = window_marks(cs, cursor, max);
    if cs.len() > 0 {
        let skipped = cs.drop_last().map_values(|r: int| mark(r, SplitpointKind::Skipped));
        lemma_committed_all_skipped(skipped);
        assert(marks.drop_last() =~= skipped);
        assert(0 <= cs[cs.len() - 1] <= cursor + max);
        assert(marks.last() == mark(cs.last(), SplitpointKind::Chosen));
        assert(committed_offsets(marks) == committed_offsets(marks.drop_last()) + seq![
            marks.last().offset as int,
        ]);
        assert(committed_offsets(marks.drop_last()) == committed_offsets(skipped));
        assert(marks.last().offset as int == cs.last());
        assert(committed_offsets(marks) == Seq::<int>::empty() + seq![cs.last()]);
        assert(Seq::<int>::empty() + seq![cs.last()] =~= seq![cs.last()]);
        assert(window_next(cs, cursor, max) == cs.last());
        assert(seq![cs.last()] =~= seq![window_next(cs, cursor, max)]);
    } else {
        assert(marks.drop_last() =~= Seq::<Splitpoint>::empty());
        assert(marks.last() == mark(cursor + max, SplitpointKind::Fallback));
        assert(committed_offsets(marks) == committed_offsets(marks.drop_last()) + seq![
            marks.last().offset as int,
        ]);
        assert(marks.last().offset as int == cursor + max);
        assert(committed_offsets(marks) =~= seq![window_next(cs, cursor, max)]);
    }
}

/// The splitpoints of one window: at least one mark, offsets strictly
/// ascending within `(cursor, window_next]`, the last being the commit.
pub proof fn lemma_window_marks_offsets(cs: Seq<int>, cursor: int, max: int)
    requires
        1 <= max,
        0 <= cursor,
        cursor + max <= usize::MAX,
        forall|t: int| 0 <= t < cs.len() ==> cursor < #[trigger] cs[t] <= cursor + max,
        forall|t1: int, t2: int|
            0 <= t1 < t2 < cs.len() ==> #[trigger] cs[t1] < #[trigger] cs[t2],
    ensures
        ({
            let marks = window_marks(cs, cursor, max);
            let next = window_next(cs, cursor, max);
            &&& marks.len() >= 1
            &&& forall|t: int|
                0 <= t < marks.len() ==> cursor < (#[trigger] marks[t]).offset <= next
            &&& forall|t1: int, t2: int|
                0 <= t1 < t2 < marks.len() ==> (#[trigger] marks[t1]).offset < (
                #[trigger] marks[t2]).offset
            &&& marks[marks.len() - 1].offset == next
            &&& cursor < next <= cursor + max
        }),
{
    let marks = window_marks(cs, cursor, max);
    let next = window_next(cs, cursor, max);
    if cs.len() > 0 {
        assert(cursor < cs[cs.len() - 1] <= cursor + max);
        assert(forall|t: int|
            0 <= t < marks.len() - 1 ==> #[trigger] marks[t] == mark(
                cs.drop_last()[t],
                SplitpointKind::Skipped,
            ));
        assert(forall|t: int| 0 <= t < cs.len() - 1 ==> cs.drop_last()[t] == #[trigger] cs[t]);
        assert(marks[marks.len() - 1] == mark(cs.last(), SplitpointKind::Chosen));
        assert(forall|t: int| 0 <= t < cs.len() ==> (#[trigger] cs[t]) as usize == cs[t]);
    }
}

/// Splitpoint offsets strictly increase and lie inside `(cursor, height)`.
pub proof fn lemma_select_offsets(
    c: Seq<Seq<u8>>,
    max: int,
    min: int,
    k: int,
    sens: u8,
    cursor: int,
)
    requires
        1 <= max,
        1 <= k,
        0 <= cursor,
        c.len() <= usize::MAX,
    ensures
        ({
            let sps = select_from(c, max, min, k, sens, cursor);
            &&& forall|t: int|
                0 <= t < sps.len() ==> cursor < (#[trigger] sps[t]).offset < c.len()
            &&& forall|t1: int, t2: int|
                0 <= t1 < t2 < sps.len() ==> (#[trigger] sps[t1]).offset < (
                #[trigger] sps[t2]).offset
        }),
    decreases c.len() - cursor,
{
    let sps = select_from(c, max, min, k, sens, cursor);
    if c.len() - cursor > max {
        let lo = cursor + effective_min(min);
        let hi = cursor + max + 1;
        let cs = scan_cands(c, max, min, k, sens, cursor);
        lemma_window_cands_props(c, sens, k, lo, hi);
        lemma_window_marks_offsets(cs, cursor, max);
        let marks = window_marks(cs, cursor, max);
        let next = window_next(cs, cursor, max);
        lemma_select_offsets(c, max, min, k, sens, next);
        let rest = select_from(c, max, min, k, sens, next);
        assert(sps == marks + rest);
        assert(forall|t: int| 0 <= t < marks.len() ==> sps[t] == #[trigger] marks[t]);
        assert(forall|t: int|
            marks.len() <= t < sps.len() ==> #[trigger] sps[t] == rest[t - marks.len()]);
    }
}

/// The boundary list `cursor .. committed cuts .. canvas height` ascends
/// strictly; every interior segment spans between `effective_min(min)` and
/// `max` rows, and the trailing segment spans at most `max` rows.
pub proof fn lemma_segment_heights(
    c: Seq<Seq<u8>>,
    max: int,
    min: int,
    k: int,
    sens: u8,
    cursor: int,
)
    requires
        1 <= max,
        min <= max,
        1 <= k,
        0 <= cursor < c.len(),
        c.len() <= usize::MAX,
    ensures
        ({
            let bs = seq![cursor] + committed_offsets(select_from(c, max, min, k, sens, cursor))
                + seq![c.len() as int];
            &&& forall|t: int| 0 <= t < bs.len() - 1 ==> #[trigger] bs[t] < bs[t + 1]
            &&& forall|t: int|
                0 <= t < bs.len() - 2 ==> effective_min(min) <= bs[t + 1] - #[trigger] bs[t]
                    <= max
            &&& bs[bs.len() - 1] - bs[bs.len() - 2] <= max
        }),
    decreases c.len() - cursor,
{
    let sps = select_from(c, max, min, k, sens, cursor);
    let bs = seq![cursor] + committed_offsets(sps) + seq![c.len() as int];
    if c.len() - cursor <= max {
        assert(committed_offsets(sps) == Seq::<int>::empty());
        assert(bs =~= seq![cursor, c.len() as int]);
    } else {
        let lo = cursor + effective_min(min);
        let hi = cursor + max + 1;
        let cs = scan_cands(c, max, min, k, sens, cursor);
        lemma_window_cands_props(c, sens, k, lo, hi);
        lemma_window_marks_offsets(cs, cursor, max);
        let marks = window_marks(cs, cursor, max);
        let next = window_next(cs, cursor, max);
        let rest = select_from(c, max, min, k, sens, next);
        lemma_committed_add(marks, rest);
        lemma_window_marks_committed(cs, cursor, max);
        lemma_segment_heights(c, max, min, k, sens, next);
        let bs_rest = seq![next] + committed_offsets(rest) + seq![c.len() as int];
        assert(bs =~= seq![cursor] + bs_rest);
        assert(forall|t: int| 0 <= t < bs_rest.len() ==> bs[t + 1] == #[trigger] bs_rest[t]);
        assert(effective_min(min) <= next - cursor <= max);
    }
}

/// With no candidate row anywhere, every window forces a `Fallback` commit at
/// exactly `cursor + max`: the cuts sit at max-height multiples.
pub proof fn lemma_all_fallback(
    c: Seq<Seq<u8>>,
    max: int,
    min: int,
    k: int,
    sens: u8,
    cursor: int,
)
    requires
        1 <= max,
        1 <= k,
        0 <= cursor,
        c.len() <= usize::MAX,
        forall|r: int| 0 <= r < c.len() ==> !is_candidate(#[trigger] c[r], sens),
    ensures
        ({
            let sps = select_from(c, max, min, k, sens, cursor);
            forall|t: int|
                0 <= t < sps.len() ==> (#[trigger] sps[t]).kind is Fallback && sps[t].offset
                    == cursor + (t + 1) * max
        }),
    decreases c.len() - cursor,
{
    let sps = select_from(c, max, min, k, sens, cursor);
    if c.len() - cursor > max {
        let lo = cursor + effective_min(min);
        let hi = cursor + max + 1;
        lemma_window_cands_empty(c, sens, k, lo, hi);
        let cs = scan_cands(c, max, min, k, sens, cursor);
        assert(cs.len() == 0);
        let next = cursor + max;
        lemma_all_fallback(c, max, min, k, sens, next);
        let rest = select_from(c, max, min, k, sens, next);
        assert(sps == seq![mark(next, SplitpointKind::Fallback)] + rest);
        assert(sps[0].offset == cursor + max);
        assert(cursor + 1 * max == cursor + max) by (nonlinear_arith);
        assert forall|t: int| 1 <= t < sps.len() implies (#[trigger] sps[t]).kind is Fallback
            && sps[t].offset == cursor + (t + 1) * max by {
            assert(sps[t] == rest[t - 1]);
            assert(rest[t - 1].offset == next + (t - 1 + 1) * max);
            assert(next + t * max == cursor + (t + 1) * max) by (nonlinear_arith)
                requires
                    next == cursor + max,
            ;
        }
    }
}

/// Committing preserves order: over a splitpoint list whose offsets ascend
/// strictly below `h`, the committed offsets ascend strictly below `h` too.
pub proof fn lemma_committed_sorted(sps: Seq<Splitpoint>, h: int)
    requires
        forall|t: int| 0 <= t < sps.len() ==> (#[trigger] sps[t]).offset < h,
        forall|t1: int, t2: int|
            0 <= t1 < t2 < sps.len() ==> (#[trigger] sps[t1]).offset < (
            #[trigger] sps[t2]).offset,
    ensures
        ({
            let cs = committed_offsets(sps);
            &&& forall|t: int| 0 <= t < cs.len() ==> 0 <= #[trigger] cs[t] < h
            &&& forall|t1: int, t2: int|
                0 <= t1 < t2 < cs.len() ==> #[trigger] cs[t1] < #[trigger] cs[t2]
            &&& sps.len() > 0 ==> forall|t: int|
                0 <= t < cs.len() ==> #[trigger] cs[t] <= sps.last().offset
        }),
    decreases sps.len(),
{
    if sps.len() > 0 {
        let prev = sps.drop_last();
        assert(forall|t: int| 0 <= t < prev.len() ==> #[trigger] prev[t] == sps[t]);
        lemma_committed_sorted(prev, h);
        let cs = committed_offsets(sps);
        let csp = committed_offsets(prev);
        if prev.len() > 0 {
            assert(prev.last() == sps[sps.len() - 2]);
            assert(prev.last().offset <= sps.last().offset);
        }
        if sps.last().kind is Skipped {
            assert(cs =~= csp);
        } else {
            assert(cs =~= csp.push(sps.last().offset as int));
        }
    }
}

/// The selector's output is fit for the exporter: its committed offsets
/// ascend and stay within the canvas height.
pub proof fn lemma_select_fits_export(
    c: Seq<Seq<u8>>,
    max: int,
    min: int,
    k: int,
    sens: u8,
)
    requires
        1 <= max,
        1 <= k,
        c.len() <= usize::MAX,
    ensures
        ({
            let cs = committed_offsets(select_from(c, max, min, k, sens, 0));
            &&& forall|t: int| 0 <= t < cs.len() ==> 0 <= #[trigger] cs[t] <= c.len()
            &&& forall|t1: int, t2: int|
                0 <= t1 < t2 < cs.len() ==> #[trigger] cs[t1] <= #[trigger] cs[t2]
        }),
{
    lemma_select_offsets(c, max, min, k, sens, 0);
    lemma_committed_sorted(select_from(c, max, min, k, sens, 0), c.len() as int);
}

/// Selection is a pure function of the canvas pixels and the four
/// parameters: two selections over equal inputs yield equal splitpoint
/// lists.
pub proof fn lemma_selection_deterministic(
    sps1: Seq<Splitpoint>,
    sps2: Seq<Splitpoint>,
    c: Seq<Seq<u8>>,
    max: int,
    min: int,
    k: int,
    sens: u8,
)
    requires
        sps1 == select_from(c, max, min, k, sens, 0),
        sps2 == select_from(c, max, min, k, sens, 0),
    ensures
        sps1 == sps2,
{
}

#[via_fn]
proof fn select_from_decreases(
    c: Seq<Seq<u8>>,
    max: int,
    min: int,
    k: int,
    sens: u8,
    cursor: int,
) {
    if c.len() - cursor > max {
        let lo = cursor + effective_min(min);
        let hi = cursor + max + 1;
        let cs = scan_cands(c, max, min, k, sens, cursor);
        lemma_window_cands_props(c, sens, k, lo, hi);
        if cs.len() > 0 {
            assert(lo <= cs[cs.len() - 1] < hi);
        }
    }
}

/// Walks the canvas height and returns the ordered splitpoint list: one
/// `Chosen` or `Fallback` commit per window, with superseded candidates
/// retained as `Skipped`. The result is exactly `select_from(canvas@, ...)`,
/// a pure function of the canvas pixels and the four parameters.
pub fn select(
    canvas: &Canvas,
    max_height: usize,
    min_height: usize,
    scan_interval: usize,
    sensitivity: u8,
) -> (r: Result<Vec<Splitpoint>, ConfigurationError>)
    requires
        canvas.wf(),
    ensures
        match r {
            Ok(sps) => min_height <= max_height && 1 <= scan_interval && 1 <= max_height
                && sps@ == select_from(
                canvas@,
                max_height as int,
                min_height as int,
                scan_interval as int,
                sensitivity,
                0,
            ),
            Err(e) => match e {
                ConfigurationError::MinAboveMax => min_height > max_height,
                ConfigurationError::ZeroInterval => min_height <= max_height && scan_interval
                    == 0,
                ConfigurationError::ZeroMaxHeight => min_height <= max_height && 1
                    <= scan_interval && max_height == 0,
            },
        },
{
    if min_height > max_height {
        return Err(ConfigurationError::MinAboveMax);
    }
    if scan_interval == 0 {
        return Err(ConfigurationError::ZeroInterval);
    }
    if max_height == 0 {
        return Err(ConfigurationError::ZeroMaxHeight);
    }
    let ghost c = canvas@;
    let ghost gmax = max_height as int;
    let ghost gmin = min_height as int;
    let ghost gk = scan_interval as int;
    let h = canvas.height();
    let mut out: Vec<Splitpoint> = Vec::new();
    let mut cursor: usize = 0;
    while h - cursor > max_height
        invariant
            cursor <= h,
            select_from(c, gmax, gmin, gk, sensitivity, 0) == out@ + select_from(
                c,
                gmax,
                gmin,
                gk,
                sensitivity,
                cursor as int,
            ),
        decreases h - cursor,
    {
        let ghost out0 = out@;
        let lo_off = if min_height < 1 {
            1
        } else {
            min_height
        };
        let lo = cursor + lo_off;
        let hi = cursor + max_height + 1;
        let mut cands: Vec<usize> = Vec::new();
        let mut rr: usize = lo;
        while rr < hi
            invariant
                lo <= rr <= hi,
                hi <= h,
                cands@.map_values(|v: usize| v as int) == window_cands(
                    c,
                    sensitivity,
                    gk,
                    lo as int,
                    rr as int,
                ),
            decreases hi - rr,
        {
            if rr % scan_interval == 0 {
                let u = crate::scorer::score_row(canvas, rr);
                if u >= sensitivity {
                    cands.push(rr);
                }
            }
            proof {
                let f = |v: usize| v as int;
                let prev = window_cands(c, sensitivity, gk, lo as int, rr as int);
                let nextw = window_cands(c, sensitivity, gk, lo as int, rr + 1);
                if rr as int % gk == 0 && is_candidate(c[rr as int], sensitivity) {
                    assert(nextw =~= prev + seq![rr as int]);
                    assert(cands@.map_values(f) =~= nextw);
                } else {
                    assert(nextw =~= prev);
                }
            }
            rr = rr + 1;
        }
        let ghost cs = scan_cands(c, gmax, gmin, gk, sensitivity, cursor as int);
        proof {
            assert(cands@.map_values(|v: usize| v as int) == cs);
            lemma_window_cands_props(c, sensitivity, gk, lo as int, hi as int);
        }
        let ghost marks = window_marks(cs, cursor as int, gmax);
        let ghost next = window_next(cs, cursor as int, gmax);
        if cands.len() > 0 {
            let mut t: usize = 0;
            while t + 1 < cands.len()
                invariant
                    t < cands@.len(),
                    out@ == out0 + marks.take(t as int),
                decreases cands@.len() - t,
            {
                proof {
                    assert(cs[t as int] == cands@[t as int] as int);
                    assert(marks[t as int] == mark(cs.drop_last()[t as int],
                        SplitpointKind::Skipped));
                    assert(marks.take(t + 1) =~= marks.take(t as int).push(marks[t as int]));
                }
                out.push(Splitpoint { offset: cands[t], kind: SplitpointKind::Skipped });
                t = t + 1;
            }
            let b = cands[cands.len() - 1];
            proof {
                assert(cs[cs.len() - 1] == b as int);
                assert(cursor < b as int <= cursor + gmax);
                assert(marks[marks.len() - 1] == mark(cs.last(), SplitpointKind::Chosen));
                assert(marks.take(marks.len() - 1).push(marks[marks.len() - 1]) =~= marks);
            }
            out.push(Splitpoint { offset: b, kind: SplitpointKind::Chosen });
            cursor = b;
        } else {
            proof {
                assert(marks =~= seq![mark(cursor + gmax, SplitpointKind::Fallback)]);
            }
            out.push(
                Splitpoint { offset: cursor + max_height, kind: SplitpointKind::Fallback },
            );
            cursor = cursor + max_height;
        }
        proof {
            assert(out@ =~= out0 + marks);
            assert(cursor as int == next);
            assert(select_from(c, gmax, gmin, gk, sensitivity, 0) == out@ + select_from(
                c,
                gmax,
                gmin,
                gk,
                sensitivity,
                cursor as int,
            )) by {
                assert(out0 + marks + select_from(c, gmax, gmin, gk, sensitivity, next) =~= out0
                    + (marks + select_from(c, gmax, gmin, gk, sensitivity, next)));
            }
        }
    }
    proof {
        assert(select_from(c, gmax, gmin, gk, sensitivity, cursor as int) == Seq::<
            Splitpoint,
        >::empty());
        assert(out@ + Seq::<Splitpoint>::empty() =~= out@);
    }
    Ok(out)
}

} // verus!
