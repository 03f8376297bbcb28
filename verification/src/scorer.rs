//! The line scorer: computes a uniformity value in `[0, 255]` for one pixel
//! row. A row is a splitpoint candidate when its uniformity reaches the
//! configured sensitivity threshold.

use vstd::prelude::*;
use crate::canvas::Canvas;

verus! {

/// Largest sample of a row; `0` for an empty row.
pub open spec fn seq_max(s: Seq<u8>) -> int
    decreases s.len(),
{
    if s.len() == 0 {
        0
    } else {
        let m = seq_max(s.drop_last());
        if s.last() > m {
            s.last() as int
        } else {
            m
        }
    }
}

/// Smallest sample of a row; `255` for an empty row.
pub open spec fn seq_min(s: Seq<u8>) -> int
    decreases s.len(),
{
    if s.len() == 0 {
        255
    } else {
        let m = seq_min(s.drop_last());
        if s.last() < m {
            s.last() as int
        } else {
            m
        }
    }
}

/// Spread of the sample values across one row: max minus min.
pub open spec fn spread(row: Seq<u8>) -> int {
    if row.len() == 0 {
        0
    } else {
        seq_max(row) - seq_min(row)
    }
}

/// Uniformity of one row: `255` for a perfectly flat row, down to `0`.
pub open spec fn uniformity(row: Seq<u8>) -> int {
    255 - spread(row)
}

/// A row is a candidate cut line when its uniformity reaches the sensitivity.
pub open spec fn is_candidate(row: Seq<u8>, sensitivity: u8) -> bool {
    uniformity(row) >= sensitivity
}

pub proof fn lemma_minmax_bounds(s: Seq<u8>)
    ensures
        0 <= seq_max(s) <= 255,
        0 <= seq_min(s) <= 255,
        s.len() > 0 ==> seq_min(s) <= seq_max(s),
    decreases s.len(),
{
    if s.len() > 0 {
        lemma_minmax_bounds(s.drop_last());
    }
}

/// Uniformity always lands in `[0, 255]`.
pub proof fn lemma_uniformity_bounds(row: Seq<u8>)
    ensures
        0 <= uniformity(row) <= 255,
{
    lemma_minmax_bounds(row);
}

/// A sensitivity of `0` makes every row a candidate.
pub proof fn lemma_sensitivity_zero(row: Seq<u8>)
    ensures
        is_candidate(row, 0),
{
    lemma_uniformity_bounds(row);
}

/// A sensitivity of `255` accepts exactly the rows whose measured spread is
/// zero.
pub proof fn lemma_sensitivity_full(row: Seq<u8>)
    ensures
        is_candidate(row, 255) <==> spread(row) == 0,
{
    lemma_uniformity_bounds(row);
}

/// Scores canvas row `r`: uniformity is `255` minus the spread of the row's
/// samples.
pub fn score_row(canvas: &Canvas, r: usize) -> (u: u8)
    requires
        canvas.wf(),
        r < canvas@.len(),
    ensures
        u == uniformity(canvas@[r as int]),
{
    let (i, j) = canvas.locate(r);
    let img = &canvas.images[i];
    let ghost row = canvas@[r as int];
    let n = img.samples.len();
    proof {
        assert(3 * img.width <= n && (j as int) * (3 * img.width) + 3 * img.width <= n
            && (j as int) * (3 * img.width) + 3 * img.width == ((j as int) + 1) * (3 * img.width))
            by (nonlinear_arith)
            requires
                n == 3 * img.width * img.height,
                1 <= img.width,
                0 <= j < img.height,
        ;
    }
    let rl: usize = 3 * img.width;
    let base: usize = j * rl;
    proof {
        assert(row == img.row(j as int));
        assert(row.len() == rl);
    }
    let mut mx: u8 = 0;
    let mut mn: u8 = 255;
    let mut s: usize = 0;
    while s < rl
        invariant
            s <= rl,
            base + rl <= img.samples@.len(),
            row == img.row(j as int),
            row.len() == rl,
            base == j * rl,
            mx == seq_max(row.take(s as int)),
            mn == seq_min(row.take(s as int)),
        decreases rl - s,
    {
        let v = img.samples[base + s];
        proof {
            assert(row.take(s + 1).drop_last() =~= row.take(s as int));
            assert(row.take(s + 1).last() == row[s as int]);
            assert(row[s as int] == img.samples@[base + s]);
        }
        if v > mx {
            mx = v;
        }
        if v < mn {
            mn = v;
        }
        s = s + 1;
    }
    proof {
        assert(row.take(rl as int) =~= row);
        lemma_minmax_bounds(row);
    }
    255 - (mx - mn)
}

} // verus!
