//! The segment assembler: crops the rows of one segment out of the canvas
//! into a single raster, stitching across source images where the segment
//! spans an image boundary, and optionally overlays one marker line per
//! splitpoint that falls inside the segment.

use vstd::prelude::*;
use crate::canvas::{Canvas, lemma_stack_rows_width, lemma_stack_rows_len};
use crate::selector::{Splitpoint, SplitpointKind};

verus! {

/// The samples of canvas rows `[start, end)`, concatenated.
pub open spec fn rows_concat(c: Seq<Seq<u8>>, start: int, end: int) -> Seq<u8>
    decreases end - start,
{
    if end <= start {
        Seq::empty()
    } else {
        rows_concat(c, start, end - 1) + c[end - 1]
    }
}

pub proof fn lemma_rows_concat_len(c: Seq<Seq<u8>>, start: int, end: int, rl: int)
    requires
        0 <= rl,
        0 <= start <= end,
        forall|r: int| start <= r < end ==> (#[trigger] c[r]).len() == rl,
    ensures
        rows_concat(c, start, end).len() == (end - start) * rl,
    decreases end - start,
{
    if end <= start {
        assert((end - start) * rl == 0) by (nonlinear_arith)
            requires
                end == start,
        ;
    } else {
        lemma_rows_concat_len(c, start, end - 1, rl);
        assert(c[end - 1].len() == rl);
        assert(rows_concat(c, start, end).len() == rows_concat(c, start, end - 1).len() + rl);
        assert((end - start) * rl == (end - 1 - start) * rl + rl) by (nonlinear_arith);
    }
}

/// Marker colors: red for a committed cut, light blue for a skipped
/// candidate.
pub open spec fn mark_color(kind: SplitpointKind) -> (u8, u8, u8) {
    match kind {
        SplitpointKind::Skipped => (173, 216, 230),
        _ => (255, 0, 0),
    }
}

/// One channel of a marker color.
pub open spec fn color_byte(color: (u8, u8, u8), phase: int) -> u8 {
    if phase == 0 {
        color.0
    } else if phase == 1 {
        color.1
    } else {
        color.2
    }
}

/// `seg` with row `row` (of `rl` samples each) painted in `color`.
pub open spec fn paint_row(seg: Seq<u8>, rl: int, row: int, color: (u8, u8, u8)) -> Seq<u8> {
    Seq::new(
        seg.len(),
        |s: int|
            if row * rl <= s < (row + 1) * rl {
                color_byte(color, (s - row * rl) % 3)
            } else {
                seg[s]
            },
    )
}

/// `seg` with one marker row per splitpoint that falls inside `[start, end)`,
/// applied in splitpoint order.
pub open spec fn overlay_marks(
    seg: Seq<u8>,
    rl: int,
    sps: Seq<Splitpoint>,
    start: int,
    end: int,
) -> Seq<u8>
    decreases sps.len(),
{
    if sps.len() == 0 {
        seg
    } else {
        let prev = overlay_marks(seg, rl, sps.drop_last(), start, end);
        let sp = sps.last();
        if start <= sp.offset < end {
            paint_row(prev, rl, sp.offset - start, mark_color(sp.kind))
        } else {
            prev
        }
    }
}

/// The raster of the segment `[start, end)`: its canvas rows, with marker
/// lines overlaid when `debug` is set.
pub open spec fn segment_view(
    c: Seq<Seq<u8>>,
    rl: int,
    sps: Seq<Splitpoint>,
    start: int,
    end: int,
    debug: bool,
) -> Seq<u8> {
    if debug {
        overlay_marks(rows_concat(c, start, end), rl, sps, start, end)
    } else {
        rows_concat(c, start, end)
    }
}

/// Appends the samples of canvas row `r` to `seg`.
fn append_row(canvas: &Canvas, r: usize, seg: &mut Vec<u8>)
    requires
        canvas.wf(),
        r < canvas@.len(),
    ensures
        final(seg)@ == old(seg)@ + canvas@[r as int],
{
    let (i, j) = canvas.locate(r);
    let img = &canvas.images[i];
    let ghost row = canvas@[r as int];
    let n = img.samples.len();
    proof {
        assert(3 * img.width <= n && (j as int) * (3 * img.width) + 3 * img.width <= n && (
        j as int) * (3 * img.width) + 3 * img.width == ((j as int) + 1) * (3 * img.width))
            by (nonlinear_arith)
            requires
                n == 3 * img.width * img.height,
                1 <= img.width,
                0 <= j < img.height,
        ;
    }
    let rl: usize = 3 * img.width;
    let base: usize = j * rl;
    proof {
        assert(row == img.row(j as int));
        assert(row.len() == rl);
        assert(old(seg)@ + row.take(0) =~= old(seg)@);
    }
    let mut s: usize = 0;
    while s < rl
        invariant
            s <= rl,
            base + rl <= img.samples@.len(),
            row == img.row(j as int),
            row.len() == rl,
            base == j * rl,
            seg@ == old(seg)@ + row.take(s as int),
        decreases rl - s,
    {
        proof {
            assert(row.take(s + 1).drop_last() =~= row.take(s as int));
            assert(row.take(s + 1).last() == row[s as int]);
            assert(row[s as int] == img.samples@[base + s]);
        }
        seg.push(img.samples[base + s]);
        proof {
            assert(seg@ =~= old(seg)@ + row.take(s + 1));
        }
        s = s + 1;
    }
    proof {
        assert(row.take(rl as int) =~= row);
    }
}

/// Crops canvas rows `[start, end)` into one raster; with `debug` set, every
/// splitpoint row inside the segment is overpainted with its marker color.
pub fn assemble_segment(
    canvas: &Canvas,
    splitpoints: &Vec<Splitpoint>,
    start: usize,
    end: usize,
    debug: bool,
) -> (seg: Vec<u8>)
    requires
        canvas.wf(),
        start <= end <= canvas@.len(),
    ensures
        seg@ == segment_view(
            canvas@,
            3 * canvas.width,
            splitpoints@,
            start as int,
            end as int,
            debug,
        ),
        seg@.len() == (end - start) * (3 * canvas.width),
{
    let n0 = canvas.images[0].samples.len();
    proof {
        let img0 = canvas.images@[0];
        assert(3 * img0.width <= n0) by (nonlinear_arith)
            requires
                n0 == 3 * img0.width * img0.height,
                1 <= img0.width,
                1 <= img0.height,
        ;
        lemma_stack_rows_width(canvas.images@, canvas.width as int);
        lemma_stack_rows_len(canvas.images@);
    }
    let rl: usize = 3 * canvas.width;
    let mut seg: Vec<u8> = Vec::new();
    let mut r: usize = start;
    proof {
        assert(seg@ =~= rows_concat(canvas@, start as int, start as int));
    }
    while r < end
        invariant
            start <= r <= end,
            seg@ == rows_concat(canvas@, start as int, r as int),
        decreases end - r,
    {
        append_row(canvas, r, &mut seg);
        r = r + 1;
    }
    proof {
        lemma_rows_concat_len(canvas@, start as int, end as int, rl as int);
    }
    if !debug {
        return seg;
    }
    let seg_len = seg.len();
    let ghost seg0 = seg@;
    let mut t: usize = 0;
    proof {
        assert(overlay_marks(seg0, rl as int, splitpoints@.take(0), start as int, end as int)
            =~= seg0);
    }
    while t < splitpoints.len()
        invariant
            t <= splitpoints@.len(),
            seg@.len() == seg0.len(),
            seg0.len() == (end - start) * (rl as int),
            seg@ == overlay_marks(
                seg0,
                rl as int,
                splitpoints@.take(t as int),
                start as int,
                end as int,
            ),
        decreases splitpoints@.len() - t,
    {
        let sp = splitpoints[t];
        proof {
            assert(splitpoints@.take(t + 1).drop_last() =~= splitpoints@.take(t as int));
            assert(splitpoints@.take(t + 1).last() == sp);
        }
        if start <= sp.offset && sp.offset < end {
            let row = sp.offset - start;
            proof {
                assert((row as int) * (rl as int) + rl <= seg_len && (row as int) * (rl as int)
                    + rl == ((row as int) + 1) * (rl as int) && 0 <= (row as int) * (rl as int))
                    by (nonlinear_arith)
                    requires
                        0 <= row < end - start,
                        0 <= rl,
                        seg_len == (end - start) * (rl as int),
                ;
            }
            let base = row * rl;
            let ghost pre = seg@;
            let cr: u8;
            let cg: u8;
            let cb: u8;
            match sp.kind {
                SplitpointKind::Skipped => {
                    cr = 173;
                    cg = 216;
                    cb = 230;
                },
                _ => {
                    cr = 255;
                    cg = 0;
                    cb = 0;
                },
            }
            let mut s: usize = 0;
            while s < rl
                invariant
                    s <= rl,
                    base + rl <= seg@.len(),
                    base == (row as int) * (rl as int),
                    seg@.len() == pre.len(),
                    forall|x: int|
                        0 <= x < seg@.len() ==> #[trigger] seg@[x] == (if base <= x < base + s {
                            color_byte((cr, cg, cb), (x - base) % 3)
                        } else {
                            pre[x]
                        }),
                decreases rl - s,
            {
                let v: u8 = if s % 3 == 0 {
                    cr
                } else if s % 3 == 1 {
                    cg
                } else {
                    cb
                };
                seg[base + s] = v;
                s = s + 1;
            }
            proof {
                assert(seg@ =~= paint_row(pre, rl as int, row as int, mark_color(sp.kind)));
            }
        }
        t = t + 1;
        proof {
            assert(seg@ =~= overlay_marks(
                seg0,
                rl as int,
                splitpoints@.take(t as int),
                start as int,
                end as int,
            ));
        }
    }
    proof {
        assert(splitpoints@.take(splitpoints@.len() as int) =~= splitpoints@);
    }
    seg
}

} // verus!
