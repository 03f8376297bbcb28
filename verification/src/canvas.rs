//! The canvas: an ordered stack of decoded source images forming one logical
//! raster, with a cumulative-offset table mapping canvas rows to image rows.

use vstd::prelude::*;

verus! {

/// One decoded source image: red, green and blue samples in row-major order,
/// three samples per pixel.
#[derive(Debug, Clone)]
pub struct SourceImage {
    pub width: usize,
    pub height: usize,
    pub samples: Vec<u8>,
}

impl SourceImage {
    /// Number of samples that make up one pixel row.
    pub open spec fn row_samples(self) -> int {
        3 * self.width
    }

    pub open spec fn wf(self) -> bool {
        &&& 1 <= self.width
        &&& 1 <= self.height
        &&& self.samples@.len() == 3 * self.width * self.height
    }

    /// Pixel row `j` of this image, as a sequence of samples.
    pub open spec fn row(self, j: int) -> Seq<u8> {
        self.samples@.subrange(j * self.row_samples(), (j + 1) * self.row_samples())
    }

    /// All pixel rows of this image, top to bottom.
    pub open spec fn rows(self) -> Seq<Seq<u8>> {
        Seq::new(self.height as nat, |j: int| self.row(j))
    }
}

/// The pixel rows of a stack of images, concatenated top to bottom.
pub open spec fn stack_rows(imgs: Seq<SourceImage>) -> Seq<Seq<u8>>
    decreases imgs.len(),
{
    if imgs.len() == 0 {
        Seq::empty()
    } else {
        stack_rows(imgs.drop_last()) + imgs.last().rows()
    }
}

/// The summed height of a stack of images.
pub open spec fn stack_height(imgs: Seq<SourceImage>) -> int
    decreases imgs.len(),
{
    if imgs.len() == 0 {
        0
    } else {
        stack_height(imgs.drop_last()) + imgs.last().height
    }
}

pub proof fn lemma_stack_rows_len(imgs: Seq<SourceImage>)
    ensures
        stack_rows(imgs).len() == stack_height(imgs),
        0 <= stack_height(imgs),
    decreases imgs.len(),
{
    if imgs.len() > 0 {
        lemma_stack_rows_len(imgs.drop_last());
    }
}

/// Adding one image to the stack adds its height.
pub proof fn lemma_stack_height_step(imgs: Seq<SourceImage>, i: int)
    requires
        0 <= i < imgs.len(),
    ensures
        stack_height(imgs.take(i + 1)) == stack_height(imgs.take(i)) + imgs[i].height,
{
    assert(imgs.take(i + 1).drop_last() =~= imgs.take(i));
    assert(imgs.take(i + 1).last() == imgs[i]);
}

/// Canvas row `stack_height(imgs.take(i)) + j` is row `j` of image `i`.
pub proof fn lemma_stack_rows_index(imgs: Seq<SourceImage>, i: int, j: int)
    requires
        0 <= i < imgs.len(),
        0 <= j < imgs[i].height,
    ensures
        0 <= stack_height(imgs.take(i)) + j < stack_height(imgs),
        stack_rows(imgs)[stack_height(imgs.take(i)) + j] == imgs[i].row(j),
    decreases imgs.len(),
{
    lemma_stack_rows_len(imgs);
    lemma_stack_rows_len(imgs.drop_last());
    lemma_stack_rows_len(imgs.take(i));
    if i == imgs.len() - 1 {
        assert(imgs.take(i) =~= imgs.drop_last());
        assert(imgs.last() == imgs[i]);
    } else {
        lemma_stack_rows_index(imgs.drop_last(), i, j);
        assert(imgs.drop_last().take(i) =~= imgs.take(i));
        assert(imgs.drop_last()[i] == imgs[i]);
    }
}

/// Every row of a stack of equally wide images has `3 * w` samples.
pub proof fn lemma_stack_rows_width(imgs: Seq<SourceImage>, w: int)
    requires
        forall|t: int| 0 <= t < imgs.len() ==> (#[trigger] imgs[t]).wf() && imgs[t].width == w,
    ensures
        forall|r: int|
            0 <= r < stack_rows(imgs).len() ==> (#[trigger] stack_rows(imgs)[r]).len() == 3 * w,
    decreases imgs.len(),
{
    if imgs.len() > 0 {
        assert(forall|t: int|
            0 <= t < imgs.len() - 1 ==> imgs.drop_last()[t] == #[trigger] imgs[t]);
        lemma_stack_rows_width(imgs.drop_last(), w);
        let last = imgs.last();
        assert(last.wf() && last.width == w);
        assert forall|j: int| 0 <= j < last.height implies (#[trigger] last.rows()[j]).len() == 3
            * w by {
            assert((j + 1) * (3 * w) <= last.height * (3 * w)) by (nonlinear_arith)
                requires
                    0 <= j < last.height,
                    0 <= w,
            ;
            assert(last.height * (3 * w) == 3 * w * last.height) by (nonlinear_arith);
            assert(0 <= j * (3 * w)) by (nonlinear_arith)
                requires
                    0 <= j,
                    0 <= w,
            ;
            assert((j + 1) * (3 * w) == j * (3 * w) + 3 * w) by (nonlinear_arith);
        }
        let prev = stack_rows(imgs.drop_last());
        let rs = stack_rows(imgs);
        assert(forall|r: int| 0 <= r < prev.len() ==> #[trigger] rs[r] == prev[r]);
        assert(forall|r: int|
            prev.len() <= r < rs.len() ==> #[trigger] rs[r] == last.rows()[r - prev.len()]);
    }
}

/// The logical raster formed by stacking source images top to bottom.
///
/// A well-formed canvas is only ever produced by the loader; its functions
/// require `wf()` rather than hiding the fields behind an opaque invariant,
/// so that tests and callers can build small canvases directly.
#[derive(Debug, Clone)]
pub struct Canvas {
    pub images: Vec<SourceImage>,
    /// `offsets[i]` is the canvas row at which image `i` starts; the final
    /// entry holds the total canvas height.
    pub offsets: Vec<usize>,
    pub width: usize,
}

impl View for Canvas {
    type V = Seq<Seq<u8>>;

    open spec fn view(&self) -> Seq<Seq<u8>> {
        stack_rows(self.images@)
    }
}

impl Canvas {
    pub open spec fn wf(self) -> bool {
        &&& 1 <= self.width
        &&& 1 <= self.images@.len()
        &&& forall|i: int|
            0 <= i < self.images@.len() ==> (#[trigger] self.images@[i]).wf()
                && self.images@[i].width == self.width
        &&& self.offsets@.len() == self.images@.len() + 1
        &&& forall|i: int|
            0 <= i <= self.images@.len() ==> #[trigger] self.offsets@[i] == stack_height(
                self.images@.take(i),
            )
    }

    /// Total canvas height in pixel rows.
    pub fn height(&self) -> (h: usize)
        requires
            self.wf(),
        ensures
            h == self@.len(),
    {
        proof {
            lemma_stack_rows_len(self.images@);
            assert(self.images@.take(self.images@.len() as int) =~= self.images@);
        }
        self.offsets[self.offsets.len() - 1]
    }

    /// Canvas width in pixels.
    pub fn width(&self) -> (w: usize)
        ensures
            w == self.width,
    {
        self.width
    }

    /// Maps a canvas row to `(image index, local row)` by binary search over
    /// the cumulative-offset table.
    pub fn locate(&self, r: usize) -> (loc: (usize, usize))
        requires
            self.wf(),
            r < self@.len(),
        ensures
            loc.0 < self.images@.len(),
            loc.1 < self.images@[loc.0 as int].height,
            r == stack_height(self.images@.take(loc.0 as int)) + loc.1,
            self@[r as int] == self.images@[loc.0 as int].row(loc.1 as int),
    {
        proof {
            lemma_stack_rows_len(self.images@);
            assert(self.images@.take(self.images@.len() as int) =~= self.images@);
            assert(self.images@.take(0) =~= Seq::<SourceImage>::empty());
        }
        let mut lo: usize = 0;
        let mut hi: usize = self.images.len();
        while hi - lo > 1
            invariant
                lo < hi <= self.images@.len(),
                self.offsets@[lo as int] <= r < self.offsets@[hi as int],
            decreases hi - lo,
        {
            let mid = lo + (hi - lo) / 2;
            if self.offsets[mid] <= r {
                lo = mid;
            } else {
                hi = mid;
            }
        }
        let j = r - self.offsets[lo];
        proof {
            lemma_stack_height_step(self.images@, lo as int);
            lemma_stack_rows_index(self.images@, lo as int, j as int);
        }
        (lo, j)
    }
}

} // verus!
