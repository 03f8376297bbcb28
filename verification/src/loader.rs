//! The canvas loader: turns the raw bytes of an ordered list of image files
//! into a well-formed [`Canvas`], decoding each file independently and
//! rescaling to a target width when one is given.

use vstd::prelude::*;
use crate::canvas::{Canvas, SourceImage, stack_height};

verus! {

/// One input file: its path, kept for error reporting, and its raw contents.
pub struct InputFile {
    pub path: String,
    pub bytes: Vec<u8>,
}

/// Why a load failed.
#[derive(Debug, Clone, PartialEq, Eq)]
pub enum LoadError {
    /// No file yielded a usable image.
    EmptyInput,
    /// A file could not be decoded into a usable image.
    DecodeFailure { path: String },
    /// Without a target width, every image must share the first one's width.
    WidthMismatch { expected: usize, found: usize, path: String },
}

/// The error a load specification produces, over mathematical values.
pub enum SpecLoadError {
    Empty,
    Decode(Seq<char>),
    Width(int, int, Seq<char>),
}

/// Whether an executable load error reports the specified failure.
pub open spec fn load_error_matches(e: LoadError, s: SpecLoadError) -> bool {
    match (e, s) {
        (LoadError::EmptyInput, SpecLoadError::Empty) => true,
        (LoadError::DecodeFailure { path }, SpecLoadError::Decode(p)) => path@ == p,
        (
            LoadError::WidthMismatch { expected, found, path },
            SpecLoadError::Width(e_w, f_w, p),
        ) => expected == e_w && found == f_w && path@ == p,
        _ => false,
    }
}

/// What `image::load_from_memory` followed by `DynamicImage::to_rgb8` yields
/// for given file bytes: width, height and RGB samples, or `None` when the
/// bytes decode as no supported image. Decoding depends on the bytes alone.
pub uninterp spec fn decoded_of(bytes: Seq<u8>) -> Option<(u32, u32, Seq<u8>)>;

/// What `image::imageops::resize` yields for a raster and a pair of target
/// dimensions. Resampling depends on its arguments alone.
pub uninterp spec fn resized_of(samples: Seq<u8>, w: u32, h: u32, nw: u32, nh: u32) -> Seq<u8>;

/// Relies on `image::load_from_memory` and `DynamicImage::to_rgb8`: decodes
/// one image file held in memory, converting to RGB with one byte per
/// channel. A decoded `ImageBuffer` holds exactly `width * height` pixels of
/// three samples each, and decoding is a pure function of the bytes.
#[verifier::external_body]
fn decode_image(bytes: &Vec<u8>) -> (r: Option<(u32, u32, Vec<u8>)>)
    ensures
        match r {
            Some(d) => decoded_of(bytes@) == Some((d.0, d.1, d.2@)) && d.2@.len() == 3 * (
            d.0 as int) * (d.1 as int),
            None => decoded_of(bytes@) is None,
        },
{
    match image::load_from_memory(bytes) {
        Ok(img) => {
            let rgb = img.to_rgb8();
            let (w, h) = rgb.dimensions();
            Some((w, h, rgb.into_raw()))
        },
        Err(_) => None,
    }
}

/// Relies on `image::imageops::resize` with the Lanczos3 filter: resamples a
/// raster to exactly the requested dimensions, so the result holds exactly
/// `3 * nw * nh` samples; resampling is a pure function of its arguments.
/// The resampler first builds a four-channel float intermediate of the old
/// width and the new height, so that buffer's `4 * w * nh` samples must be
/// addressable too, as must the output's `3 * nw * nh`.
#[verifier::external_body]
fn resize_image(samples: &Vec<u8>, w: u32, h: u32, nw: u32, nh: u32) -> (r: Vec<u8>)
    requires
        1 <= w,
        1 <= h,
        1 <= nw,
        1 <= nh,
        samples@.len() == 3 * (w as int) * (h as int),
        3 * (nw as int) * (nh as int) <= usize::MAX,
        4 * (w as int) * (nh as int) <= usize::MAX,
    ensures
        r@ == resized_of(samples@, w, h, nw, nh),
        r@.len() == 3 * (nw as int) * (nh as int),
{
    let img: image::RgbImage = image::ImageBuffer::from_raw(w, h, samples.clone()).expect(
        "sample buffer matches the dimensions",
    );
    image::imageops::resize(&img, nw, nh, image::imageops::FilterType::Lanczos3).into_raw()
}

/// Aspect-preserving height for a rescale to width `tw`, at least one row.
pub open spec fn spec_new_height(w: u32, h: u32, tw: u32) -> int {
    let nh = (h as int) * (tw as int) / (w as int);
    if nh < 1 {
        1
    } else {
        nh
    }
}

/// The rescale step of one decoded image: identity when the width already
/// matches, `None` when the scaled raster, or the resampler's intermediate
/// buffer, cannot be addressed.
pub open spec fn spec_rescaled(w: u32, h: u32, px: Seq<u8>, tw: u32) -> Option<
    (int, int, Seq<u8>),
> {
    if w == tw {
        Some((w as int, h as int, px))
    } else {
        let nh = spec_new_height(w, h, tw);
        if nh > u32::MAX || 3 * (tw as int) * nh > usize::MAX || 4 * (w as int) * nh
            > usize::MAX {
            None
        } else {
            Some((tw as int, nh, resized_of(px, w, h, tw, nh as u32)))
        }
    }
}

/// The image one file contributes: decoded, checked for usable dimensions,
/// and rescaled to the target width when one is given. `None` marks the file
/// unusable.
pub open spec fn spec_file_image(bytes: Seq<u8>, target: Option<u32>) -> Option<
    (int, int, Seq<u8>),
> {
    match decoded_of(bytes) {
        None => None,
        Some(d) => {
            if d.0 < 1 || d.1 < 1 || d.2.len() != 3 * (d.0 as int) * (d.1 as int) {
                None
            } else {
                match target {
                    None => Some((d.0 as int, d.1 as int, d.2)),
                    Some(tw) => spec_rescaled(d.0, d.1, d.2, tw),
                }
            }
        },
    }
}

/// The images that survive loading the remaining `files` in order, or the
/// first error. `acc` holds the images loaded so far, `expected` the width
/// every further image must match, and `total` the canvas height so far; an
/// image that would push the total height beyond `usize::MAX` is treated as
/// unusable.
pub open spec fn spec_load_from(
    files: Seq<(Seq<char>, Seq<u8>)>,
    target: Option<u32>,
    ignore: bool,
    acc: Seq<(int, int, Seq<u8>)>,
    expected: Option<int>,
    total: int,
) -> Result<Seq<(int, int, Seq<u8>)>, SpecLoadError>
    decreases files.len(),
{
    if files.len() == 0 {
        if acc.len() == 0 {
            Err(SpecLoadError::Empty)
        } else {
            Ok(acc)
        }
    } else {
        let path = files[0].0;
        match spec_file_image(files[0].1, target) {
            None => if ignore {
                spec_load_from(files.skip(1), target, ignore, acc, expected, total)
            } else {
                Err(SpecLoadError::Decode(path))
            },
            Some(img) => {
                let mismatch = match expected {
                    Some(e_w) => img.0 != e_w,
                    None => false,
                };
                if mismatch {
                    Err(
                        SpecLoadError::Width(
                            match expected {
                                Some(e_w) => e_w,
                                None => 0,
                            },
                            img.0,
                            path,
                        ),
                    )
                } else if total + img.1 > usize::MAX {
                    if ignore {
                        spec_load_from(files.skip(1), target, ignore, acc, expected, total)
                    } else {
                        Err(SpecLoadError::Decode(path))
                    }
                } else {
                    spec_load_from(
                        files.skip(1),
                        target,
                        ignore,
                        acc.push(img),
                        Some(img.0),
                        total + img.1,
                    )
                }
            },
        }
    }
}

/// The whole-load specification, starting from nothing.
pub open spec fn spec_load(
    files: Seq<(Seq<char>, Seq<u8>)>,
    target: Option<u32>,
    ignore: bool,
) -> Result<Seq<(int, int, Seq<u8>)>, SpecLoadError> {
    spec_load_from(files, target, ignore, Seq::empty(), None, 0)
}

/// The mathematical content of a stack of source images.
pub open spec fn images_view(imgs: Seq<SourceImage>) -> Seq<(int, int, Seq<u8>)> {
    imgs.map_values(|img: SourceImage| (img.width as int, img.height as int, img.samples@))
}

/// The view of one input file: its path and its bytes.
pub open spec fn file_view(f: InputFile) -> (Seq<char>, Seq<u8>) {
    (f.path@, f.bytes@)
}

/// Decodes one file and rescales it to the target width; `None` when the
/// file is unusable.
fn load_one(bytes: &Vec<u8>, target_width: Option<u32>) -> (r: Option<SourceImage>)
    requires
        match target_width {
            Some(tw) => 1 <= tw,
            None => true,
        },
    ensures
        match r {
            Some(img) => img.wf() && spec_file_image(bytes@, target_width) == Some(
                (img.width as int, img.height as int, img.samples@),
            ) && (match target_width {
                Some(tw) => img.width == tw,
                None => true,
            }),
            None => spec_file_image(bytes@, target_width) is None,
        },
{
    match decode_image(bytes) {
        None => None,
        Some((w, h, px)) => {
            if w < 1 || h < 1 {
                return None;
            }
            match target_width {
                None => Some(SourceImage { width: w as usize, height: h as usize, samples: px }),
                Some(tw) => {
                    if w == tw {
                        Some(
                            SourceImage { width: w as usize, height: h as usize, samples: px },
                        )
                    } else {
                        proof {
                            assert((h as u64) * (tw as u64) <= 0xFFFF_FFFF * 0xFFFF_FFFF)
                                by (nonlinear_arith)
                                requires
                                    h <= u32::MAX,
                                    tw <= u32::MAX,
                            ;
                        }
                        let raw: u64 = ((h as u64) * (tw as u64)) / (w as u64);
                        let nh64: u64 = if raw < 1 {
                            1
                        } else {
                            raw
                        };
                        if nh64 > u32::MAX as u64 {
                            return None;
                        }
                        let nh: u32 = nh64 as u32;
                        proof {
                            assert(3 * (tw as u128) * (nh as u128) <= 3 * 0xFFFF_FFFF
                                * 0xFFFF_FFFF && 4 * (w as u128) * (nh as u128) <= 4
                                * 0xFFFF_FFFF * 0xFFFF_FFFF) by (nonlinear_arith)
                                requires
                                    tw <= u32::MAX,
                                    nh <= u32::MAX,
                                    w <= u32::MAX,
                            ;
                        }
                        let need: u128 = 3 * (tw as u128) * (nh as u128);
                        if need > usize::MAX as u128 {
                            return None;
                        }
                        let mid: u128 = 4 * (w as u128) * (nh as u128);
                        if mid > usize::MAX as u128 {
                            return None;
                        }
                        let samples = resize_image(&px, w, h, tw, nh);
                        Some(
                            SourceImage {
                                width: tw as usize,
                                height: nh as usize,
                                samples,
                            },
                        )
                    }
                },
            }
        },
    }
}

/// Loads an ordered list of image files into a canvas.
///
/// Each file is decoded independently. An unusable file is skipped when
/// `ignore_unloadable` is set, else the load aborts naming its path. With a
/// target width every image is rescaled to it, preserving aspect ratio;
/// without one, every image must already share the first image's width. The
/// outcome is exactly `spec_load` over the files' bytes.
pub fn load(files: Vec<InputFile>, target_width: Option<u32>, ignore_unloadable: bool) -> (r:
    Result<Canvas, LoadError>)
    requires
        match target_width {
            Some(tw) => 1 <= tw,
            None => true,
        },
    ensures
        ({
            let outcome = spec_load(
                files@.map_values(|f: InputFile| file_view(f)),
                target_width,
                ignore_unloadable,
            );
            match (r, outcome) {
                (Ok(canvas), Ok(images)) => {
                    &&& canvas.wf()
                    &&& images_view(canvas.images@) == images
                    &&& canvas.width as int == images[0].0
                    &&& match target_width {
                        Some(tw) => canvas.width == tw,
                        None => true,
                    }
                },
                (Err(e), Err(se)) => load_error_matches(e, se),
                _ => false,
            }
        }),
{
    let ghost gfiles = files@.map_values(|f: InputFile| file_view(f));
    let n = files.len();
    let mut images: Vec<SourceImage> = Vec::new();
    let mut offsets: Vec<usize> = Vec::new();
    offsets.push(0);
    let mut total: usize = 0;
    let mut width: usize = 0;
    let mut i: usize = 0;
    proof {
        assert(gfiles.skip(0) =~= gfiles);
        assert(images@.take(0) =~= images@);
        assert(images_view(images@) =~= Seq::<(int, int, Seq<u8>)>::empty());
    }
    while i < n
        invariant
            i <= n,
            n == files@.len(),
            gfiles == files@.map_values(|f: InputFile| file_view(f)),
            offsets@.len() == images@.len() + 1,
            forall|t: int|
                0 <= t <= images@.len() ==> #[trigger] offsets@[t] == stack_height(
                    images@.take(t),
                ),
            total == stack_height(images@),
            forall|t: int|
                0 <= t < images@.len() ==> (#[trigger] images@[t]).wf() && images@[t].width
                    == width,
            images@.len() > 0 ==> 1 <= width,
            match target_width {
                Some(tw) => images@.len() > 0 ==> width == tw,
                None => true,
            },
            spec_load(gfiles, target_width, ignore_unloadable) == spec_load_from(
                gfiles.skip(i as int),
                target_width,
                ignore_unloadable,
                images_view(images@),
                if images@.len() == 0 {
                    None
                } else {
                    Some(width as int)
                },
                total as int,
            ),
        decreases n - i,
    {
        let ghost pre = gfiles.skip(i as int);
        proof {
            assert(pre[0] == gfiles[i as int]);
            assert(gfiles[i as int] == file_view(files@[i as int]));
            assert(pre.skip(1) =~= gfiles.skip(i + 1));
        }
        let file = &files[i];
        match load_one(&file.bytes, target_width) {
            None => {
                if !ignore_unloadable {
                    return Err(LoadError::DecodeFailure { path: file.path.clone() });
                }
            },
            Some(img) => {
                if images.len() > 0 && img.width != width {
                    return Err(
                        LoadError::WidthMismatch {
                            expected: width,
                            found: img.width,
                            path: file.path.clone(),
                        },
                    );
                }
                match total.checked_add(img.height) {
                    None => {
                        if !ignore_unloadable {
                            return Err(
                                LoadError::DecodeFailure { path: file.path.clone() },
                            );
                        }
                    },
                    Some(nt) => {
                        let ghost old_images = images@;
                        let ghost entry = (
                            img.width as int,
                            img.height as int,
                            img.samples@,
                        );
                        width = img.width;
                        images.push(img);
                        total = nt;
                        offsets.push(nt);
                        proof {
                            assert(images@.drop_last() =~= old_images);
                            assert(images@.take(images@.len() as int) =~= images@);
                            assert(forall|t: int|
                                0 <= t <= old_images.len() ==> images@.take(t)
                                    =~= #[trigger] old_images.take(t));
                            assert(images_view(images@) =~= images_view(old_images).push(
                                entry,
                            ));
                        }
                    },
                }
            },
        }
        i = i + 1;
    }
    proof {
        assert(gfiles.skip(n as int) =~= Seq::<(Seq<char>, Seq<u8>)>::empty());
    }
    if images.len() == 0 {
        return Err(LoadError::EmptyInput);
    }
    let canvas = Canvas { images, offsets, width };
    proof {
        assert(images_view(canvas.images@)[0] == (canvas.images@[0].width as int,
            canvas.images@[0].height as int, canvas.images@[0].samples@));
    }
    Ok(canvas)
}

} // verus!
