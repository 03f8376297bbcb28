//! The segment exporter: encodes each assembled segment independently in the
//! requested format, so that one segment's failure never disturbs its
//! siblings, and names the outputs by zero-padded sequence index.

use vstd::prelude::*;
use crate::canvas::Canvas;
use crate::selector::{Splitpoint, SplitpointKind, committed_offsets, select, select_from, lemma_select_fits_export, ConfigurationError};
use crate::assembler::{assemble_segment, segment_view};
use crate::numeric::dec_bytes;

verus! {

/// The encoding of the output images: lossless PNG, lossy WebP without a
/// quality knob, or JPEG with an explicit quality from 1 to 100. `Jpg` and
/// `Jpeg` differ only in the file extension they produce.
#[derive(Clone, Copy, Debug, PartialEq, Eq, Structural)]
pub enum ImageOutputFormat {
    Png,
    Webp,
    Jpg(u8),
    Jpeg(u8),
}

/// Why one segment failed to reach its file.
#[derive(Clone, Copy, Debug, PartialEq, Eq, Structural)]
pub enum ExportCause {
    /// The encoder rejected the segment (e.g. it exceeds the format's
    /// dimension limit).
    Encode,
    /// The encoded bytes could not be written out.
    Write,
}

/// One segment's failure: its index and the cause.
#[derive(Clone, Copy, Debug, PartialEq, Eq, Structural)]
pub struct ExportError {
    pub index: usize,
    pub cause: ExportCause,
}

/// What `PngEncoder::write_image` yields for one RGB8 raster: the PNG
/// bytes, or the encoder's refusal. Encoding depends on its arguments alone.
pub uninterp spec fn png_encoding_of(w: int, h: int, samples: Seq<u8>) -> Result<Seq<u8>, ()>;

/// What `JpegEncoder::new_with_quality` followed by `write_image` yields for
/// one RGB8 raster at a quality. Encoding depends on its arguments alone.
pub uninterp spec fn jpeg_encoding_of(w: int, h: int, samples: Seq<u8>, quality: u8) -> Result<
    Seq<u8>,
    (),
>;

/// What `WebPEncoder::new_lossless` followed by `encode` yields for one RGB8
/// raster. Encoding depends on its arguments alone.
pub uninterp spec fn webp_encoding_of(w: int, h: int, samples: Seq<u8>) -> Result<Seq<u8>, ()>;

/// The mathematical content of an encoder outcome.
pub open spec fn encode_view(r: Result<Vec<u8>, ()>) -> Result<Seq<u8>, ()> {
    match r {
        Ok(bytes) => Ok(bytes@),
        Err(e) => Err(e),
    }
}

/// The mathematical content of one segment's outcome.
pub open spec fn outcome_view(r: Result<Vec<u8>, ExportCause>) -> Result<Seq<u8>, ExportCause> {
    match r {
        Ok(bytes) => Ok(bytes@),
        Err(c) => Err(c),
    }
}

/// Relies on `image::codecs::png::PngEncoder::write_image`: encodes one RGB8
/// raster as PNG into an in-memory buffer. The encoder asserts that the
/// buffer holds exactly `3 * width * height` bytes.
#[verifier::external_body]
fn encode_png(width: u32, height: u32, samples: &Vec<u8>) -> (r: Result<Vec<u8>, ()>)
    requires
        samples@.len() == 3 * (width as int) * (height as int),
    ensures
        encode_view(r) == png_encoding_of(width as int, height as int, samples@),
{
    let mut out: Vec<u8> = Vec::new();
    let enc = image::codecs::png::PngEncoder::new(std::io::Cursor::new(&mut out));
    match image::ImageEncoder::write_image(
        enc,
        samples,
        width,
        height,
        image::ExtendedColorType::Rgb8,
    ) {
        Ok(()) => Ok(out),
        Err(_) => Err(()),
    }
}

/// Relies on `image::codecs::jpeg::JpegEncoder::new_with_quality` and its
/// `write_image`: encodes one RGB8 raster as JPEG. The encoder asserts the
/// exact buffer length and rejects dimensions above 65535.
#[verifier::external_body]
fn encode_jpeg(width: u32, height: u32, samples: &Vec<u8>, quality: u8) -> (r: Result<
    Vec<u8>,
    (),
>)
    requires
        samples@.len() == 3 * (width as int) * (height as int),
    ensures
        encode_view(r) == jpeg_encoding_of(width as int, height as int, samples@, quality),
{
    let mut out: Vec<u8> = Vec::new();
    let enc = image::codecs::jpeg::JpegEncoder::new_with_quality(
        std::io::Cursor::new(&mut out),
        quality,
    );
    match image::ImageEncoder::write_image(
        enc,
        samples,
        width,
        height,
        image::ExtendedColorType::Rgb8,
    ) {
        Ok(()) => Ok(out),
        Err(_) => Err(()),
    }
}

/// Relies on `image::codecs::webp::WebPEncoder::new_lossless` and its
/// `encode`: encodes one RGB8 raster as lossless WebP. The encoder asserts
/// the exact buffer length and rejects dimensions above 16384.
#[verifier::external_body]
fn encode_webp(width: u32, height: u32, samples: &Vec<u8>) -> (r: Result<Vec<u8>, ()>)
    requires
        samples@.len() == 3 * (width as int) * (height as int),
    ensures
        encode_view(r) == webp_encoding_of(width as int, height as int, samples@),
{
    let mut out: Vec<u8> = Vec::new();
    let enc = image::codecs::webp::WebPEncoder::new_lossless(std::io::Cursor::new(&mut out));
    match enc.encode(samples, width, height, image::ExtendedColorType::Rgb8) {
        Ok(()) => Ok(out),
        Err(_) => Err(()),
    }
}

/// The outcome of encoding one raster in a format: the named encoding where
/// the dimensions fit the encoders' types, `Encode` otherwise.
pub open spec fn spec_encode(
    w: int,
    h: int,
    samples: Seq<u8>,
    format: ImageOutputFormat,
) -> Result<Seq<u8>, ExportCause> {
    let outcome = if w > u32::MAX || h > u32::MAX {
        Err(())
    } else {
        match format {
            ImageOutputFormat::Png => png_encoding_of(w, h, samples),
            ImageOutputFormat::Webp => webp_encoding_of(w, h, samples),
            ImageOutputFormat::Jpg(q) => jpeg_encoding_of(w, h, samples, q),
            ImageOutputFormat::Jpeg(q) => jpeg_encoding_of(w, h, samples, q),
        }
    };
    match outcome {
        Ok(bytes) => Ok(bytes),
        Err(e) => Err(ExportCause::Encode),
    }
}

/// Encodes one raster in the requested format, yielding exactly the named
/// encoding of its arguments.
fn encode_raster(
    width: usize,
    height: usize,
    samples: &Vec<u8>,
    format: ImageOutputFormat,
) -> (r: Result<Vec<u8>, ExportCause>)
    requires
        samples@.len() == 3 * (width as int) * (height as int),
    ensures
        outcome_view(r) == spec_encode(width as int, height as int, samples@, format),
        r is Err ==> r == Err::<Vec<u8>, ExportCause>(ExportCause::Encode),
{
    if width > u32::MAX as usize || height > u32::MAX as usize {
        return Err(ExportCause::Encode);
    }
    let w = width as u32;
    let h = height as u32;
    let outcome = match format {
        ImageOutputFormat::Png => encode_png(w, h, samples),
        ImageOutputFormat::Webp => encode_webp(w, h, samples),
        ImageOutputFormat::Jpg(q) => encode_jpeg(w, h, samples, q),
        ImageOutputFormat::Jpeg(q) => encode_jpeg(w, h, samples, q),
    };
    match outcome {
        Ok(bytes) => Ok(bytes),
        Err(()) => Err(ExportCause::Encode),
    }
}

/// The derived boundaries as values: the synthetic start `0`, every
/// committed cut in order, and the synthetic end at `height`.
pub open spec fn spec_bounds(sps: Seq<Splitpoint>, height: int) -> Seq<int> {
    seq![0] + committed_offsets(sps) + seq![height]
}

/// Segment `t`'s encoding: its raster between boundaries `t` and `t + 1`,
/// at the canvas width `w` and the segment's height, in the requested
/// format.
pub open spec fn spec_segment_encoding(
    c: Seq<Seq<u8>>,
    w: int,
    sps: Seq<Splitpoint>,
    format: ImageOutputFormat,
    debug: bool,
    t: int,
) -> Result<Seq<u8>, ExportCause> {
    let bs = spec_bounds(sps, c.len() as int);
    spec_encode(
        w,
        bs[t + 1] - bs[t],
        segment_view(c, 3 * w, sps, bs[t], bs[t + 1], debug),
        format,
    )
}

/// The derived segment boundaries: the synthetic start `0`, every committed
/// cut in order, and the synthetic end at the canvas height.
pub fn segment_bounds(splitpoints: &Vec<Splitpoint>, height: usize) -> (bs: Vec<usize>)
    ensures
        bs@.map_values(|v: usize| v as int) == spec_bounds(splitpoints@, height as int),
{
    let mut bs: Vec<usize> = Vec::new();
    bs.push(0);
    proof {
        assert(bs@.map_values(|v: usize| v as int) =~= seq![0int] + committed_offsets(
            splitpoints@.take(0),
        ));
    }
    let mut t: usize = 0;
    while t < splitpoints.len()
        invariant
            t <= splitpoints@.len(),
            bs@.map_values(|v: usize| v as int) == seq![0int] + committed_offsets(
                splitpoints@.take(t as int),
            ),
        decreases splitpoints@.len() - t,
    {
        let sp = splitpoints[t];
        proof {
            assert(splitpoints@.take(t + 1).drop_last() =~= splitpoints@.take(t as int));
            assert(splitpoints@.take(t + 1).last() == sp);
        }
        let ghost prev = bs@;
        match sp.kind {
            SplitpointKind::Skipped => {
                proof {
                    assert(committed_offsets(splitpoints@.take(t + 1)) == committed_offsets(
                        splitpoints@.take(t as int),
                    ) + Seq::<int>::empty());
                    assert(bs@.map_values(|v: usize| v as int) =~= seq![0int]
                        + committed_offsets(splitpoints@.take(t + 1)));
                }
            },
            _ => {
                bs.push(sp.offset);
                proof {
                    assert(committed_offsets(splitpoints@.take(t + 1)) == committed_offsets(
                        splitpoints@.take(t as int),
                    ) + seq![sp.offset as int]);
                    assert(bs@ == prev.push(sp.offset));
                    assert(bs@.map_values(|v: usize| v as int) =~= prev.map_values(
                        |v: usize| v as int,
                    ).push(sp.offset as int));
                    assert(bs@.map_values(|v: usize| v as int) =~= seq![0int]
                        + committed_offsets(splitpoints@.take(t + 1)));
                }
            },
        }
        t = t + 1;
    }
    proof {
        assert(splitpoints@.take(splitpoints@.len() as int) =~= splitpoints@);
    }
    bs.push(height);
    proof {
        assert(bs@.map_values(|v: usize| v as int) =~= seq![0int] + committed_offsets(
            splitpoints@,
        ) + seq![height as int]);
    }
    bs
}

/// Crops and encodes every segment independently: entry `t` of the result
/// is exactly the named encoding of segment `t`'s raster, or its failure. A
/// failing segment never disturbs its siblings, which are all still
/// attempted.
pub fn export(
    canvas: &Canvas,
    splitpoints: &Vec<Splitpoint>,
    format: ImageOutputFormat,
    debug: bool,
) -> (out: Vec<Result<Vec<u8>, ExportCause>>)
    requires
        canvas.wf(),
        ({
            let cs = committed_offsets(splitpoints@);
            &&& forall|t: int| 0 <= t < cs.len() ==> 0 <= #[trigger] cs[t] <= canvas@.len()
            &&& forall|t1: int, t2: int|
                0 <= t1 < t2 < cs.len() ==> #[trigger] cs[t1] <= #[trigger] cs[t2]
        }),
    ensures
        out@.len() == committed_offsets(splitpoints@).len() + 1,
        forall|t: int|
            0 <= t < out@.len() ==> outcome_view(#[trigger] out@[t]) == spec_segment_encoding(
                canvas@,
                canvas.width as int,
                splitpoints@,
                format,
                debug,
                t,
            ),
        forall|t: int|
            0 <= t < out@.len() && (#[trigger] out@[t]) is Err ==> out@[t] == Err::<
                Vec<u8>,
                ExportCause,
            >(ExportCause::Encode),
{
    let ghost cs = committed_offsets(splitpoints@);
    let h = canvas.height();
    let bs = segment_bounds(splitpoints, h);
    let ghost gbs = bs@.map_values(|v: usize| v as int);
    let mut out: Vec<Result<Vec<u8>, ExportCause>> = Vec::new();
    let mut t: usize = 0;
    proof {
        assert(gbs.len() == cs.len() + 2);
        assert(gbs[0] == 0);
        assert(gbs[gbs.len() - 1] == h as int);
        assert(forall|i: int| 0 <= i < cs.len() ==> gbs[i + 1] == #[trigger] cs[i]);
    }
    let nseg = bs.len() - 1;
    while t < nseg
        invariant
            nseg == bs@.len() - 1,
            t <= nseg,
            out@.len() == t,
            forall|i: int|
                0 <= i < out@.len() ==> outcome_view(#[trigger] out@[i])
                    == spec_segment_encoding(
                    canvas@,
                    canvas.width as int,
                    splitpoints@,
                    format,
                    debug,
                    i,
                ),
            forall|i: int|
                0 <= i < out@.len() && (#[trigger] out@[i]) is Err ==> out@[i] == Err::<
                    Vec<u8>,
                    ExportCause,
                >(ExportCause::Encode),
        decreases bs@.len() - t,
    {
        let start = bs[t];
        let end = bs[t + 1];
        proof {
            assert(gbs[t as int] == start && gbs[t + 1] == end);
            if t == 0 {
                if t + 2 < gbs.len() {
                    assert(gbs[1] == cs[0]);
                }
            } else if t + 2 == gbs.len() {
                assert(gbs[t as int] == cs[t - 1]);
            } else {
                assert(gbs[t as int] == cs[t - 1] && gbs[t + 1] == cs[t as int]);
            }
            assert(start <= end);
        }
        let seg = assemble_segment(canvas, splitpoints, start, end, debug);
        let w = canvas.width();
        proof {
            assert((end - start) * (3 * canvas.width) == 3 * (canvas.width as int) * ((end
                - start) as int)) by (nonlinear_arith);
        }
        let enc = encode_raster(w, end - start, &seg, format);
        proof {
            assert(outcome_view(enc) == spec_segment_encoding(
                canvas@,
                canvas.width as int,
                splitpoints@,
                format,
                debug,
                t as int,
            ));
        }
        out.push(enc);
        t = t + 1;
    }
    out
}

/// Selects the splitpoints and renders every segment in one step: the
/// single verified entry from a loaded canvas to its encoded pages.
pub fn stitch(
    canvas: &Canvas,
    max_height: usize,
    min_height: usize,
    scan_interval: usize,
    sensitivity: u8,
    format: ImageOutputFormat,
    debug: bool,
) -> (r: Result<(Vec<Splitpoint>, Vec<Result<Vec<u8>, ExportCause>>), ConfigurationError>)
    requires
        canvas.wf(),
    ensures
        match r {
            Ok(outcome) => {
                &&& min_height <= max_height
                &&& 1 <= scan_interval
                &&& 1 <= max_height
                &&& outcome.0@ == select_from(
                    canvas@,
                    max_height as int,
                    min_height as int,
                    scan_interval as int,
                    sensitivity,
                    0,
                )
                &&& outcome.1@.len() == committed_offsets(outcome.0@).len() + 1
                &&& forall|t: int|
                    0 <= t < outcome.1@.len() ==> outcome_view(#[trigger] outcome.1@[t])
                        == spec_segment_encoding(
                        canvas@,
                        canvas.width as int,
                        outcome.0@,
                        format,
                        debug,
                        t,
                    )
            },
            Err(e) => match e {
                ConfigurationError::MinAboveMax => min_height > max_height,
                ConfigurationError::ZeroInterval => min_height <= max_height && scan_interval
                    == 0,
                ConfigurationError::ZeroMaxHeight => min_height <= max_height && 1
                    <= scan_interval && max_height == 0,
            },
        },
{
    let splitpoints = match select(canvas, max_height, min_height, scan_interval, sensitivity) {
        Ok(splitpoints) => splitpoints,
        Err(e) => {
            return Err(e);
        },
    };
    let height = canvas.height();
    proof {
        assert(canvas@.len() == height);
        lemma_select_fits_export(
            canvas@,
            max_height as int,
            min_height as int,
            scan_interval as int,
            sensitivity,
        );
    }
    let results = export(canvas, &splitpoints, format, debug);
    Ok((splitpoints, results))
}

/// The export error list an outcome vector denotes: one entry per failed
/// segment, in segment order, carrying the segment's index and its cause.
pub open spec fn spec_errors(results: Seq<Result<Vec<u8>, ExportCause>>) -> Seq<ExportError>
    decreases results.len(),
{
    if results.len() == 0 {
        Seq::empty()
    } else {
        spec_errors(results.drop_last()) + match results.last() {
            Ok(_) => Seq::empty(),
            Err(cause) => seq![
                ExportError { index: (results.len() - 1) as usize, cause },
            ],
        }
    }
}

/// Collects the failures out of an export outcome: exactly the `Err`
/// entries, in order, each under its segment index.
pub fn collect_errors(results: &Vec<Result<Vec<u8>, ExportCause>>) -> (errs: Vec<ExportError>)
    ensures
        errs@ == spec_errors(results@),
{
    let mut errs: Vec<ExportError> = Vec::new();
    let mut t: usize = 0;
    proof {
        assert(errs@ =~= spec_errors(results@.take(0)));
    }
    while t < results.len()
        invariant
            t <= results@.len(),
            errs@ == spec_errors(results@.take(t as int)),
        decreases results@.len() - t,
    {
        proof {
            assert(results@.take(t + 1).drop_last() =~= results@.take(t as int));
            assert(results@.take(t + 1).last() == results@[t as int]);
        }
        match &results[t] {
            Ok(_) => {
            },
            Err(cause) => {
                errs.push(ExportError { index: t, cause: *cause });
            },
        }
        proof {
            assert(errs@ =~= spec_errors(results@.take(t + 1)));
        }
        t = t + 1;
    }
    proof {
        assert(results@.take(results@.len() as int) =~= results@);
    }
    errs
}

/// The file extension each format writes.
pub open spec fn spec_extension(format: ImageOutputFormat) -> Seq<u8> {
    match format {
        ImageOutputFormat::Png => seq![112u8, 110u8, 103u8],
        ImageOutputFormat::Webp => seq![119u8, 101u8, 98u8, 112u8],
        ImageOutputFormat::Jpg(_) => seq![106u8, 112u8, 103u8],
        ImageOutputFormat::Jpeg(_) => seq![106u8, 112u8, 101u8, 103u8],
    }
}

/// The digits of `n`, zero-padded to at least three places.
pub open spec fn spec_padded_index(n: int) -> Seq<u8> {
    if n < 10 {
        seq![48u8, 48u8] + dec_bytes(n)
    } else if n < 100 {
        seq![48u8] + dec_bytes(n)
    } else {
        dec_bytes(n)
    }
}

/// The name of output file `index`: its zero-padded index, a dot, and the
/// format's extension.
pub open spec fn spec_filename(index: int, format: ImageOutputFormat) -> Seq<char> {
    (spec_padded_index(index) + seq![46u8] + spec_extension(format)).map_values(
        |b: u8| b as char,
    )
}

/// Builds the output filename for segment `index`: a zero-padded sequential
/// index, independent of any filesystem order, plus the format's extension.
pub fn segment_filename(index: usize, format: ImageOutputFormat) -> (name: String)
    ensures
        name@ == spec_filename(index as int, format),
{
    let mut bytes = crate::numeric::digit_bytes(index);
    let mut padded: Vec<u8> = Vec::new();
    if index < 10 {
        padded.push(48);
        padded.push(48);
    } else if index < 100 {
        padded.push(48);
    }
    padded.append(&mut bytes);
    padded.push(46);
    match format {
        ImageOutputFormat::Png => {
            padded.push(112);
            padded.push(110);
            padded.push(103);
        },
        ImageOutputFormat::Webp => {
            padded.push(119);
            padded.push(101);
            padded.push(98);
            padded.push(112);
        },
        ImageOutputFormat::Jpg(_) => {
            padded.push(106);
            padded.push(112);
            padded.push(103);
        },
        ImageOutputFormat::Jpeg(_) => {
            padded.push(106);
            padded.push(112);
            padded.push(101);
            padded.push(103);
        },
    }
    proof {
        crate::numeric::lemma_dec_bytes_ascii(index as int);
        assert(padded@ =~= spec_padded_index(index as int) + seq![46u8] + spec_extension(
            format,
        ));
    }
    let name = crate::numeric::ascii_to_string(&padded);
    proof {
        assert(name@ =~= spec_filename(index as int, format));
    }
    name
}

} // verus!
