use quickstitch::canvas::{Canvas, SourceImage};
use quickstitch::exporter::{
    collect_errors, export, segment_filename, ExportCause, ExportError, ImageOutputFormat,
};
use quickstitch::assembler::assemble_segment;
use quickstitch::loader::{load, InputFile};
use quickstitch::selector::{select, Splitpoint, SplitpointKind};

fn png_bytes(width: u32, height: u32) -> Vec<u8> {
    let img = image::RgbImage::from_fn(width, height, |x, y| {
        image::Rgb([(x * 31 + 5) as u8, (y * 17 + 2) as u8, ((x * y) % 251) as u8])
    });
    let mut out = Vec::new();
    let enc = image::codecs::png::PngEncoder::new(std::io::Cursor::new(&mut out));
    image::ImageEncoder::write_image(
        enc,
        img.as_raw(),
        width,
        height,
        image::ExtendedColorType::Rgb8,
    )
    .unwrap();
    out
}

/// A one-pixel-wide canvas with flat gray rows exactly at `flat`.
fn noise_canvas_with_flat_rows(height: usize, flat: &[usize]) -> Canvas {
    let mut samples = Vec::with_capacity(3 * height);
    for r in 0..height {
        if flat.contains(&r) {
            samples.extend_from_slice(&[100, 100, 100]);
        } else {
            samples.extend_from_slice(&[0, 255, 0]);
        }
    }
    let image = SourceImage { width: 1, height, samples };
    Canvas { images: vec![image], offsets: vec![0, height], width: 1 }
}

#[test]
fn png_round_trip_single_segment() {
    // One source shorter than max_height, already at the target width:
    // exactly one output whose pixels survive the encode/decode round trip.
    let file = InputFile { path: "page.png".to_string(), bytes: png_bytes(4, 6) };
    let canvas = load(vec![file], Some(4), false).unwrap();
    let sps = select(&canvas, 100, 1, 1, 255).unwrap();
    assert!(sps.is_empty());
    let results = export(&canvas, &sps, ImageOutputFormat::Png, false);
    assert_eq!(results.len(), 1);
    let bytes = results[0].as_ref().unwrap();
    let decoded = image::load_from_memory(bytes).unwrap().to_rgb8();
    assert_eq!(decoded.dimensions(), (4, 6));
    assert_eq!(decoded.as_raw(), &canvas.images[0].samples);
    assert!(collect_errors(&results).is_empty());
}

#[test]
fn jpeg_export_produces_decodable_output() {
    let file = InputFile { path: "page.png".to_string(), bytes: png_bytes(8, 10) };
    let canvas = load(vec![file], None, false).unwrap();
    let sps = select(&canvas, 100, 1, 1, 255).unwrap();
    let results = export(&canvas, &sps, ImageOutputFormat::Jpg(90), false);
    assert_eq!(results.len(), 1);
    let decoded = image::load_from_memory(results[0].as_ref().unwrap())
        .unwrap()
        .to_rgb8();
    assert_eq!(decoded.dimensions(), (8, 10));
}

#[test]
fn partial_failure_reports_exactly_the_failing_segment() {
    // Five segments; the third is 17000 rows tall, beyond what the WebP
    // encoder accepts, so it alone fails while its siblings are written.
    let canvas = noise_canvas_with_flat_rows(52100, &[1000, 2000, 18000, 36000]);
    let sps = select(&canvas, 17000, 0, 1000, 255).unwrap();
    let committed: Vec<_> = sps
        .iter()
        .filter(|sp| sp.kind != SplitpointKind::Skipped)
        .map(|sp| (sp.offset, sp.kind))
        .collect();
    assert_eq!(
        committed,
        vec![
            (2000, SplitpointKind::Chosen),
            (18000, SplitpointKind::Chosen),
            (35000, SplitpointKind::Fallback),
            (36000, SplitpointKind::Chosen),
        ]
    );
    let results = export(&canvas, &sps, ImageOutputFormat::Webp, false);
    assert_eq!(results.len(), 5);
    for (i, r) in results.iter().enumerate() {
        assert_eq!(r.is_err(), i == 2, "segment {i}");
    }
    let errors = collect_errors(&results);
    assert_eq!(errors, vec![ExportError { index: 2, cause: ExportCause::Encode }]);
}

#[test]
fn debug_overlay_paints_marker_rows() {
    let canvas = noise_canvas_with_flat_rows(6, &[3]);
    let sps = vec![
        Splitpoint { offset: 2, kind: SplitpointKind::Skipped },
        Splitpoint { offset: 3, kind: SplitpointKind::Chosen },
    ];
    let seg = assemble_segment(&canvas, &sps, 0, 6, true);
    assert_eq!(seg.len(), 18);
    // Row 2 carries the skipped marker, row 3 the chosen marker.
    assert_eq!(&seg[6..9], &[173, 216, 230]);
    assert_eq!(&seg[9..12], &[255, 0, 0]);
    // Other rows keep their pixels.
    assert_eq!(&seg[0..3], &[0, 255, 0]);
    let plain = assemble_segment(&canvas, &sps, 0, 6, false);
    assert_eq!(&plain[9..12], &[100, 100, 100]);
}

#[test]
fn collect_errors_keeps_order_and_causes() {
    let results: Vec<Result<Vec<u8>, ExportCause>> = vec![
        Ok(vec![1]),
        Err(ExportCause::Encode),
        Ok(vec![2]),
        Err(ExportCause::Write),
    ];
    let errors = collect_errors(&results);
    assert_eq!(
        errors,
        vec![
            ExportError { index: 1, cause: ExportCause::Encode },
            ExportError { index: 3, cause: ExportCause::Write },
        ]
    );
}

#[test]
fn filenames_are_zero_padded_with_format_extension() {
    assert_eq!(segment_filename(0, ImageOutputFormat::Png), "000.png");
    assert_eq!(segment_filename(7, ImageOutputFormat::Jpg(80)), "007.jpg");
    assert_eq!(segment_filename(42, ImageOutputFormat::Webp), "042.webp");
    assert_eq!(segment_filename(123, ImageOutputFormat::Jpeg(1)), "123.jpeg");
    assert_eq!(segment_filename(4096, ImageOutputFormat::Png), "4096.png");
}

#[test]
fn stitch_composes_selection_and_export() {
    let canvas = noise_canvas_with_flat_rows(25, &[10]);
    let (sps, results) = quickstitch::exporter::stitch(
        &canvas,
        20,
        1,
        1,
        255,
        ImageOutputFormat::Png,
        false,
    )
    .unwrap();
    assert_eq!(sps, select(&canvas, 20, 1, 1, 255).unwrap());
    assert_eq!(results.len(), 2);
    assert!(results.iter().all(|r| r.is_ok()));
}
