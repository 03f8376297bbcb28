use quickstitch::loader::{load, InputFile, LoadError};

/// Encodes a small RGB image as PNG bytes; pixel (x, y) gets a value derived
/// from its coordinates so that reordered or altered pixels are caught.
fn png_bytes(width: u32, height: u32) -> Vec<u8> {
    let img = image::RgbImage::from_fn(width, height, |x, y| {
        image::Rgb([(x * 40 + 3) as u8, (y * 25 + 7) as u8, ((x + y) * 11) as u8])
    });
    let mut out = Vec::new();
    let enc = image::codecs::png::PngEncoder::new(std::io::Cursor::new(&mut out));
    image::ImageEncoder::write_image(
        enc,
        img.as_raw(),
        width,
        height,
        image::ExtendedColorType::Rgb8,
    )
    .unwrap();
    out
}

fn input(path: &str, bytes: Vec<u8>) -> InputFile {
    InputFile { path: path.to_string(), bytes }
}

#[test]
fn load_single_image() {
    let canvas = load(vec![input("a.png", png_bytes(4, 6))], None, false).unwrap();
    assert_eq!(canvas.width, 4);
    assert_eq!(canvas.images.len(), 1);
    assert_eq!(canvas.images[0].width, 4);
    assert_eq!(canvas.images[0].height, 6);
    let expected = image::RgbImage::from_fn(4, 6, |x, y| {
        image::Rgb([(x * 40 + 3) as u8, (y * 25 + 7) as u8, ((x + y) * 11) as u8])
    });
    assert_eq!(&canvas.images[0].samples, expected.as_raw());
    assert_eq!(canvas.offsets, vec![0, 6]);
}

#[test]
fn load_empty_input() {
    let r = load(vec![], None, false);
    assert_eq!(r.unwrap_err(), LoadError::EmptyInput);
}

#[test]
fn decode_failure_aborts() {
    let files = vec![
        input("ok.png", png_bytes(4, 4)),
        input("broken.png", vec![1, 2, 3, 4]),
    ];
    let r = load(files, None, false);
    assert_eq!(r.unwrap_err(), LoadError::DecodeFailure { path: "broken.png".to_string() });
}

#[test]
fn decode_failure_skipped_when_ignored() {
    let files = vec![
        input("broken.png", vec![9, 9, 9]),
        input("ok.png", png_bytes(4, 5)),
    ];
    let canvas = load(files, None, true).unwrap();
    assert_eq!(canvas.images.len(), 1);
    assert_eq!(canvas.images[0].height, 5);
}

#[test]
fn all_files_unloadable_is_empty_input() {
    let files = vec![input("a", vec![0]), input("b", vec![1])];
    let r = load(files, None, true);
    assert_eq!(r.unwrap_err(), LoadError::EmptyInput);
}

#[test]
fn width_mismatch_names_the_offender() {
    let files = vec![
        input("first.png", png_bytes(4, 4)),
        input("second.png", png_bytes(5, 4)),
    ];
    let r = load(files, None, false);
    assert_eq!(
        r.unwrap_err(),
        LoadError::WidthMismatch { expected: 4, found: 5, path: "second.png".to_string() }
    );
}

#[test]
fn rescales_to_target_width() {
    // An 8x4 image rescaled to width 4 keeps its aspect ratio: height 2.
    let canvas = load(vec![input("wide.png", png_bytes(8, 4))], Some(4), false).unwrap();
    assert_eq!(canvas.width, 4);
    assert_eq!(canvas.images[0].width, 4);
    assert_eq!(canvas.images[0].height, 2);
    assert_eq!(canvas.images[0].samples.len(), 3 * 4 * 2);
}

#[test]
fn matching_target_width_keeps_pixels() {
    let canvas = load(vec![input("a.png", png_bytes(4, 6))], Some(4), false).unwrap();
    let expected = image::RgbImage::from_fn(4, 6, |x, y| {
        image::Rgb([(x * 40 + 3) as u8, (y * 25 + 7) as u8, ((x + y) * 11) as u8])
    });
    assert_eq!(&canvas.images[0].samples, expected.as_raw());
}

#[test]
fn mixed_widths_unify_under_target() {
    let files = vec![
        input("a.png", png_bytes(4, 4)),
        input("b.png", png_bytes(8, 4)),
    ];
    let canvas = load(files, Some(4), false).unwrap();
    assert_eq!(canvas.images.len(), 2);
    assert_eq!(canvas.images[0].height, 4);
    assert_eq!(canvas.images[1].height, 2);
    assert_eq!(canvas.offsets, vec![0, 4, 6]);
}
