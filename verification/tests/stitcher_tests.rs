use quickstitch::exporter::ImageOutputFormat;
use quickstitch::io_section::{ImageFormat, InputType, SortMethod};
use quickstitch::limit_section::WidthType;
use quickstitch::numeric::{digit_bytes, parse_value, usize_to_string};
use quickstitch::sorting::Sort;
use quickstitch::stitcher::{stitcher_plan, InputSource, StitcherError};

fn full_plan_args() -> (
    InputType,
    Option<String>,
    SortMethod,
    Vec<String>,
    bool,
    Option<String>,
    ImageFormat,
    Option<u8>,
    WidthType,
    Option<u32>,
    Option<usize>,
    Option<usize>,
    Option<usize>,
    Option<u8>,
    bool,
) {
    (
        InputType::Directory,
        Some("/pages".to_string()),
        SortMethod::Natural,
        vec![],
        true,
        Some("/stitched".to_string()),
        ImageFormat::JPEG,
        Some(90),
        WidthType::Fixed,
        Some(800),
        Some(5000),
        Some(0),
        Some(5),
        Some(220),
        false,
    )
}

fn run(
    args: (
        InputType,
        Option<String>,
        SortMethod,
        Vec<String>,
        bool,
        Option<String>,
        ImageFormat,
        Option<u8>,
        WidthType,
        Option<u32>,
        Option<usize>,
        Option<usize>,
        Option<usize>,
        Option<u8>,
        bool,
    ),
) -> Result<quickstitch::stitcher::StitchPlan, StitcherError> {
    stitcher_plan(
        args.0, args.1, args.2, args.3, args.4, args.5, args.6, args.7, args.8, args.9,
        args.10, args.11, args.12, args.13, args.14,
    )
}

#[test]
fn plan_from_complete_configuration() {
    let plan = run(full_plan_args()).unwrap();
    assert!(matches!(plan.source, InputSource::Directory(ref d) if d == "/pages"));
    assert_eq!(plan.sort, Sort::Natural);
    assert!(plan.ignore_unloadable);
    assert_eq!(plan.output_directory, "/stitched");
    assert_eq!(plan.target_width, Some(800));
    assert_eq!(plan.max_height, 5000);
    assert_eq!(plan.min_height, 0);
    assert_eq!(plan.scan_interval, 5);
    assert_eq!(plan.sensitivity, 220);
    assert_eq!(plan.format, ImageOutputFormat::Jpg(90));
    assert!(!plan.debug);
}

#[test]
fn plan_missing_input_directory() {
    let mut args = full_plan_args();
    args.1 = None;
    assert_eq!(run(args).unwrap_err(), StitcherError::NoInputDirectory);
}

#[test]
fn plan_missing_input_images() {
    let mut args = full_plan_args();
    args.0 = InputType::Images;
    args.3 = vec![];
    assert_eq!(run(args).unwrap_err(), StitcherError::NoInputImages);
}

#[test]
fn plan_with_explicit_images() {
    let mut args = full_plan_args();
    args.0 = InputType::Images;
    args.3 = vec!["a.png".to_string(), "b.png".to_string()];
    let plan = run(args).unwrap();
    assert!(matches!(plan.source, InputSource::Images(ref v) if v.len() == 2));
}

#[test]
fn plan_missing_output_directory() {
    let mut args = full_plan_args();
    args.5 = None;
    assert_eq!(run(args).unwrap_err(), StitcherError::NoOutputDirectory);
}

#[test]
fn plan_missing_width_only_when_fixed() {
    let mut args = full_plan_args();
    args.9 = None;
    assert_eq!(run(args).unwrap_err(), StitcherError::EmptyOutputImageWidth);
    let mut args = full_plan_args();
    args.8 = WidthType::Auto;
    args.9 = None;
    let plan = run(args).unwrap();
    assert_eq!(plan.target_width, None);
}

#[test]
fn plan_missing_heights() {
    let mut args = full_plan_args();
    args.10 = None;
    assert_eq!(run(args).unwrap_err(), StitcherError::EmptyMaxOutputHeight);
    let mut args = full_plan_args();
    args.11 = None;
    assert_eq!(run(args).unwrap_err(), StitcherError::EmptyMinOutputHeight);
}

#[test]
fn plan_quality_required_only_for_jpeg() {
    let mut args = full_plan_args();
    args.7 = None;
    assert_eq!(run(args).unwrap_err(), StitcherError::EmptyQuality);
    let mut args = full_plan_args();
    args.6 = ImageFormat::WebP;
    args.7 = None;
    let plan = run(args).unwrap();
    assert_eq!(plan.format, ImageOutputFormat::Webp);
    let mut args = full_plan_args();
    args.6 = ImageFormat::PNG;
    args.7 = None;
    let plan = run(args).unwrap();
    assert_eq!(plan.format, ImageOutputFormat::Png);
}

#[test]
fn plan_missing_scan_and_sensitivity() {
    let mut args = full_plan_args();
    args.12 = None;
    assert_eq!(run(args).unwrap_err(), StitcherError::EmptyScanInterval);
    let mut args = full_plan_args();
    args.13 = None;
    assert_eq!(run(args).unwrap_err(), StitcherError::EmptySensitivity);
}

#[test]
fn stitcher_error_messages() {
    assert_eq!(StitcherError::NoInputDirectory.message(), "Input directory must be set");
    assert_eq!(
        StitcherError::EmptySensitivity.message(),
        "Sensitivity cannot be empty"
    );
}

#[test]
fn decimal_helpers_round_trip() {
    assert_eq!(usize_to_string(0), "0");
    assert_eq!(usize_to_string(907), "907");
    assert_eq!(digit_bytes(1234), b"1234".to_vec());
    assert_eq!(parse_value("42", u32::MAX as u128), Some(42));
    assert_eq!(parse_value("+42", u32::MAX as u128), Some(42));
    assert_eq!(parse_value("0042", u32::MAX as u128), Some(42));
    assert_eq!(parse_value("", u32::MAX as u128), None);
    assert_eq!(parse_value("4x2", u32::MAX as u128), None);
    assert_eq!(parse_value("-3", u32::MAX as u128), None);
    assert_eq!(parse_value("256", u8::MAX as u128), None);
    assert_eq!(parse_value("255", u8::MAX as u128), Some(255));
}
