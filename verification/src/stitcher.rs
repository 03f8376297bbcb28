//! Orchestration of one stitch request: validates what the configuration
//! screens hold and produces the concrete plan the pipeline runs. File
//! listing, reading and writing happen outside; the plan carries everything
//! they need.

use vstd::prelude::*;
use crate::io_section::{InputType, SortMethod, ImageFormat};
use crate::limit_section::WidthType;
use crate::sorting::Sort;
use crate::exporter::{ImageOutputFormat, ExportError};
use crate::loader::LoadError;
use vstd::string::StringExecFns;

verus! {

/// Why a stitch request was rejected before the engine ran, or failed in it.
#[derive(Debug, Clone, PartialEq, Eq)]
pub enum StitcherError {
    NoInputDirectory,
    NoInputImages,
    NoOutputDirectory,
    EmptyQuality,
    EmptyOutputImageWidth,
    EmptyMaxOutputHeight,
    EmptyMinOutputHeight,
    EmptyScanInterval,
    EmptySensitivity,
    ImageLoaderError(LoadError),
    ImageSplitterError(ExportError),
}

impl StitcherError {
    /// A short description for the front end to present.
    pub fn message(&self) -> (r: String)
        ensures
            r@ == match *self {
                StitcherError::NoInputDirectory => "Input directory must be set"@,
                StitcherError::NoInputImages => "At least one input image must be provided"@,
                StitcherError::NoOutputDirectory => "Output directory must be set"@,
                StitcherError::EmptyQuality => "Compression quality cannot be empty"@,
                StitcherError::EmptyOutputImageWidth => "Output image width cannot be empty"@,
                StitcherError::EmptyMaxOutputHeight => "Max output height cannot be empty"@,
                StitcherError::EmptyMinOutputHeight => "Min output height cannot be empty"@,
                StitcherError::EmptyScanInterval => "Scan interval cannot be empty"@,
                StitcherError::EmptySensitivity => "Sensitivity cannot be empty"@,
                StitcherError::ImageLoaderError(_) => "Image loader error"@,
                StitcherError::ImageSplitterError(_) => "Image splitter error"@,
            },
    {
        match self {
            StitcherError::NoInputDirectory => String::from_str("Input directory must be set"),
            StitcherError::NoInputImages => String::from_str(
                "At least one input image must be provided",
            ),
            StitcherError::NoOutputDirectory => String::from_str(
                "Output directory must be set",
            ),
            StitcherError::EmptyQuality => String::from_str(
                "Compression quality cannot be empty",
            ),
            StitcherError::EmptyOutputImageWidth => String::from_str(
                "Output image width cannot be empty",
            ),
            StitcherError::EmptyMaxOutputHeight => String::from_str(
                "Max output height cannot be empty",
            ),
            StitcherError::EmptyMinOutputHeight => String::from_str(
                "Min output height cannot be empty",
            ),
            StitcherError::EmptyScanInterval => String::from_str(
                "Scan interval cannot be empty",
            ),
            StitcherError::EmptySensitivity => String::from_str("Sensitivity cannot be empty"),
            StitcherError::ImageLoaderError(_) => String::from_str("Image loader error"),
            StitcherError::ImageSplitterError(_) => String::from_str("Image splitter error"),
        }
    }
}

/// Where the input images come from.
#[derive(Debug, Clone)]
pub enum InputSource {
    Directory(String),
    Images(Vec<String>),
}

/// One validated stitch request, ready to run: the pipeline reads the
/// source, loads with these parameters, selects splitpoints, and exports to
/// the output directory.
#[derive(Debug, Clone)]
pub struct StitchPlan {
    pub source: InputSource,
    pub sort: Sort,
    pub ignore_unloadable: bool,
    pub output_directory: String,
    pub target_width: Option<u32>,
    pub max_height: usize,
    pub min_height: usize,
    pub scan_interval: usize,
    pub sensitivity: u8,
    pub format: ImageOutputFormat,
    pub debug: bool,
}

/// The plan a configuration denotes, or the first missing field, checking in
/// the order: input, output directory, width, max height, min height,
/// quality, scan interval, sensitivity.
pub open spec fn spec_plan(
    input_type: InputType,
    input_directory: Option<String>,
    image_sorting: SortMethod,
    image_files: Vec<String>,
    ignore_unloadable: bool,
    output_directory: Option<String>,
    output_format: ImageFormat,
    quality: Option<u8>,
    output_width_type: WidthType,
    image_width: Option<u32>,
    max_image_height: Option<usize>,
    min_image_height: Option<usize>,
    scan_interval: Option<usize>,
    sensitivity: Option<u8>,
    debug: bool,
) -> Result<StitchPlan, StitcherError> {
    let source = match input_type {
        InputType::Directory => match input_directory {
            Some(dir) => Ok(InputSource::Directory(dir)),
            None => Err(StitcherError::NoInputDirectory),
        },
        InputType::Images => if image_files@.len() == 0 {
            Err(StitcherError::NoInputImages)
        } else {
            Ok(InputSource::Images(image_files))
        },
    };
    match source {
        Err(e) => Err(e),
        Ok(src) => match output_directory {
            None => Err(StitcherError::NoOutputDirectory),
            Some(outdir) => {
                let width = match output_width_type {
                    WidthType::Auto => Ok(None::<u32>),
                    WidthType::Fixed => match image_width {
                        Some(w) => Ok(Some(w)),
                        None => Err(StitcherError::EmptyOutputImageWidth),
                    },
                };
                match width {
                    Err(e) => Err(e),
                    Ok(target_width) => match (max_image_height, min_image_height) {
                        (None, _) => Err(StitcherError::EmptyMaxOutputHeight),
                        (Some(_), None) => Err(StitcherError::EmptyMinOutputHeight),
                        (Some(max_h), Some(min_h)) => {
                            let q = match output_format {
                                ImageFormat::JPEG => match quality {
                                    Some(q) => Ok(q),
                                    None => Err(StitcherError::EmptyQuality),
                                },
                                _ => Ok(0u8),
                            };
                            match q {
                                Err(e) => Err(e),
                                Ok(qual) => match (scan_interval, sensitivity) {
                                    (None, _) => Err(StitcherError::EmptyScanInterval),
                                    (Some(_), None) => Err(StitcherError::EmptySensitivity),
                                    (Some(interval), Some(sens)) => Ok(
                                        StitchPlan {
                                            source: src,
                                            sort: match image_sorting {
                                                SortMethod::Natural => Sort::Natural,
                                                SortMethod::Logical => Sort::Logical,
                                            },
                                            ignore_unloadable,
                                            output_directory: outdir,
                                            target_width,
                                            max_height: max_h,
                                            min_height: min_h,
                                            scan_interval: interval,
                                            sensitivity: sens,
                                            format: match output_format {
                                                ImageFormat::JPEG => ImageOutputFormat::Jpg(
                                                    qual,
                                                ),
                                                ImageFormat::WebP => ImageOutputFormat::Webp,
                                                ImageFormat::PNG => ImageOutputFormat::Png,
                                            },
                                            debug,
                                        },
                                    ),
                                },
                            }
                        },
                    },
                }
            },
        },
    }
}

/// Validates one stitch request field by field, exactly as `spec_plan` lays
/// it out, and hands back the plan the pipeline runs.
pub fn stitcher_plan(
    input_type: InputType,
    input_directory: Option<String>,
    image_sorting: SortMethod,
    image_files: Vec<String>,
    ignore_unloadable: bool,
    output_directory: Option<String>,
    output_format: ImageFormat,
    quality: Option<u8>,
    output_width_type: WidthType,
    image_width: Option<u32>,
    max_image_height: Option<usize>,
    min_image_height: Option<usize>,
    scan_interval: Option<usize>,
    sensitivity: Option<u8>,
    debug: bool,
) -> (r: Result<StitchPlan, StitcherError>)
    ensures
        r == spec_plan(
            input_type,
            input_directory,
            image_sorting,
            image_files,
            ignore_unloadable,
            output_directory,
            output_format,
            quality,
            output_width_type,
            image_width,
            max_image_height,
            min_image_height,
            scan_interval,
            sensitivity,
            debug,
        ),
{
    let source = match input_type {
        InputType::Directory => match input_directory {
            Some(dir) => InputSource::Directory(dir),
            None => {
                return Err(StitcherError::NoInputDirectory);
            },
        },
        InputType::Images => {
            if image_files.len() == 0 {
                return Err(StitcherError::NoInputImages);
            }
            InputSource::Images(image_files)
        },
    };
    let outdir = match output_directory {
        Some(dir) => dir,
        None => {
            return Err(StitcherError::NoOutputDirectory);
        },
    };
    let target_width = match output_width_type {
        WidthType::Auto => None,
        WidthType::Fixed => match image_width {
            Some(w) => Some(w),
            None => {
                return Err(StitcherError::EmptyOutputImageWidth);
            },
        },
    };
    let max_h = match max_image_height {
        Some(max_h) => max_h,
        None => {
            return Err(StitcherError::EmptyMaxOutputHeight);
        },
    };
    let min_h = match min_image_height {
        Some(min_h) => min_h,
        None => {
            return Err(StitcherError::EmptyMinOutputHeight);
        },
    };
    let qual = match output_format {
        ImageFormat::JPEG => match quality {
            Some(q) => q,
            None => {
                return Err(StitcherError::EmptyQuality);
            },
        },
        _ => 0,
    };
    let interval = match scan_interval {
        Some(interval) => interval,
        None => {
            return Err(StitcherError::EmptyScanInterval);
        },
    };
    let sens = match sensitivity {
        Some(sens) => sens,
        None => {
            return Err(StitcherError::EmptySensitivity);
        },
    };
    Ok(
        StitchPlan {
            source,
            sort: match image_sorting {
                SortMethod::Natural => Sort::Natural,
                SortMethod::Logical => Sort::Logical,
            },
            ignore_unloadable,
            output_directory: outdir,
            target_width,
            max_height: max_h,
            min_height: min_h,
            scan_interval: interval,
            sensitivity: sens,
            format: match output_format {
                ImageFormat::JPEG => ImageOutputFormat::Jpg(qual),
                ImageFormat::WebP => ImageOutputFormat::Webp,
                ImageFormat::PNG => ImageOutputFormat::Png,
            },
            debug,
        },
    )
}

} // verus!
