//! The input/output configuration state: where the images come from, how a
//! directory is ordered, where the stitched pages go, and in which format.
//! Directory- and file-picking dialogs run outside; their results arrive
//! here as message payloads.

use vstd::prelude::*;
use crate::numeric::{parse_dec, dec_chars, string_bytes, parse_value, usize_to_string};
use crate::sorting::Sort;
use vstd::string::StringExecFns;

verus! {

/// One selected input image.
pub struct ImageFile {
    pub path: String,
}

#[derive(Debug, Clone)]
pub enum ImageFileMessage {
    Delete,
}

impl ImageFile {
    pub fn with_path(path: String) -> (r: Self)
        ensures
            r.path == path,
    {
        ImageFile { path }
    }
}

#[derive(Clone, Copy, Debug)]
pub enum InputType {
    Directory,
    Images,
}

impl Default for InputType {
    fn default() -> (r: Self)
        ensures
            r is Directory,
    {
        InputType::Directory
    }
}

#[derive(PartialEq, Eq, Copy, Clone, Debug, Structural)]
pub enum SortMethod {
    Natural,
    Logical,
}

impl Default for SortMethod {
    fn default() -> (r: Self)
        ensures
            r is Natural,
    {
        SortMethod::Natural
    }
}

impl SortMethod {
    /// The engine policy this choice names.
    pub fn to_sort(&self) -> (r: Sort)
        ensures
            r == match *self {
                SortMethod::Natural => Sort::Natural,
                SortMethod::Logical => Sort::Logical,
            },
    {
        match self {
            SortMethod::Natural => Sort::Natural,
            SortMethod::Logical => Sort::Logical,
        }
    }
}

#[derive(Clone, Debug, PartialEq, Eq, Copy, Structural)]
pub enum ImageFormat {
    JPEG,
    WebP,
    PNG,
}

impl Default for ImageFormat {
    fn default() -> (r: Self)
        ensures
            r is JPEG,
    {
        ImageFormat::JPEG
    }
}

impl ImageFormat {
    /// The largest pixel dimension each encoder accepts.
    pub open spec fn spec_limit(self) -> u32 {
        match self {
            ImageFormat::JPEG => 65535,
            ImageFormat::WebP => 16383,
            ImageFormat::PNG => u32::MAX,
        }
    }

    pub fn limit(&self) -> (r: u32)
        ensures
            r == self.spec_limit(),
    {
        match self {
            ImageFormat::JPEG => 65535,
            ImageFormat::WebP => 16383,
            ImageFormat::PNG => u32::MAX,
        }
    }
}

pub struct IOSection {
    pub input_type: InputType,
    pub input_directory: Option<String>,
    pub sort_method: SortMethod,
    pub input_files: Vec<ImageFile>,
    pub output_directory: Option<String>,
    pub output_format: ImageFormat,
    pub quality_field: String,
    pub quality: Option<u8>,
}

impl Default for IOSection {
    fn default() -> (r: Self)
        ensures
            r.input_type is Directory,
            r.input_directory is None,
            r.sort_method is Natural,
            r.input_files@.len() == 0,
            r.output_directory is None,
            r.output_format is JPEG,
            r.quality_field@ == "100"@,
            r.quality == Some(100u8),
    {
        IOSection {
            input_type: InputType::Directory,
            input_directory: None,
            sort_method: SortMethod::Natural,
            input_files: Vec::new(),
            output_directory: None,
            output_format: ImageFormat::JPEG,
            quality_field: String::from_str("100"),
            quality: Some(100),
        }
    }
}

/// The events the section reacts to. Dialog outcomes (a picked directory or
/// file, or a dismissed dialog) arrive as the message's payload.
#[derive(Debug, Clone)]
pub enum IOSectionMessage {
    ImageFileMessage(usize, ImageFileMessage),
    SetInputType(InputType),
    SetInputDirectory(Option<String>),
    SetOutputDirectory(Option<String>),
    AddImage(Option<String>),
    SetOutputFormat(ImageFormat),
    SetSortMethod(SortMethod),
    SetQualityField(String),
}

impl IOSection {
    pub fn get_output_format(&self) -> (r: ImageFormat)
        ensures
            r == self.output_format,
    {
        self.output_format
    }

    /// Applies one event to the section state.
    pub fn update(&mut self, message: IOSectionMessage)
        requires
            message matches IOSectionMessage::ImageFileMessage(i, _) ==> i < old(self).input_files@.len(),
        ensures
            match message {
                IOSectionMessage::ImageFileMessage(i, m) => match m {
                    ImageFileMessage::Delete => final(self).input_files@ == old(self).input_files@.remove(i as int) && unchanged_but_files(
                        *old(self),
                        *final(self),
                    ),
                },
                IOSectionMessage::SetInputType(t) => *final(self) == IOSection {
                    input_type: t,
                    ..*old(self)
                },
                IOSectionMessage::SetInputDirectory(dir) => match dir {
                    Some(d) => *final(self) == IOSection {
                        input_directory: Some(d),
                        ..*old(self)
                    },
                    None => *final(self) == *old(self),
                },
                IOSectionMessage::SetOutputDirectory(dir) => match dir {
                    Some(d) => *final(self) == IOSection {
                        output_directory: Some(d),
                        ..*old(self)
                    },
                    None => *final(self) == *old(self),
                },
                IOSectionMessage::AddImage(file) => match file {
                    Some(f) => final(self).input_files@ == old(self).input_files@.push(
                        ImageFile { path: f },
                    ) && unchanged_but_files(*old(self), *final(self)),
                    None => *final(self) == *old(self),
                },
                IOSectionMessage::SetOutputFormat(f) => *final(self) == IOSection {
                    output_format: f,
                    ..*old(self)
                },
                IOSectionMessage::SetSortMethod(m) => *final(self) == IOSection {
                    sort_method: m,
                    ..*old(self)
                },
                IOSectionMessage::SetQualityField(text) => match parse_dec(
                    string_bytes(text),
                    u8::MAX as int,
                ) {
                    Some(num) => if 0 < num <= 100 {
                        &&& final(self).quality_field@ == dec_chars(num)
                        &&& final(self).quality == Some(num as u8)
                        &&& unchanged_but_quality(*old(self), *final(self))
                    } else if text@.len() == 0 {
                        &&& final(self).quality_field@.len() == 0
                        &&& final(self).quality is None
                        &&& unchanged_but_quality(*old(self), *final(self))
                    } else {
                        *final(self) == *old(self)
                    },
                    None => if text@.len() == 0 {
                        &&& final(self).quality_field@.len() == 0
                        &&& final(self).quality is None
                        &&& unchanged_but_quality(*old(self), *final(self))
                    } else {
                        *final(self) == *old(self)
                    },
                },
            },
    {
        match message {
            IOSectionMessage::ImageFileMessage(i, m) => {
                match m {
                    ImageFileMessage::Delete => {
                        self.input_files.remove(i);
                    },
                }
            },
            IOSectionMessage::SetInputDirectory(dir) => {
                if let Some(d) = dir {
                    self.input_directory = Some(d);
                }
            },
            IOSectionMessage::SetOutputDirectory(dir) => {
                if let Some(d) = dir {
                    self.output_directory = Some(d);
                }
            },
            IOSectionMessage::SetInputType(t) => {
                self.input_type = t;
            },
            IOSectionMessage::AddImage(file) => {
                if let Some(f) = file {
                    self.input_files.push(ImageFile::with_path(f));
                }
            },
            IOSectionMessage::SetOutputFormat(f) => {
                self.output_format = f;
            },
            IOSectionMessage::SetSortMethod(m) => {
                self.sort_method = m;
            },
            IOSectionMessage::SetQualityField(text) => {
                match parse_value(text.as_str(), u8::MAX as u128) {
                    Some(v) => {
                        let num = v as u8;
                        if 0 < num && num <= 100 {
                            self.quality_field = usize_to_string(num as usize);
                            self.quality = Some(num);
                        } else if text.as_str().is_empty() {
                            self.quality_field = String::new();
                            self.quality = None;
                        }
                    },
                    None => {
                        if text.as_str().is_empty() {
                            self.quality_field = String::new();
                            self.quality = None;
                        }
                    },
                }
            },
        }
    }
}

/// Everything except the input-file list agrees.
pub open spec fn unchanged_but_files(a: IOSection, b: IOSection) -> bool {
    &&& b.input_type == a.input_type
    &&& b.input_directory == a.input_directory
    &&& b.sort_method == a.sort_method
    &&& b.output_directory == a.output_directory
    &&& b.output_format == a.output_format
    &&& b.quality_field == a.quality_field
    &&& b.quality == a.quality
}

/// Everything except the quality text and value agrees.
pub open spec fn unchanged_but_quality(a: IOSection, b: IOSection) -> bool {
    &&& b.input_type == a.input_type
    &&& b.input_directory == a.input_directory
    &&& b.sort_method == a.sort_method
    &&& b.input_files == a.input_files
    &&& b.output_directory == a.output_directory
    &&& b.output_format == a.output_format
}

} // verus!
