//! The size-limit configuration state: how the output width is chosen and
//! the height bounds the selector must respect.

use vstd::prelude::*;
use crate::io_section::ImageFormat;
use crate::pixel_field::{PixelField, PixelFieldMessage, pixel_update_ok};
use crate::numeric::dec_chars;

verus! {

pub struct LimitSection {
    pub width_type: WidthType,
    pub fixed_width: PixelField,
    pub max_height: PixelField,
    pub min_height: PixelField,
}

#[derive(PartialEq, Eq, Copy, Clone, Debug, Structural)]
pub enum WidthType {
    Auto,
    Fixed,
}

impl Default for WidthType {
    fn default() -> (r: Self)
        ensures
            r is Fixed,
    {
        WidthType::Fixed
    }
}

#[derive(Clone, Debug)]
pub enum LimitSectionMessage {
    SetWidthType(WidthType),
    FixedWidthMessage(PixelFieldMessage),
    MaxHeightMessage(PixelFieldMessage),
    MinHeightMessage(PixelFieldMessage),
}

impl LimitSection {
    pub fn width_type(&self) -> (r: WidthType)
        ensures
            r == self.width_type,
    {
        self.width_type
    }

    /// The fixed output width, truncated into `u32` as the engine takes it.
    pub fn fixed_width(&self) -> (r: Option<u32>)
        ensures
            r == match self.fixed_width.number {
                Some(num) => Some(num as u32),
                None => None::<u32>,
            },
    {
        match self.fixed_width.number() {
            Some(num) => Some(#[verifier::truncate] (num as u32)),
            None => None,
        }
    }

    pub fn max_height(&self) -> (r: Option<usize>)
        ensures
            r == self.max_height.number,
    {
        self.max_height.number()
    }

    pub fn min_height(&self) -> (r: Option<usize>)
        ensures
            r == self.min_height.number,
    {
        self.min_height.number()
    }

    /// Fresh limits: a fixed width of 800 and heights of 15000 over 10000,
    /// each field bounded by the chosen output format's dimension limit.
    pub fn new(output_format: ImageFormat) -> (r: Self)
        ensures
            r.width_type is Fixed,
            r.fixed_width.number == Some(800usize),
            r.fixed_width.field@ == dec_chars(800),
            r.fixed_width.output_format == output_format,
            r.max_height.number == Some(15000usize),
            r.max_height.field@ == dec_chars(15000),
            r.max_height.output_format == output_format,
            r.min_height.number == Some(10000usize),
            r.min_height.field@ == dec_chars(10000),
            r.min_height.output_format == output_format,
    {
        LimitSection {
            width_type: WidthType::Fixed,
            fixed_width: PixelField::new(
                "Output Image Width",
                "e.g. 800",
                Some(800),
                output_format,
            ),
            max_height: PixelField::new(
                "Max Output Height",
                "e.g. 15000",
                Some(15000),
                output_format,
            ),
            min_height: PixelField::new(
                "Min Output Height",
                "e.g. 10000",
                Some(10000),
                output_format,
            ),
        }
    }

    /// Routes one event to the field it concerns.
    pub fn update(&mut self, message: LimitSectionMessage)
        ensures
            match message {
                LimitSectionMessage::SetWidthType(w) => *final(self) == LimitSection {
                    width_type: w,
                    ..*old(self)
                },
                LimitSectionMessage::FixedWidthMessage(m) => {
                    &&& final(self).width_type == old(self).width_type
                    &&& final(self).max_height == old(self).max_height
                    &&& final(self).min_height == old(self).min_height
                    &&& pixel_update_ok(old(self).fixed_width, m, final(self).fixed_width)
                },
                LimitSectionMessage::MaxHeightMessage(m) => {
                    &&& final(self).width_type == old(self).width_type
                    &&& final(self).fixed_width == old(self).fixed_width
                    &&& final(self).min_height == old(self).min_height
                    &&& pixel_update_ok(old(self).max_height, m, final(self).max_height)
                },
                LimitSectionMessage::MinHeightMessage(m) => {
                    &&& final(self).width_type == old(self).width_type
                    &&& final(self).fixed_width == old(self).fixed_width
                    &&& final(self).max_height == old(self).max_height
                    &&& pixel_update_ok(old(self).min_height, m, final(self).min_height)
                },
            },
    {
        match message {
            LimitSectionMessage::SetWidthType(w) => {
                self.width_type = w;
            },
            LimitSectionMessage::FixedWidthMessage(msg) => {
                self.fixed_width.update(msg);
            },
            LimitSectionMessage::MaxHeightMessage(msg) => {
                self.max_height.update(msg);
            },
            LimitSectionMessage::MinHeightMessage(msg) => {
                self.min_height.update(msg);
            },
        }
    }
}

} // verus!
