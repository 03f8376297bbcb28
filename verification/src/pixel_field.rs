//! A numeric pixel-count text field: the raw text, its parsed value, and the
//! output format whose dimension limit bounds what the field accepts.

use vstd::prelude::*;
use crate::io_section::ImageFormat;
use crate::numeric::{parse_dec, dec_chars, string_bytes, parse_value, usize_to_string};

verus! {

pub struct PixelField {
    pub title: String,
    pub field: String,
    pub hint: String,
    pub number: Option<usize>,
    pub output_format: ImageFormat,
}

#[derive(Debug, Clone)]
pub enum PixelFieldMessage {
    UpdateField(String),
}

impl PixelField {
    pub fn number(&self) -> (r: Option<usize>)
        ensures
            r == self.number,
    {
        self.number
    }

    /// A field prefilled with `prefill`, bounded by `output_format`'s limit.
    pub fn new(title: &str, hint: &str, prefill: Option<usize>, output_format: ImageFormat)
        -> (r: PixelField)
        ensures
            r.title@ == title@,
            r.hint@ == hint@,
            r.number == prefill,
            r.output_format == output_format,
            match prefill {
                Some(num) => r.field@ == dec_chars(num as int),
                None => r.field@.len() == 0,
            },
    {
        let field = match prefill {
            Some(num) => usize_to_string(num),
            None => String::new(),
        };
        PixelField {
            title: title.to_owned(),
            field,
            hint: hint.to_owned(),
            number: prefill,
            output_format,
        }
    }

    /// Accepts new field text when it parses below the format's limit,
    /// normalizing the text to the parsed value's digits; clears the field
    /// when the text is empty; otherwise leaves the state unchanged.
    pub fn update(&mut self, message: PixelFieldMessage)
        ensures
            pixel_update_ok(*old(self), message, *final(self)),
    {
        let PixelFieldMessage::UpdateField(text) = message;
        match parse_value(text.as_str(), usize::MAX as u128) {
            Some(v) => {
                let limit = self.output_format.limit();
                if v < limit as u128 {
                    let num = v as usize;
                    self.field = usize_to_string(num);
                    self.number = Some(num);
                }
            },
            None => {
                if text.as_str().is_empty() {
                    self.field = String::new();
                    self.number = None;
                }
            },
        }
    }
}

/// The transition one field event causes: text that parses below the
/// format's limit is accepted and normalized to the value's digits, empty
/// text clears the field, and anything else leaves the state unchanged.
pub open spec fn pixel_update_ok(
    pre: PixelField,
    message: PixelFieldMessage,
    post: PixelField,
) -> bool {
    &&& post.title == pre.title
    &&& post.hint == pre.hint
    &&& post.output_format == pre.output_format
    &&& ({
        let text = match message {
            PixelFieldMessage::UpdateField(t) => t,
        };
        match parse_dec(string_bytes(text), usize::MAX as int) {
            Some(num) => if num < pre.output_format.spec_limit() {
                &&& post.field@ == dec_chars(num)
                &&& post.number == Some(num as usize)
            } else {
                &&& post.field == pre.field
                &&& post.number == pre.number
            },
            None => if text@.len() == 0 {
                &&& post.field@.len() == 0
                &&& post.number is None
            } else {
                &&& post.field == pre.field
                &&& post.number == pre.number
            },
        }
    })
}

} // verus!
