//! The top-level event type of the configuration screens: one wrapper per
//! section, plus the request to run the stitch.

use vstd::prelude::*;
use crate::io_section::IOSectionMessage;
use crate::limit_section::LimitSectionMessage;
use crate::setting_section::SettingSectionMessage;

verus! {

#[derive(Debug, Clone)]
pub enum Message {
    IOSection(IOSectionMessage),
    LimitSection(LimitSectionMessage),
    SettingSection(SettingSectionMessage),
    Stitch,
}

} // verus!
