//! The advanced-settings state: scan interval, sensitivity, and the debug
//! overlay toggle.

use vstd::prelude::*;
use crate::numeric::{parse_dec, dec_chars, string_bytes, parse_value, usize_to_string};
use vstd::string::StringExecFns;

verus! {

pub struct SettingSection {
    pub debug: bool,
    pub scan_interval_field: String,
    pub scan_interval: Option<u32>,
    pub sensitivity_field: String,
    pub sensitivity: Option<u8>,
}

impl Default for SettingSection {
    fn default() -> (r: Self)
        ensures
            !r.debug,
            r.scan_interval_field@ == "5"@,
            r.scan_interval == Some(5u32),
            r.sensitivity_field@ == "255"@,
            r.sensitivity == Some(255u8),
    {
        SettingSection {
            debug: false,
            scan_interval_field: String::from_str("5"),
            scan_interval: Some(5),
            sensitivity_field: String::from_str("255"),
            sensitivity: Some(255),
        }
    }
}

#[derive(Clone, Debug)]
pub enum SettingSectionMessage {
    SetDebugMode(bool),
    SetScanInterval(String),
    SetSensitivity(String),
}

impl SettingSection {
    /// Applies one event: a numeric field accepts text that parses in its
    /// type's range, normalizing the text; empty text clears the field;
    /// anything else leaves the state unchanged.
    pub fn update(&mut self, message: SettingSectionMessage)
        ensures
            match message {
                SettingSectionMessage::SetDebugMode(mode) => *final(self) == SettingSection {
                    debug: mode,
                    ..*old(self)
                },
                SettingSectionMessage::SetScanInterval(text) => {
                    &&& final(self).debug == old(self).debug
                    &&& final(self).sensitivity_field == old(self).sensitivity_field
                    &&& final(self).sensitivity == old(self).sensitivity
                    &&& match parse_dec(string_bytes(text), u32::MAX as int) {
                        Some(num) => final(self).scan_interval == Some(num as u32) && final(self).scan_interval_field@ == dec_chars(num),
                        None => if text@.len() == 0 {
                            final(self).scan_interval is None && final(self).scan_interval_field@.len() == 0
                        } else {
                            final(self).scan_interval == old(self).scan_interval && final(self).scan_interval_field == old(self).scan_interval_field
                        },
                    }
                },
                SettingSectionMessage::SetSensitivity(text) => {
                    &&& final(self).debug == old(self).debug
                    &&& final(self).scan_interval_field == old(self).scan_interval_field
                    &&& final(self).scan_interval == old(self).scan_interval
                    &&& match parse_dec(string_bytes(text), u8::MAX as int) {
                        Some(num) => final(self).sensitivity == Some(num as u8) && final(self).sensitivity_field@ == dec_chars(num),
                        None => if text@.len() == 0 {
                            final(self).sensitivity is None && final(self).sensitivity_field@.len() == 0
                        } else {
                            final(self).sensitivity == old(self).sensitivity && final(self).sensitivity_field == old(self).sensitivity_field
                        },
                    }
                },
            },
    {
        match message {
            SettingSectionMessage::SetDebugMode(mode) => {
                self.debug = mode;
            },
            SettingSectionMessage::SetScanInterval(text) => {
                match parse_value(text.as_str(), u32::MAX as u128) {
                    Some(v) => {
                        let num = v as u32;
                        self.scan_interval = Some(num);
                        self.scan_interval_field = usize_to_string(num as usize);
                    },
                    None => {
                        if text.as_str().is_empty() {
                            self.scan_interval = None;
                            self.scan_interval_field = String::new();
                        }
                    },
                }
            },
            SettingSectionMessage::SetSensitivity(text) => {
                match parse_value(text.as_str(), u8::MAX as u128) {
                    Some(v) => {
                        let num = v as u8;
                        self.sensitivity = Some(num);
                        self.sensitivity_field = usize_to_string(num as usize);
                    },
                    None => {
                        if text.as_str().is_empty() {
                            self.sensitivity = None;
                            self.sensitivity_field = String::new();
                        }
                    },
                }
            },
        }
    }
}

} // verus!
