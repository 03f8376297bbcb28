//! A placeholder screen with no state and no events.

use vstd::prelude::*;

verus! {

pub struct SimpleScreen;

/// The screen reacts to no event; the one variant exists because an empty
/// datatype cannot be declared here, and it does nothing.
pub enum SimpleScreenMessage {
    Noop,
}

impl SimpleScreen {
    pub fn update(&mut self)
        ensures
            *final(self) == *old(self),
    {
    }
}

} // verus!
