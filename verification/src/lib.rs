//! Keyboard layout heatmap tracking and layout optimisation: the verified core.
pub mod assoc;
pub mod chars;
pub mod editor;
pub mod id;
pub mod keyboard;
pub mod layout;
pub mod lists;
pub mod mappings;
pub mod optimize;
pub mod platform;
pub mod session;
pub mod stats;
pub mod xkb;

use vstd::prelude::*;

verus! {

/// Result of the platform operations.
pub type Result<T> = std::result::Result<T, crate::platform::Error>;

/// Errors of the program as a whole.
#[derive(Debug)]
pub enum Error {
    Io(std::io::Error),
    Platform(String),
}

} // verus!
