//! Settings that can be read anew while the program runs.
use vstd::prelude::*;

verus! {

/// Why settings could not be read.
#[derive(Debug)]
pub struct ReloadError {
    pub message: String,
}

/// Something whose settings can be read anew.
pub trait Reload {
    /// Reads the settings.
    fn reload(&self) -> Result<(), ReloadError>;

    /// The names of the settings that it reads.
    fn keys(&self) -> Vec<&str>;
}

} // verus!
