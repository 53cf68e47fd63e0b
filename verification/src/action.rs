//! Which kind of difference the display highlights.

use vstd::prelude::*;

verus! {

/// Add-mode highlights characters the newest output inserted; delete-mode
/// highlights characters it deleted, shown on the previous output.
#[derive(Debug, Clone, Eq, PartialEq, Copy, Structural)]
pub enum DiffMode {
    Add,
    Delete,
}

} // verus!
