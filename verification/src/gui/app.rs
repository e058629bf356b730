//! The pages of the graphical interface.

use vstd::prelude::*;

verus! {

/// The pages of the graphical interface.
#[derive(Clone, Copy, PartialEq, Eq, Debug, Structural)]
pub enum View {
    Dashboard,
    Files,
    Download,
    Search,
    About,
}

} // verus!
