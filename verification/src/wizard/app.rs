//! The terminal wizard's application (kept as the home of the terms text,
//! which the application ships beside the binary).

use vstd::prelude::*;

verus! {

/// The terminal wizard.
pub struct App;

} // verus!
