//! The options of the viewer, as plain values.

use vstd::prelude::*;

verus! {

/// Where the data file of the viewer lies.
pub struct Args {
    /// Path to the data file.
    pub data: String,
}

} // verus!
