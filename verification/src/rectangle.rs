//! A rectangle described by its inclusive pixel bounds.

use vstd::prelude::*;

verus! {

/// A rectangle described by the first and last pixel index it covers on
/// each axis.
#[derive(Debug, Default, Copy, Clone, PartialEq, Eq, Structural)]
pub struct Rectangle {
    pub x_min: u32,
    pub x_max: u32,
    pub y_min: u32,
    pub y_max: u32,
}

} // verus!
