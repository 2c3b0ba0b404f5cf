//! The reference colour as the colour list names it.

use vstd::prelude::*;

verus! {

/// One named reference colour.
#[derive(Debug, Clone, PartialEq)]
pub struct DmcColor {
    pub floss: String,
    pub name: String,
    pub r: u8,
    pub g: u8,
    pub b: u8,
    pub hex: String,
}

} // verus!
