//! The plain data that crosses the library's boundary.

use vstd::prelude::*;

verus! {

/// How many cells of a pattern use one palette colour.
#[derive(Clone, PartialEq, Debug)]
pub struct GemCount {
    /// The palette identifier of the colour.
    pub floss: String,
    /// The number of cells that use it.
    pub count: u32,
    /// The colour as six hex digits.
    pub hex: String,
}

/// What a `GemCount` holds, as mathematical values.
pub struct GemCountView {
    pub floss: Seq<char>,
    pub count: nat,
    pub hex: Seq<char>,
}

impl View for GemCount {
    type V = GemCountView;

    open spec fn view(&self) -> GemCountView {
        GemCountView { floss: self.floss@, count: self.count as nat, hex: self.hex@ }
    }
}

/// How the image is placed in the printable region.
#[derive(Clone, Copy, Debug, PartialEq, Eq, Structural)]
pub enum ImageFitOption {
    /// The whole image is kept; part of the region may stay empty.
    Fit,
    /// The whole region is covered; the image's overflow is cut off.
    Crop,
}

/// How image colours are mapped onto the palette.
#[derive(Clone, Copy, Debug, PartialEq, Eq, Structural)]
pub enum ColorMappingMode {
    Nearest,
    AdaptiveLightnessStretch,
}

/// A colour that the user selected.
#[derive(Clone, PartialEq, Debug)]
pub struct Color {
    pub value: String,
    pub floss_number: String,
    pub r: u8,
    pub g: u8,
    pub b: u8,
    pub hex: String,
}

impl Default for Color {
    fn default() -> (c: Color)
        ensures
            c.value@.len() == 0,
            c.floss_number@.len() == 0,
            c.hex@.len() == 0,
            c.r == 0,
            c.g == 0,
            c.b == 0,
    {
        Color {
            value: String::new(),
            floss_number: String::new(),
            r: 0,
            g: 0,
            b: 0,
            hex: String::new(),
        }
    }
}

/// A point of the perceptual colour space: lightness and two chroma axes,
/// each in fixed point (the unit is the caller's, the same for all points
/// that are compared).
#[derive(Clone, Copy, Debug, PartialEq, Eq, Structural)]
pub struct LabPoint {
    pub l: i32,
    pub a: i32,
    pub b: i32,
}

/// A palette colour with its perceptual coordinates and the ink colour
/// that stays legible on it.
#[derive(Clone, Debug)]
pub struct DmcColorPrecomputed {
    pub floss: String,
    pub dmc_name: String,
    pub r: u8,
    pub g: u8,
    pub b: u8,
    pub hex: String,
    pub lab_l: i32,
    pub lab_a: i32,
    pub lab_b: i32,
    pub blended_r: u8,
    pub blended_g: u8,
    pub blended_b: u8,
}

impl DmcColorPrecomputed {
    /// The colour's place in the perceptual space.
    pub open spec fn lab(&self) -> LabPoint {
        LabPoint { l: self.lab_l, a: self.lab_a, b: self.lab_b }
    }
}

} // verus!
