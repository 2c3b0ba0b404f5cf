//! The ways in which a conversion can fail.

use vstd::prelude::*;
use vstd::string::StringExecFns;

verus! {

/// Why a conversion run stopped. Every failure is final for that run:
/// the same inputs fail in the same way again.
#[derive(Clone, Copy, Debug, PartialEq, Eq, Structural)]
pub enum PatternError {
    /// The input is no data URI, no base64, or no image that can be decoded.
    InvalidImageData,
    /// No palette colour is available to match against.
    EmptyPalette,
    /// The margins leave no printable region on the page.
    MarginsTooLarge,
    /// The image on the page has no room for a single cell.
    GridTooSmall,
    /// An image of the conversion would take more memory than is allowed.
    ImageTooLarge,
    /// The finished raster could not be written as an image file.
    EncodingFailed,
}

impl PatternError {
    /// The text shown for each failure.
    pub open spec fn message_text(self) -> Seq<char> {
        match self {
            PatternError::InvalidImageData => "Invalid image data"@,
            PatternError::EmptyPalette => "No DMC colors selected or found."@,
            PatternError::MarginsTooLarge =>
                "Image dimensions are too small to generate gem art due to large margins."@,
            PatternError::GridTooSmall => "Image dimensions are too small to generate gem art."@,
            PatternError::ImageTooLarge => "Image dimensions are too large to generate gem art."@,
            PatternError::EncodingFailed => "The image could not be encoded."@,
        }
    }

    /// A human-readable message for the failure.
    pub fn message(&self) -> (text: String)
        ensures
            text@ == self.message_text(),
    {
        match self {
            PatternError::InvalidImageData => String::from_str("Invalid image data"),
            PatternError::EmptyPalette => String::from_str("No DMC colors selected or found."),
            PatternError::MarginsTooLarge => String::from_str(
                "Image dimensions are too small to generate gem art due to large margins.",
            ),
            PatternError::GridTooSmall => String::from_str(
                "Image dimensions are too small to generate gem art.",
            ),
            PatternError::ImageTooLarge => String::from_str(
                "Image dimensions are too large to generate gem art.",
            ),
            PatternError::EncodingFailed => String::from_str("The image could not be encoded."),
        }
    }
}

} // verus!
