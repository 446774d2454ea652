//! Why a conversion stops.

use vstd::prelude::*;

use crate::color::Rgb;
use crate::emit::{dec_digits, hex_digits, push_dec, push_hex};

verus! {

/// The ways a conversion can fail once the pixels are in hand.
#[derive(Debug, Clone, Copy, PartialEq, Eq, Structural)]
pub enum ConvertError {
    /// The image holds more distinct colours than a derived palette may hold.
    PaletteOverflow { capacity: u64 },
    /// A pixel's colour is missing from the palette that was supplied.
    ColourNotInPalette { colour: Rgb },
}

/// The text that reports an error.
pub open spec fn error_text(e: ConvertError) -> Seq<char> {
    match e {
        ConvertError::PaletteOverflow { capacity } => "Image file has too many colours for a palette of "@
            + dec_digits(capacity as nat) + " colours"@,
        ConvertError::ColourNotInPalette { colour } => "Colour 0x"@ + hex_digits(colour.0 as nat, 6)
            + " isn't present in the palette"@,
    }
}

impl ConvertError {
    /// The text that reports this error (see `error_text`).
    pub fn message(&self) -> (r: String)
        ensures
            r@ == error_text(*self),
    {
        let mut s = String::new();
        match self {
            ConvertError::PaletteOverflow { capacity } => {
                s.append("Image file has too many colours for a palette of ");
                push_dec(&mut s, *capacity);
                s.append(" colours");
            },
            ConvertError::ColourNotInPalette { colour } => {
                s.append("Colour 0x");
                push_hex(&mut s, colour.0 as u64, 6);
                s.append(" isn't present in the palette");
            },
        }
        s
    }
}

} // verus!
