//! Palettes for colouring patches.
use vstd::prelude::*;

verus! {

/// Palette used to colour patches.
#[derive(Debug, Clone, Copy, PartialEq, Eq, Structural)]
pub enum ColorScheme {
    Rainbow,
    Checkerboard,
    Heatmap,
    Grayscale,
}

impl ColorScheme {
    /// Display name of the palette.
    pub fn label(&self) -> (r: &'static str)
        ensures
            r@ == match *self {
                ColorScheme::Rainbow => "Rainbow"@,
                ColorScheme::Checkerboard => "Checkerboard"@,
                ColorScheme::Heatmap => "Heatmap"@,
                ColorScheme::Grayscale => "Grayscale"@,
            },
    {
        match self {
            ColorScheme::Rainbow => "Rainbow",
            ColorScheme::Checkerboard => "Checkerboard",
            ColorScheme::Heatmap => "Heatmap",
            ColorScheme::Grayscale => "Grayscale",
        }
    }
}

} // verus!
