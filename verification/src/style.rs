use vstd::prelude::*;

verus! {

/// An RGB display color.
#[derive(Clone, Copy, PartialEq, Eq, Structural, Debug)]
pub struct Color {
    pub red: u8,
    pub green: u8,
    pub blue: u8,
}

/// The style of one terminal cell: a size multiplier saying how many display
/// columns each column of the glyph occupies, and display attributes (a color)
/// that this crate carries through without interpreting them.
#[derive(Clone, Copy, PartialEq, Eq, Structural, Debug)]
pub struct TextStyle {
    pub size: u8,
    pub color: Option<Color>,
}

impl TextStyle {
    /// A style is well formed when its size multiplier is at least one column.
    pub open spec fn wf(self) -> bool {
        self.size >= 1
    }

    /// The default style: single-width glyphs, no color.
    pub fn plain() -> (s: TextStyle)
        ensures
            s == (TextStyle { size: 1, color: None }),
            s.wf(),
    {
        TextStyle { size: 1, color: None }
    }
}

} // verus!
