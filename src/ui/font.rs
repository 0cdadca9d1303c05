use vstd::prelude::*;

use super::Color;

verus! {

/// The thickness of a font.
#[derive(Debug, Clone, Copy, PartialEq, Eq, Structural)]
pub enum Weight {
    ExtraLight,
    Light,
    Regular,
    Bold,
    ExtraBold,
}

/// Upright or slanted letters.
#[derive(Debug, Clone, Copy, PartialEq, Eq, Structural)]
pub enum Style {
    Regular,
    Italic,
}

/// The font family: the one of the parent, or one by name.
#[derive(Debug, Clone)]
pub enum Family {
    Inherit,
    Name(String),
}

/// How text is drawn.
#[derive(Debug, Clone)]
pub struct Font {
    pub family: Family,
    pub weight: Weight,
    pub style: Style,
    pub color: Color,
}

impl Font {
    /// Inherited family, regular weight and style, opaque black.
    pub open spec fn is_default(&self) -> bool {
        &&& self.family is Inherit
        &&& self.weight == Weight::Regular
        &&& self.style == Style::Regular
        &&& self.color == Color(0, 0, 0, 255)
    }

    /// Sets the color of the text.
    pub fn color(&mut self, color: Color)
        ensures
            final(self).color == color,
            final(self).family == old(self).family,
            final(self).weight == old(self).weight,
            final(self).style == old(self).style,
    {
        self.color = color;
    }
}

impl Default for Font {
    fn default() -> (r: Font)
        ensures
            r.is_default(),
    {
        Font { family: Family::Inherit, weight: Weight::Regular, style: Style::Regular, color: Color::black() }
    }
}

} // verus!
