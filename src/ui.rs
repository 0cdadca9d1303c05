use vstd::prelude::*;

pub mod background;
pub mod content;
pub mod font;
pub mod reactive;

pub use self::background::Background;
pub use self::reactive::Cursor;

verus! {

/// A color with red, green, blue and alpha channels; alpha 255 is opaque.
#[derive(Debug, Clone, Copy, PartialEq, Eq, Structural)]
pub struct Color(pub u8, pub u8, pub u8, pub u8);

impl Default for Color {
    /// Black, fully transparent.
    fn default() -> (r: Color)
        ensures
            r == Color(0, 0, 0, 0),
    {
        Color(0, 0, 0, 0)
    }
}

impl Color {
    /// The red, green, blue and alpha channels.
    pub fn get_rgba(&self) -> (r: (u8, u8, u8, u8))
        ensures
            r == (self.0, self.1, self.2, self.3),
    {
        (self.0, self.1, self.2, self.3)
    }

    pub fn rgba(r: u8, g: u8, b: u8, a: u8) -> (c: Color)
        ensures
            c == Color(r, g, b, a),
    {
        Color(r, g, b, a)
    }

    /// An opaque color.
    pub fn rgb(r: u8, g: u8, b: u8) -> (c: Color)
        ensures
            c == Color(r, g, b, 255),
    {
        Color(r, g, b, 255)
    }

    pub fn white() -> (c: Color)
        ensures
            c == Color(255, 255, 255, 255),
    {
        Self::rgb(255, 255, 255)
    }

    pub fn black() -> (c: Color)
        ensures
            c == Color(0, 0, 0, 255),
    {
        Self::rgb(0, 0, 0)
    }

    pub fn green() -> (c: Color)
        ensures
            c == Color(0, 128, 0, 255),
    {
        Self::rgb(0, 128, 0)
    }

    pub fn red() -> (c: Color)
        ensures
            c == Color(128, 0, 0, 255),
    {
        Self::rgb(128, 0, 0)
    }
}

/// Whether a border is drawn inside or outside a node's box.
#[derive(Debug, Clone, Copy, PartialEq, Eq, Structural)]
pub enum EdgeMode {
    Inset,
    Outset,
}

impl Default for EdgeMode {
    fn default() -> (r: EdgeMode)
        ensures
            r == EdgeMode::Outset,
    {
        EdgeMode::Outset
    }
}

/// A value for each of two axes.
#[derive(Debug, Clone, Copy, PartialEq, Eq)]
pub struct Double<T> {
    pub a: T,
    pub b: T,
}

/// A value for each of four sides.
#[derive(Debug, Clone, Copy, PartialEq, Eq)]
pub struct Quadruple<T> {
    pub a: T,
    pub b: T,
    pub c: T,
    pub d: T,
}

impl<T> Quadruple<T> {
    /// The four values, in order.
    pub fn into_tuple(self) -> (r: (T, T, T, T))
        ensures
            r == (self.a, self.b, self.c, self.d),
    {
        (self.a, self.b, self.c, self.d)
    }
}

impl<T> From<(T, T, T, T)> for Quadruple<T> {
    fn from(t: (T, T, T, T)) -> (r: Quadruple<T>) {
        Quadruple { a: t.0, b: t.1, c: t.2, d: t.3 }
    }
}

impl<T> vstd::std_specs::convert::FromSpecImpl<(T, T, T, T)> for Quadruple<T> {
    open spec fn obeys_from_spec() -> bool {
        true
    }

    open spec fn from_spec(t: (T, T, T, T)) -> Quadruple<T> {
        Quadruple { a: t.0, b: t.1, c: t.2, d: t.3 }
    }
}

/// How a node looks: the parts of its style that this library renders.
#[derive(Debug, Clone)]
pub struct Style {
    pub background: background::Background,
    pub reactive: reactive::Reactive,
    pub font: font::Font,
}

impl Style {
    /// The style that `Style::default()` gives.
    pub open spec fn default_spec() -> Style {
        Style {
            background: background::Background::Color(Color(0, 0, 0, 0)),
            reactive: reactive::Reactive { cursor: Cursor::Normal },
            font: font::Font {
                family: font::Family::Inherit,
                weight: font::Weight::Regular,
                style: font::Style::Regular,
                color: Color(0, 0, 0, 255),
            },
        }
    }
}

impl Default for Style {
    fn default() -> (r: Style)
        ensures
            r == Style::default_spec(),
    {
        Style {
            background: background::Background::default(),
            reactive: reactive::Reactive::default(),
            font: font::Font::default(),
        }
    }
}

} // verus!
