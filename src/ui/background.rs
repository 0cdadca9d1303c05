use vstd::prelude::*;

use super::Color;

verus! {

/// What fills a node's box.
#[derive(Debug, Clone, Copy, PartialEq, Eq, Structural)]
pub enum Background {
    Color(Color),
}

impl Default for Background {
    fn default() -> (r: Background)
        ensures
            r == Background::Color(Color(0, 0, 0, 0)),
    {
        Background::Color(Color(0, 0, 0, 0))
    }
}

impl Background {
    /// Fills the box with `color`.
    pub fn color(&mut self, color: Color)
        ensures
            *final(self) == Background::Color(color),
    {
        *self = Background::Color(color);
    }
}

} // verus!
