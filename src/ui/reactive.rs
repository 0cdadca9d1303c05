use vstd::prelude::*;

verus! {

/// The shape of the mouse pointer over a node.
#[derive(Debug, Clone, Copy, PartialEq, Eq, Structural)]
pub enum Cursor {
    Normal,
    Pointer,
}

impl Default for Cursor {
    fn default() -> (r: Cursor)
        ensures
            r == Cursor::Normal,
    {
        Cursor::Normal
    }
}

/// How a node reacts to the pointer.
#[derive(Debug, Clone, Copy, PartialEq, Eq, Structural)]
pub struct Reactive {
    pub cursor: Cursor,
}

impl Default for Reactive {
    fn default() -> (r: Reactive)
        ensures
            r.cursor == Cursor::Normal,
    {
        Reactive { cursor: Cursor::Normal }
    }
}

impl Reactive {
    /// Sets the pointer shape.
    pub fn cursor(&mut self, cursor: Cursor)
        ensures
            final(self).cursor == cursor,
    {
        self.cursor = cursor;
    }
}

} // verus!
