use vstd::prelude::*;

use super::Double;

verus! {

/// How children are placed along an axis.
#[derive(Debug, Clone, Copy, PartialEq, Eq, Structural)]
pub enum AlignMode {
    Start,
    Center,
    End,
    SpaceBetween,
    SpaceAround,
}

impl Default for AlignMode {
    fn default() -> (r: AlignMode)
        ensures
            r == AlignMode::Start,
    {
        AlignMode::Start
    }
}

/// How children are placed along both axes.
#[derive(Debug, Clone, Copy, PartialEq, Eq)]
pub struct Align(pub Double<AlignMode>);

impl Default for Align {
    fn default() -> (r: Align)
        ensures
            r.0.a == AlignMode::Start,
            r.0.b == AlignMode::Start,
    {
        Align(Double { a: AlignMode::Start, b: AlignMode::Start })
    }
}

/// The order in which children follow each other.
#[derive(Debug, Clone, Copy, PartialEq, Eq, Structural)]
pub enum Direction {
    Forwards,
    Backwards,
}

impl Default for Direction {
    fn default() -> (r: Direction)
        ensures
            r == Direction::Forwards,
    {
        Direction::Forwards
    }
}

/// Whether children are laid out in a row or a column.
#[derive(Debug, Clone, Copy, PartialEq, Eq, Structural)]
pub enum Flow {
    Row(Direction),
    Column(Direction),
}

impl Default for Flow {
    fn default() -> (r: Flow)
        ensures
            r == Flow::Row(Direction::Forwards),
    {
        Flow::Row(Direction::Forwards)
    }
}

} // verus!
