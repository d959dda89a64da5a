use vstd::prelude::*;

verus! {

/// The four cardinal and four intermediate compass directions.
#[derive(Clone, Copy, PartialEq, Eq, Structural, Debug)]
pub enum Direction {
    North,
    South,
    West,
    East,
    Northwest,
    Northeast,
    Southwest,
    Southeast,
}

/// True for the four directions a flame may travel in.
pub open spec fn is_cardinal(d: Direction) -> bool {
    d == Direction::North || d == Direction::South || d == Direction::West || d == Direction::East
}

/// The cell one step from `p` in direction `d`; North raises the second
/// coordinate, East the first. An intermediate direction does not move.
pub open spec fn step(p: (int, int), d: Direction) -> (int, int) {
    match d {
        Direction::North => (p.0, p.1 + 1),
        Direction::South => (p.0, p.1 - 1),
        Direction::West => (p.0 - 1, p.1),
        Direction::East => (p.0 + 1, p.1),
        _ => p,
    }
}

/// A cell position read as a pair of mathematical integers.
pub open spec fn pos(p: (i8, i8)) -> (int, int) {
    (p.0 as int, p.1 as int)
}

/// Both coordinates are representable as `i8`.
pub open spec fn fits(p: (int, int)) -> bool {
    i8::MIN <= p.0 <= i8::MAX && i8::MIN <= p.1 <= i8::MAX
}

} // verus!
