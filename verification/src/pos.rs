use vstd::prelude::*;

verus! {

/// One of the four axis-aligned movement directions.
#[derive(Debug, Copy, Clone, PartialEq, Eq, Structural)]
pub enum Direction {
    DOWN,
    LEFT,
    RIGHT,
    UP,
}

/// A grid coordinate. The playable dungeon occupies 0..37 in both axes,
/// but the type itself places no bound: callers validate against terrain.
#[derive(Debug, Copy, Clone, Hash, PartialEq, Eq, Structural)]
pub struct Pos {
    pub x: u32,
    pub y: u32,
}

impl Pos {
    pub fn new(x: u32, y: u32) -> (r: Self)
        ensures
            r.x == x,
            r.y == y,
    {
        Self { x, y }
    }

    /// The coordinate one step away in the given direction.
    pub open spec fn spec_moved(self, direction: Direction) -> Pos {
        match direction {
            Direction::DOWN => Pos { x: self.x, y: (self.y + 1) as u32 },
            Direction::LEFT => Pos { x: (self.x - 1) as u32, y: self.y },
            Direction::RIGHT => Pos { x: (self.x + 1) as u32, y: self.y },
            Direction::UP => Pos { x: self.x, y: (self.y - 1) as u32 },
        }
    }

    /// Adds a unit delta; the caller must keep the result on the grid,
    /// so steps that would leave 0..=u32::MAX are excluded up front.
    pub fn moved(&self, direction: Direction) -> (r: Self)
        requires
            direction is LEFT ==> self.x >= 1,
            direction is UP ==> self.y >= 1,
            direction is RIGHT ==> self.x < u32::MAX,
            direction is DOWN ==> self.y < u32::MAX,
        ensures
            r == self.spec_moved(direction),
    {
        match direction {
            Direction::DOWN => Self::new(self.x, self.y + 1),
            Direction::LEFT => Self::new(self.x - 1, self.y),
            Direction::RIGHT => Self::new(self.x + 1, self.y),
            Direction::UP => Self::new(self.x, self.y - 1),
        }
    }
}

} // verus!
