use vstd::prelude::*;

verus! {

/// Largest board dimension the engine accepts.  Keeping the grid this small
/// lets every cost and distance computation stay far away from `i32` overflow.
pub const MAX_DIM: i32 = 400;

/// One of the four directions an agent can be told to move in a single turn.
///
/// The grid's `y` axis grows downward: `Up` decreases `y`, `Down` increases it.
#[derive(Clone, Copy, Debug, PartialEq, Eq, Structural)]
pub enum Moves {
    Up,
    Down,
    Left,
    Right,
}

impl Moves {
    /// The direction that undoes this one; a snake may never move there,
    /// since it would reverse into its own neck.
    pub open spec fn opposite_spec(self) -> Moves {
        match self {
            Moves::Up => Moves::Down,
            Moves::Down => Moves::Up,
            Moves::Left => Moves::Right,
            Moves::Right => Moves::Left,
        }
    }

    pub fn opposite(self) -> (r: Moves)
        ensures
            r == self.opposite_spec(),
    {
        match self {
            Moves::Up => Moves::Down,
            Moves::Down => Moves::Up,
            Moves::Left => Moves::Right,
            Moves::Right => Moves::Left,
        }
    }
}

/// Mathematical image of a grid cell: an unbounded integer point.
#[verifier::ext_equal]
pub ghost struct CoordV {
    pub x: int,
    pub y: int,
}

/// A cell of the grid.
#[derive(Clone, Copy, Debug, PartialEq, Eq, Hash, Structural)]
pub struct Coord {
    pub x: i32,
    pub y: i32,
}

impl View for Coord {
    type V = CoordV;

    open spec fn view(&self) -> CoordV {
        CoordV { x: self.x as int, y: self.y as int }
    }
}

/// The view of a whole body: each cell taken to its mathematical image.
pub open spec fn coords_view(s: Seq<Coord>) -> Seq<CoordV> {
    s.map_values(|c: Coord| c@)
}

/// Cells whose components stay well inside `i32`, so that one step or one
/// Manhattan distance can never overflow.
pub open spec fn in_coord_range(c: CoordV) -> bool {
    -1000000 <= c.x <= 1000000 && -1000000 <= c.y <= 1000000
}

/// The cell one step away in the given direction.
pub open spec fn step_spec(c: CoordV, m: Moves) -> CoordV {
    match m {
        Moves::Up => CoordV { x: c.x, y: c.y - 1 },
        Moves::Down => CoordV { x: c.x, y: c.y + 1 },
        Moves::Left => CoordV { x: c.x - 1, y: c.y },
        Moves::Right => CoordV { x: c.x + 1, y: c.y },
    }
}

/// Manhattan distance between two cells.
pub open spec fn manhattan(a: CoordV, b: CoordV) -> int {
    vstd::math::abs(a.x - b.x) + vstd::math::abs(a.y - b.y) as int
}

/// The four cells adjacent to `c`, in the order the engine always uses:
/// right, left, down, up.
pub open spec fn neighboors_spec(c: CoordV) -> Seq<CoordV> {
    seq![
        CoordV { x: c.x + 1, y: c.y },
        CoordV { x: c.x - 1, y: c.y },
        CoordV { x: c.x, y: c.y + 1 },
        CoordV { x: c.x, y: c.y - 1 },
    ]
}

impl Coord {
    /// The four adjacent cells, right, left, down, up, in that order.
    pub fn neighboors(&self) -> (r: Vec<Coord>)
        requires
            in_coord_range(self@),
        ensures
            coords_view(r@) == neighboors_spec(self@),
    {
        let r = vec![
            Coord { x: self.x + 1, y: self.y },
            Coord { x: self.x - 1, y: self.y },
            Coord { x: self.x, y: self.y + 1 },
            Coord { x: self.x, y: self.y - 1 },
        ];
        proof {
            assert(coords_view(r@) =~= neighboors_spec(self@));
        }
        r
    }

    /// Manhattan distance to another cell.
    pub fn dist(&self, coord: &Coord) -> (r: i32)
        requires
            in_coord_range(self@),
            in_coord_range(coord@),
        ensures
            r == manhattan(self@, coord@),
    {
        let dx = if self.x >= coord.x {
            self.x - coord.x
        } else {
            coord.x - self.x
        };
        let dy = if self.y >= coord.y {
            self.y - coord.y
        } else {
            coord.y - self.y
        };
        dx + dy
    }

    /// The cell one step away in direction `m`.
    pub fn step(&self, m: Moves) -> (r: Coord)
        requires
            in_coord_range(self@),
        ensures
            r@ == step_spec(self@, m),
    {
        match m {
            Moves::Up => Coord { x: self.x, y: self.y - 1 },
            Moves::Down => Coord { x: self.x, y: self.y + 1 },
            Moves::Left => Coord { x: self.x - 1, y: self.y },
            Moves::Right => Coord { x: self.x + 1, y: self.y },
        }
    }
}

} // verus!
