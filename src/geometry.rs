use vstd::prelude::*;

verus! {

/// Dimensions of a grid, in cells.
#[derive(Debug, PartialEq, Eq, Structural, Copy, Clone)]
pub struct Size {
    pub width: u16,
    pub height: u16,
}

impl Size {
    /// Both dimensions are positive and the cell count fits in a `u16`.
    pub open spec fn wf(self) -> bool {
        &&& self.width > 0
        &&& self.height > 0
        &&& self.width * self.height <= u16::MAX
    }

    pub open spec fn spec_area(self) -> int {
        self.width * self.height
    }

    /// Holds the location inside the grid.
    pub open spec fn contains(self, l: Location) -> bool {
        l.x < self.width && l.y < self.height
    }

    /// Row-major position of a location in a flat sequence of cells.
    pub open spec fn index_of(self, l: Location) -> int {
        l.y * self.width + l.x
    }

    pub fn new(width: u16, height: u16) -> (r: Size)
        ensures
            r.width == width,
            r.height == height,
    {
        Size { width, height }
    }

    pub fn area(&self) -> (r: u16)
        requires
            self.wf(),
        ensures
            r == self.spec_area(),
    {
        self.width * self.height
    }
}

/// A cell coordinate.
#[derive(Debug, PartialEq, Eq, Structural, Clone, Copy)]
pub struct Location {
    pub x: u16,
    pub y: u16,
}

impl Location {
    pub fn new(x: u16, y: u16) -> (r: Location)
        ensures
            r.x == x,
            r.y == y,
    {
        Location { x, y }
    }

    pub fn zero() -> (r: Location)
        ensures
            r.x == 0,
            r.y == 0,
    {
        Self::new(0, 0)
    }
}

#[derive(Debug, PartialEq, Eq, Structural, Clone, Copy)]
pub enum Direction {
    Left,
    Right,
    Up,
    Down,
}

impl Direction {
    pub open spec fn opposite(self) -> Direction {
        match self {
            Direction::Left => Direction::Right,
            Direction::Right => Direction::Left,
            Direction::Up => Direction::Down,
            Direction::Down => Direction::Up,
        }
    }

    /// The neighbouring cell one step in this direction, wrapping round
    /// the edges of the grid.
    pub open spec fn step(self, l: Location, size: Size) -> Location {
        match self {
            Direction::Left => Location {
                x: ((l.x + size.width - 1) % (size.width as int)) as u16,
                y: l.y,
            },
            Direction::Right => Location { x: ((l.x + 1) % (size.width as int)) as u16, y: l.y },
            Direction::Up => Location {
                x: l.x,
                y: ((l.y + size.height - 1) % (size.height as int)) as u16,
            },
            Direction::Down => Location { x: l.x, y: ((l.y + 1) % (size.height as int)) as u16 },
        }
    }

    pub fn get_opposite_direction(&self) -> (r: Direction)
        ensures
            r == self.opposite(),
    {
        match self {
            Direction::Left => Direction::Right,
            Direction::Right => Direction::Left,
            Direction::Up => Direction::Down,
            Direction::Down => Direction::Up,
        }
    }

    pub fn get_next_location(&self, location: Location, size: Size) -> (r: Location)
        requires
            size.wf(),
            size.contains(location),
        ensures
            r == self.step(location, size),
            size.contains(r),
    {
        match self {
            Direction::Left => Location::new(
                ((location.x as u32 + size.width as u32 - 1) % size.width as u32) as u16,
                location.y,
            ),
            Direction::Right => Location::new((location.x + 1) % size.width, location.y),
            Direction::Up => Location::new(
                location.x,
                ((location.y as u32 + size.height as u32 - 1) % size.height as u32) as u16,
            ),
            Direction::Down => Location::new(location.x, (location.y + 1) % size.height),
        }
    }
}

/// Stepping off any edge of the grid re-enters at the opposite edge, on the
/// same row or column.
pub proof fn lemma_wrap_around(l: Location, size: Size)
    requires
        size.wf(),
        size.contains(l),
    ensures
        l.x == size.width - 1 ==> Direction::Right.step(l, size) == (Location { x: 0, y: l.y }),
        l.x == 0 ==> Direction::Left.step(l, size) == (Location {
            x: (size.width - 1) as u16,
            y: l.y,
        }),
        l.y == size.height - 1 ==> Direction::Down.step(l, size) == (Location { x: l.x, y: 0 }),
        l.y == 0 ==> Direction::Up.step(l, size) == (Location {
            x: l.x,
            y: (size.height - 1) as u16,
        }),
{
    let w = size.width as int;
    let h = size.height as int;
    assert(w % w == 0) by (nonlinear_arith)
        requires
            w > 0,
    ;
    assert(h % h == 0) by (nonlinear_arith)
        requires
            h > 0,
    ;
    vstd::arithmetic::div_mod::lemma_small_mod((w - 1) as nat, w as nat);
    vstd::arithmetic::div_mod::lemma_small_mod((h - 1) as nat, h as nat);
}

/// A step from inside the grid stays inside it.
pub proof fn lemma_step_inside(d: Direction, l: Location, size: Size)
    requires
        size.wf(),
        size.contains(l),
    ensures
        size.contains(d.step(l, size)),
{
    vstd::arithmetic::div_mod::lemma_mod_bound(l.x + size.width - 1, size.width as int);
    vstd::arithmetic::div_mod::lemma_mod_bound(l.x + 1, size.width as int);
    vstd::arithmetic::div_mod::lemma_mod_bound(l.y + size.height - 1, size.height as int);
    vstd::arithmetic::div_mod::lemma_mod_bound(l.y + 1, size.height as int);
}

} // verus!
