use vstd::prelude::*;
use crate::field::{Cell, Field};
use crate::geometry::{Direction, Location};

verus! {

/// The direction recorded in a snake cell.
pub open spec fn heading(c: Cell) -> Direction {
    match c {
        Cell::Snake(d) => d,
        _ => Direction::Right,
    }
}

/// The two ends of a snake; the body between them is read from the field,
/// each snake cell naming the direction of the next one towards the head.
pub(crate) struct Snake {
    pub(crate) head: Location,
    pub(crate) tail: Location,
}

impl Snake {
    pub(crate) fn head_direction(&self, field: &Field) -> (r: Direction)
        requires
            field.wf(),
            field.dims().contains(self.head),
            field.at(self.head) is Snake,
        ensures
            field.at(self.head) == Cell::Snake(r),
    {
        self.cell_direction(self.head, field)
    }

    pub(crate) fn tail_direction(&self, field: &Field) -> (r: Direction)
        requires
            field.wf(),
            field.dims().contains(self.tail),
            field.at(self.tail) is Snake,
        ensures
            field.at(self.tail) == Cell::Snake(r),
    {
        self.cell_direction(self.tail, field)
    }

    fn cell_direction(&self, location: Location, field: &Field) -> (r: Direction)
        requires
            field.wf(),
            field.dims().contains(location),
            field.at(location) is Snake,
        ensures
            field.at(location) == Cell::Snake(r),
    {
        let cell = field.get_location(location);
        match cell {
            Cell::Snake(direction) => direction,
            _ => Direction::Right,
        }
    }
}

} // verus!
