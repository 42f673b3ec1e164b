use vstd::prelude::*;
use crate::geometry::{Direction, Location, Size};

verus! {

/// What one grid cell holds. A snake cell records the direction in which the
/// snake leaves it, towards the head.
#[derive(Debug, PartialEq, Eq, Structural, Clone, Copy)]
pub enum Cell {
    Empty,
    Snake(Direction),
    Food,
    Block,
}

/// A fixed-size grid of cells, stored row-major.
pub struct Field {
    size: Size,
    cells: Vec<Cell>,
}

/// A location inside the grid has a row-major index below the area.
pub proof fn lemma_index_in_range(size: Size, l: Location)
    requires
        size.wf(),
        size.contains(l),
    ensures
        0 <= size.index_of(l) < size.spec_area(),
{
    let w = size.width as int;
    let h = size.height as int;
    let x = l.x as int;
    let y = l.y as int;
    assert(0 <= y * w + x < h * w) by (nonlinear_arith)
        requires
            0 <= x < w,
            0 <= y < h,
    ;
}

/// Distinct locations inside the grid have distinct row-major indices.
pub proof fn lemma_index_injective(size: Size, a: Location, b: Location)
    requires
        size.wf(),
        size.contains(a),
        size.contains(b),
        size.index_of(a) == size.index_of(b),
    ensures
        a == b,
{
    let w = size.width as int;
    let (ax, ay, bx, by) = (a.x as int, a.y as int, b.x as int, b.y as int);
    assert(ay == by) by (nonlinear_arith)
        requires
            0 <= ax < w,
            0 <= bx < w,
            0 <= ay,
            0 <= by,
            ay * w + ax == by * w + bx,
    ;
}

/// The location whose row-major index is `i`.
pub open spec fn location_at(size: Size, i: int) -> Location {
    Location { x: (i % size.width as int) as u16, y: (i / size.width as int) as u16 }
}

pub proof fn lemma_location_at(size: Size, i: int)
    requires
        size.wf(),
        0 <= i < size.spec_area(),
    ensures
        size.contains(location_at(size, i)),
        size.index_of(location_at(size, i)) == i,
{
    let w = size.width as int;
    let h = size.height as int;
    vstd::arithmetic::div_mod::lemma_fundamental_div_mod(i, w);
    vstd::arithmetic::div_mod::lemma_mod_bound(i, w);
    let x = i % w;
    let y = i / w;
    assert(0 <= y < h) by (nonlinear_arith)
        requires
            i == w * y + x,
            0 <= x < w,
            0 <= i < w * h,
    ;
    assert(y * w == w * y) by (nonlinear_arith);
}

/// How many cells of the sequence are empty.
pub open spec fn count_empty(s: Seq<Cell>) -> nat
    decreases s.len(),
{
    if s.len() == 0 {
        0
    } else {
        count_empty(s.drop_last()) + if s.last() == Cell::Empty {
            1nat
        } else {
            0nat
        }
    }
}

proof fn lemma_count_empty_step(s: Seq<Cell>, i: int)
    requires
        0 <= i < s.len(),
    ensures
        count_empty(s.take(i + 1)) == count_empty(s.take(i)) + if s[i] == Cell::Empty {
            1nat
        } else {
            0nat
        },
{
    assert(s.take(i + 1).drop_last() =~= s.take(i));
}

/// The count of empty cells is zero exactly when no cell is empty.
pub proof fn lemma_count_empty_zero(s: Seq<Cell>)
    ensures
        count_empty(s) == 0 <==> forall|i: int| 0 <= i < s.len() ==> s[i] != Cell::Empty,
    decreases s.len(),
{
    if s.len() > 0 {
        lemma_count_empty_zero(s.drop_last());
        if count_empty(s) == 0 {
            assert forall|i: int| 0 <= i < s.len() implies s[i] != Cell::Empty by {
                if i < s.len() - 1 {
                    assert(s.drop_last()[i] == s[i]);
                }
            }
        }
        if forall|i: int| 0 <= i < s.len() ==> s[i] != Cell::Empty {
            assert forall|i: int| 0 <= i < s.drop_last().len() implies s.drop_last()[i]
                != Cell::Empty by {
                assert(s.drop_last()[i] == s[i]);
            }
        }
    }
}

impl Field {
    pub closed spec fn dims(&self) -> Size {
        self.size
    }

    /// The cells, row-major.
    pub closed spec fn cells(&self) -> Seq<Cell> {
        self.cells@
    }

    pub open spec fn wf(&self) -> bool {
        &&& self.dims().wf()
        &&& self.cells().len() == self.dims().spec_area()
    }

    /// The cell at a location.
    pub open spec fn at(&self, l: Location) -> Cell {
        self.cells()[self.dims().index_of(l)]
    }

    pub fn new(width: u16, height: u16) -> (r: Field)
        requires
            (Size { width, height }).wf(),
        ensures
            r.wf(),
            r.dims() == (Size { width, height }),
            forall|i: int| 0 <= i < r.cells().len() ==> r.cells()[i] == Cell::Empty,
    {
        let size = width * height;
        let cells: Vec<Cell> = vec![Cell::Empty; size as usize];
        Field { size: Size::new(width, height), cells }
    }

    pub fn size(&self) -> (r: Size)
        ensures
            r == self.dims(),
    {
        self.size
    }

    pub fn get(&self, x: u16, y: u16) -> (r: Cell)
        requires
            self.wf(),
            self.dims().contains(Location { x, y }),
        ensures
            r == self.at(Location { x, y }),
    {
        let index = self.calc_index(x, y);
        self.cells[index]
    }

    pub fn get_location(&self, location: Location) -> (r: Cell)
        requires
            self.wf(),
            self.dims().contains(location),
        ensures
            r == self.at(location),
    {
        self.get(location.x, location.y)
    }

    pub(crate) fn set(&mut self, x: u16, y: u16, cell: Cell)
        requires
            old(self).wf(),
            old(self).dims().contains(Location { x, y }),
        ensures
            final(self).wf(),
            final(self).dims() == old(self).dims(),
            final(self).cells() == old(self).cells().update(
                old(self).dims().index_of(Location { x, y }),
                cell,
            ),
            forall|l: Location|
                old(self).dims().contains(l) ==> #[trigger] final(self).at(l) == if l == (Location {
                    x,
                    y,
                }) {
                    cell
                } else {
                    old(self).at(l)
                },
    {
        let index = self.calc_index(x, y);
        self.cells[index] = cell;
        proof {
            assert forall|l: Location| old(self).dims().contains(l) implies #[trigger] self.at(l)
                == if l == (Location { x, y }) {
                cell
            } else {
                old(self).at(l)
            } by {
                lemma_index_in_range(self.size, l);
                if self.size.index_of(l) == index as int {
                    lemma_index_injective(self.size, l, Location { x, y });
                }
            }
        }
    }

    pub(crate) fn set_location(&mut self, location: Location, cell: Cell)
        requires
            old(self).wf(),
            old(self).dims().contains(location),
        ensures
            final(self).wf(),
            final(self).dims() == old(self).dims(),
            final(self).cells() == old(self).cells().update(
                old(self).dims().index_of(location),
                cell,
            ),
            forall|l: Location|
                old(self).dims().contains(l) ==> #[trigger] final(self).at(l) == if l == location {
                    cell
                } else {
                    old(self).at(l)
                },
    {
        self.set(location.x, location.y, cell);
    }

    fn calc_index(&self, x: u16, y: u16) -> (r: usize)
        requires
            self.wf(),
            self.dims().contains(Location { x, y }),
        ensures
            r == self.dims().index_of(Location { x, y }),
            r < self.cells().len(),
    {
        proof {
            lemma_index_in_range(self.size, Location { x, y });
        }
        (y * self.size.width + x) as usize
    }

    /// Empties every cell.
    pub(crate) fn reset(&mut self)
        requires
            old(self).wf(),
        ensures
            final(self).wf(),
            final(self).dims() == old(self).dims(),
            forall|i: int| 0 <= i < final(self).cells().len() ==> final(self).cells()[i] == Cell::Empty,
    {
        let n = self.cells.len();
        let mut i: usize = 0;
        while i < n
            invariant
                self.wf(),
                self.dims() == old(self).dims(),
                n == self.cells().len(),
                i <= n,
                forall|j: int| 0 <= j < i ==> self.cells()[j] == Cell::Empty,
            decreases n - i,
        {
            self.cells[i] = Cell::Empty;
            i += 1;
        }
    }

    /// Number of empty cells.
    pub(crate) fn empty_count(&self) -> (r: u32)
        requires
            self.wf(),
        ensures
            r == count_empty(self.cells()),
            r <= self.cells().len(),
    {
        let n = self.cells.len();
        let mut count: u32 = 0;
        let mut i: usize = 0;
        while i < n
            invariant
                n == self.cells@.len() <= u16::MAX,
                i <= n,
                count == count_empty(self.cells@.take(i as int)),
                count <= i,
            decreases n - i,
        {
            proof {
                lemma_count_empty_step(self.cells@, i as int);
            }
            if self.cells[i] == Cell::Empty {
                count = count + 1;
            }
            i += 1;
        }
        assert(self.cells@.take(n as int) =~= self.cells@);
        count
    }

    /// Writes `cell` over the empty cell that has `nth` empty cells before it
    /// in row-major order.
    pub(crate) fn fill_nth_empty(&mut self, nth: u32, cell: Cell)
        requires
            old(self).wf(),
            nth < count_empty(old(self).cells()),
        ensures
            final(self).wf(),
            final(self).dims() == old(self).dims(),
            exists|p: int|
                0 <= p < old(self).cells().len() && old(self).cells()[p] == Cell::Empty
                    && count_empty(old(self).cells().take(p)) == nth && final(self).cells()
                    == old(self).cells().update(p, cell),
    {
        let n = self.cells.len();
        let mut seen: u32 = 0;
        let mut i: usize = 0;
        while i < n
            invariant
                old(self).wf(),
                self.cells@ == old(self).cells@,
                self.size == old(self).size,
                n == self.cells@.len() <= u16::MAX,
                i <= n,
                seen == count_empty(self.cells@.take(i as int)),
                seen <= nth,
                nth < count_empty(self.cells@),
            decreases n - i,
        {
            proof {
                lemma_count_empty_step(self.cells@, i as int);
            }
            if self.cells[i] == Cell::Empty {
                if seen == nth {
                    self.cells[i] = cell;
                    assert(self.cells@ =~= old(self).cells@.update(i as int, cell));
                    assert(count_empty(old(self).cells().take(i as int)) == nth);
                    return;
                }
                seen = seen + 1;
            }
            i += 1;
        }
        assert(self.cells@.take(n as int) =~= self.cells@);
    }
}

} // verus!
