use vstd::prelude::*;
use rand::rngs::ThreadRng;
use crate::field::{
    Cell, Field, count_empty, lemma_count_empty_zero, lemma_index_in_range,
    lemma_index_injective, lemma_location_at, location_at,
};
use crate::geometry::{Direction, Location, Size, lemma_step_inside};
use crate::random::{draw_ratio, draw_u32, thread_rng};
use crate::snake::{Snake, heading};

verus! {

/// The snake cell at `a` points at `b`.
pub open spec fn leads_to(f: Field, a: Location, b: Location) -> bool {
    f.at(a) is Snake && heading(f.at(a)).step(a, f.dims()) == b
}

/// `body` lists the snake's cells from tail to head: distinct cells inside
/// the grid, each one pointing at the next, the head a snake cell too.
pub open spec fn laid_out(f: Field, body: Seq<Location>) -> bool {
    &&& body.len() >= 2
    &&& forall|i: int| 0 <= i < body.len() ==> f.dims().contains(#[trigger] body[i])
    &&& forall|i: int, j: int| 0 <= i < j < body.len() ==> body[i] != body[j]
    &&& forall|i: int| 0 <= i < body.len() - 1 ==> leads_to(f, #[trigger] body[i], body[i + 1])
    &&& f.at(body.last()) is Snake
}

/// Lies on a border that the level draws: the left and right columns, the
/// top and bottom rows, or both.
pub open spec fn is_border(size: Size, left_right: bool, top_bottom: bool, l: Location) -> bool {
    ||| left_right && (l.x == 0 || l.x == size.width - 1)
    ||| top_bottom && (l.y == 0 || l.y == size.height - 1)
}

/// The borders a level gets from its three draws: none when `skip` is
/// drawn, else the two flags as drawn.
pub open spec fn border_flags_of(skip: bool, left_right: bool, top_bottom: bool) -> (bool, bool) {
    if skip {
        (false, false)
    } else {
        (left_right, top_bottom)
    }
}

pub fn border_flags(skip: bool, left_right: bool, top_bottom: bool) -> (r: (bool, bool))
    ensures
        r == border_flags_of(skip, left_right, top_bottom),
{
    if skip {
        (false, false)
    } else {
        (left_right, top_bottom)
    }
}

/// Where a new level puts the snake's head: the middle of the middle row.
pub open spec fn start_head(size: Size) -> Location {
    Location { x: size.width / 2, y: size.height / 2 }
}

/// Where a new level puts the snake's tail: just left of the head.
pub open spec fn start_tail(size: Size) -> Location {
    Location { x: (size.width / 2 - 1) as u16, y: size.height / 2 }
}

/// What a new level holds at `l` before food is placed.
pub open spec fn start_cell(size: Size, left_right: bool, top_bottom: bool, l: Location) -> Cell {
    if l == start_head(size) || l == start_tail(size) {
        Cell::Snake(Direction::Right)
    } else if is_border(size, left_right, top_bottom, l) {
        Cell::Block
    } else {
        Cell::Empty
    }
}

/// The cells of a new level before food is placed, row-major.
pub open spec fn start_cells(size: Size, left_right: bool, top_bottom: bool) -> Seq<Cell> {
    Seq::new(
        size.spec_area() as nat,
        |i: int| start_cell(size, left_right, top_bottom, location_at(size, i)),
    )
}

/// Which empty cell, counted from zero in row-major order, a draw picks
/// among `e` of them on a grid of `area` cells: the draw is reduced below the
/// area and counted down once per empty cell, wrapping round the grid, a
/// count of zero taking a full round.
pub open spec fn food_slot(e: nat, area: nat, draw: u32) -> nat {
    (((draw as nat) % area + e - 1) % (e as int)) as nat
}

/// `after` is `before` with food on the empty cell that `draw` picks, or
/// `before` itself where no cell is empty.
pub open spec fn food_placed(before: Seq<Cell>, after: Seq<Cell>, draw: u32) -> bool {
    let e = count_empty(before);
    if e == 0 {
        after == before
    } else {
        exists|p: int|
            0 <= p < before.len() && before[p] == Cell::Empty && count_empty(before.take(p))
                == food_slot(e, before.len(), draw) && after == before.update(p, Cell::Food)
    }
}

/// Why a step was refused.
#[derive(Debug, PartialEq, Eq, Structural, Clone, Copy)]
pub enum StepError {
    /// The next head cell is a block, or a snake cell other than the tail.
    IllegalMove,
}

/// The direction the head takes when `requested` is asked of a snake heading
/// `current`: the request, unless it would reverse the snake.
pub open spec fn steer(current: Direction, requested: Direction) -> Direction {
    if requested == current.opposite() {
        current
    } else {
        requested
    }
}

/// A laid-out snake fits in the grid: its cells are distinct.
proof fn lemma_body_fits(f: Field, body: Seq<Location>)
    requires
        f.wf(),
        laid_out(f, body),
    ensures
        body.len() <= f.dims().spec_area(),
{
    let size = f.dims();
    let idx = body.map_values(|l: Location| size.index_of(l));
    assert forall|i: int, j: int|
        0 <= i < idx.len() && 0 <= j < idx.len() && i != j implies idx[i] != idx[j] by {
        if idx[i] == idx[j] {
            lemma_index_injective(size, body[i], body[j]);
            if i < j {
                assert(body[i] != body[j]);
            } else {
                assert(body[j] != body[i]);
            }
        }
    }
    assert(idx.no_duplicates());
    idx.unique_seq_to_set();
    let range = vstd::set_lib::set_int_range(0, size.spec_area());
    vstd::set_lib::lemma_int_range(0, size.spec_area());
    assert forall|k: int| idx.to_set().contains(k) implies range.contains(k) by {
        let i = choose|i: int| 0 <= i < idx.len() && idx[i] == k;
        lemma_index_in_range(size, body[i]);
    }
    vstd::set_lib::lemma_len_subset(idx.to_set(), range);
}

/// What a step does: `ok` tells whether it was taken. A refused step
/// changes nothing. A step onto food grows the snake by its new head, scores
/// a point and places new food; any other step moves the head forward and
/// the tail after it.
pub open spec fn stepped(before: Game, after: Game, requested: Direction, ok: bool) -> bool {
    let size = before.grid().dims();
    let d = steer(before.head_heading(), requested);
    let n = before.next_head(requested);
    let turned = before.grid().cells().update(size.index_of(before.head()), Cell::Snake(d));
    &&& ok == before.may_enter(n)
    &&& !ok ==> after == before
    &&& ok && before.grid().at(n) == Cell::Food ==> {
        &&& after.points() == before.points() + 1
        &&& after.head() == n
        &&& after.tail() == before.tail()
        &&& after.grid().dims() == size
        &&& exists|draw: u32|
            food_placed(
                turned.update(size.index_of(n), Cell::Snake(d)),
                after.grid().cells(),
                draw,
            )
    }
    &&& ok && before.grid().at(n) != Cell::Food ==> {
        &&& after.points() == before.points()
        &&& after.head() == n
        &&& after.tail() == heading(before.grid().at(before.tail())).step(before.tail(), size)
        &&& after.grid().dims() == size
        &&& after.grid().cells() == turned.update(size.index_of(before.tail()), Cell::Empty).update(
            size.index_of(n),
            Cell::Snake(d),
        )
    }
}

/// The game: the field, the snake laid out in it, the score and a source of
/// randomness for level generation and food.
pub struct Game {
    field: Field,
    snake: Snake,
    score: u16,
    rnd: ThreadRng,
    body: Ghost<Seq<Location>>,
}

impl Game {
    pub closed spec fn grid(&self) -> Field {
        self.field
    }

    pub closed spec fn head(&self) -> Location {
        self.snake.head
    }

    pub closed spec fn tail(&self) -> Location {
        self.snake.tail
    }

    pub closed spec fn points(&self) -> int {
        self.score as int
    }

    /// The snake's cells from tail to head.
    pub closed spec fn body(&self) -> Seq<Location> {
        self.body@
    }

    /// The direction recorded in the head cell.
    pub open spec fn head_heading(&self) -> Direction {
        heading(self.grid().at(self.head()))
    }

    /// Where the head goes on a step that asks for `requested`.
    pub open spec fn next_head(&self, requested: Direction) -> Location {
        steer(self.head_heading(), requested).step(self.head(), self.grid().dims())
    }

    /// The head may move onto `l`: it is empty, food, or the tail, which
    /// moves on in the same step.
    pub open spec fn may_enter(&self, l: Location) -> bool {
        match self.grid().at(l) {
            Cell::Empty | Cell::Food => true,
            Cell::Block => false,
            Cell::Snake(_) => l == self.tail(),
        }
    }

    pub open spec fn wf(&self) -> bool {
        self.grid().wf()
    }

    /// A level is in play: the snake is laid out in the field, one cell
    /// longer than two for each point scored.
    pub open spec fn inv(&self) -> bool {
        &&& self.wf()
        &&& self.grid().dims().width >= 2
        &&& laid_out(self.grid(), self.body())
        &&& self.body()[0] == self.tail()
        &&& self.body().last() == self.head()
        &&& self.points() + 2 == self.body().len()
    }

    /// A game on an empty `width` by `height` field, with no level yet.
    pub fn new(width: u16, height: u16) -> (r: Box<Game>)
        requires
            (Size { width, height }).wf(),
        ensures
            r.wf(),
            r.head() == (Location { x: 0, y: 0 }),
            r.tail() == (Location { x: 0, y: 0 }),
            r.grid().dims() == (Size { width, height }),
            forall|i: int| 0 <= i < r.grid().cells().len() ==> r.grid().cells()[i] == Cell::Empty,
            r.points() == 0,
    {
        Box::new(
            Game {
                field: Field::new(width, height),
                snake: Snake { head: Location::zero(), tail: Location::zero() },
                score: 0,
                rnd: thread_rng(),
                body: Ghost(Seq::empty()),
            },
        )
    }

    pub fn field(&self) -> (r: &Field)
        ensures
            *r == self.grid(),
    {
        &self.field
    }

    pub fn snake_head_location(&self) -> (r: Location)
        ensures
            r == self.head(),
    {
        self.snake.head
    }

    pub fn score(&self) -> (r: u16)
        ensures
            r == self.points(),
    {
        self.score
    }

    /// Puts food on the empty cell that `draw` picks (see `food_slot`);
    /// nothing changes where no cell is empty.
    pub fn place_food(&mut self, draw: u32)
        requires
            old(self).inv(),
        ensures
            final(self).inv(),
            final(self).grid().dims() == old(self).grid().dims(),
            food_placed(old(self).grid().cells(), final(self).grid().cells(), draw),
            final(self).head() == old(self).head(),
            final(self).tail() == old(self).tail(),
            final(self).body() == old(self).body(),
            final(self).points() == old(self).points(),
    {
        let e = self.field.empty_count();
        if e > 0 {
            let area = self.field.size().area() as u32;
            let nth = (draw % area + e - 1) % e;
            self.field.fill_nth_empty(nth, Cell::Food);
            proof {
                let body = self.body@;
                assert forall|i: int| 0 <= i < body.len() implies #[trigger] self.field.at(body[i])
                    == old(self).field.at(body[i]) by {
                    lemma_index_in_range(self.field.dims(), body[i]);
                    if i < body.len() - 1 {
                        assert(leads_to(old(self).field, body[i], body[i + 1]));
                    }
                }
                assert(self.field.at(body.last()) == old(self).field.at(body[body.len() - 1]));
                assert forall|i: int| 0 <= i < body.len() - 1 implies leads_to(
                    self.field,
                    #[trigger] body[i],
                    body[i + 1],
                ) by {
                    assert(leads_to(old(self).field, body[i], body[i + 1]));
                    assert(self.field.at(body[i]) == old(self).field.at(body[i]));
                }
            }
        }
    }

    /// Draws the borders of a new level: none at all with probability 1/5;
    /// otherwise left and right columns with probability 1/2, and top and
    /// bottom rows with probability 1/2.
    fn generate_blocks(&mut self) -> (r: (bool, bool))
        ensures
            *final(self) == (Game { rnd: final(self).rnd, ..*old(self) }),
            exists|skip: bool, left_right: bool, top_bottom: bool|
                r == border_flags_of(skip, left_right, top_bottom),
    {
        let skip = draw_ratio(&mut self.rnd, 1, 5);
        let left_right = draw_ratio(&mut self.rnd, 1, 2);
        let top_bottom = draw_ratio(&mut self.rnd, 1, 2);
        border_flags(skip, left_right, top_bottom)
    }

    /// Turns the border cells that the flags ask for into blocks.
    fn place_blocks(&mut self, left_right: bool, top_bottom: bool)
        requires
            old(self).wf(),
        ensures
            final(self).wf(),
            final(self).grid().dims() == old(self).grid().dims(),
            forall|l: Location|
                final(self).grid().dims().contains(l) ==> #[trigger] final(self).grid().at(l)
                    == if is_border(final(self).grid().dims(), left_right, top_bottom, l) {
                    Cell::Block
                } else {
                    old(self).grid().at(l)
                },
            final(self).snake == old(self).snake,
            final(self).score == old(self).score,
            final(self).body == old(self).body,
    {
        let size = self.field.size();
        if left_right {
            let mut i: u16 = 0;
            while i < size.height
                invariant
                    self.wf(),
                    size == self.field.dims(),
                    self.snake == old(self).snake,
                    self.score == old(self).score,
                    self.body == old(self).body,
                    i <= size.height,
                    forall|l: Location|
                        size.contains(l) ==> #[trigger] self.field.at(l) == if (l.x == 0 || l.x
                            == size.width - 1) && l.y < i {
                            Cell::Block
                        } else {
                            old(self).field.at(l)
                        },
                decreases size.height - i,
            {
                self.field.set(0, i, Cell::Block);
                self.field.set(size.width - 1, i, Cell::Block);
                i += 1;
            }
        }
        let ghost mid = self.field;
        if top_bottom {
            let mut i: u16 = 0;
            while i < size.width
                invariant
                    self.wf(),
                    size == self.field.dims(),
                    self.snake == old(self).snake,
                    self.score == old(self).score,
                    self.body == old(self).body,
                    i <= size.width,
                    forall|l: Location|
                        size.contains(l) ==> #[trigger] self.field.at(l) == if (l.y == 0 || l.y
                            == size.height - 1) && l.x < i {
                            Cell::Block
                        } else {
                            mid.at(l)
                        },
                decreases size.width - i,
            {
                self.field.set(i, 0, Cell::Block);
                self.field.set(i, size.height - 1, Cell::Block);
                i += 1;
            }
        }
    }

    /// Lays a two-cell snake heading right in the middle row, its head in
    /// the middle column.
    fn generate_snake(&mut self)
        requires
            old(self).wf(),
            old(self).grid().dims().width >= 2,
        ensures
            final(self).wf(),
            final(self).grid().dims() == old(self).grid().dims(),
            forall|l: Location|
                final(self).grid().dims().contains(l) ==> #[trigger] final(self).grid().at(l)
                    == if l == start_head(final(self).grid().dims()) || l == start_tail(
                    final(self).grid().dims(),
                ) {
                    Cell::Snake(Direction::Right)
                } else {
                    old(self).grid().at(l)
                },
            final(self).head() == start_head(final(self).grid().dims()),
            final(self).tail() == start_tail(final(self).grid().dims()),
            final(self).body() == seq![final(self).tail(), final(self).head()],
            laid_out(final(self).grid(), final(self).body()),
            final(self).score == old(self).score,
    {
        let size = self.field.size();
        let row = size.height / 2;
        let head_col = size.width / 2;
        let tail_col = head_col - 1;

        self.field.set(head_col, row, Cell::Snake(Direction::Right));
        self.field.set(tail_col, row, Cell::Snake(Direction::Right));

        self.snake = Snake { head: Location::new(head_col, row), tail: Location::new(tail_col, row) };
        proof {
            self.body@ = seq![self.snake.tail, self.snake.head];
            vstd::arithmetic::div_mod::lemma_small_mod(head_col as nat, size.width as nat);
            let body = self.body@;
            assert(leads_to(self.field, body[0], body[1]));
        }
    }

    /// Places food on an empty cell picked at random.
    fn generate_food(&mut self)
        requires
            old(self).inv(),
        ensures
            final(self).inv(),
            final(self).grid().dims() == old(self).grid().dims(),
            exists|draw: u32| food_placed(old(self).grid().cells(), final(self).grid().cells(), draw),
            final(self).head() == old(self).head(),
            final(self).tail() == old(self).tail(),
            final(self).body() == old(self).body(),
            final(self).points() == old(self).points(),
    {
        let draw = draw_u32(&mut self.rnd);
        self.place_food(draw);
    }

    /// Starts a level from given choices: borders as the two flags say, the
    /// snake in the middle, food on the empty cell that `food_draw` picks,
    /// and a score of zero.
    pub fn prepare_level_from(&mut self, left_right: bool, top_bottom: bool, food_draw: u32)
        requires
            old(self).wf(),
            old(self).grid().dims().width >= 2,
        ensures
            final(self).inv(),
            final(self).grid().dims() == old(self).grid().dims(),
            final(self).points() == 0,
            final(self).head() == start_head(final(self).grid().dims()),
            final(self).tail() == start_tail(final(self).grid().dims()),
            food_placed(
                start_cells(final(self).grid().dims(), left_right, top_bottom),
                final(self).grid().cells(),
                food_draw,
            ),
    {
        self.field.reset();
        proof {
            assert forall|l: Location| self.field.dims().contains(l) implies #[trigger] self.field.at(
                l,
            ) == Cell::Empty by {
                lemma_index_in_range(self.field.dims(), l);
            }
        }
        self.place_blocks(left_right, top_bottom);
        self.generate_snake();
        self.score = 0;
        proof {
            let size = self.field.dims();
            let start = start_cells(size, left_right, top_bottom);
            assert forall|i: int| 0 <= i < start.len() implies self.field.cells()[i] == start[i] by {
                lemma_location_at(size, i);
                assert(self.field.at(location_at(size, i)) == start_cell(
                    size,
                    left_right,
                    top_bottom,
                    location_at(size, i),
                ));
            }
            assert(self.field.cells() =~= start);
        }
        self.place_food(food_draw);
    }

    /// Starts a new level with borders and food drawn at random.
    pub fn prepare_level(&mut self)
        requires
            old(self).wf(),
            old(self).grid().dims().width >= 2,
        ensures
            final(self).inv(),
            final(self).grid().dims() == old(self).grid().dims(),
            final(self).points() == 0,
            final(self).head() == start_head(final(self).grid().dims()),
            final(self).tail() == start_tail(final(self).grid().dims()),
            exists|left_right: bool, top_bottom: bool, draw: u32|
                food_placed(
                    start_cells(final(self).grid().dims(), left_right, top_bottom),
                    final(self).grid().cells(),
                    draw,
                ),
    {
        let (left_right, top_bottom) = self.generate_blocks();
        let food_draw = draw_u32(&mut self.rnd);
        self.prepare_level_from(left_right, top_bottom, food_draw);
    }

    /// Takes one step of the snake towards `direction`, or refuses it and
    /// changes nothing when the next head cell may not be entered.
    pub fn handle_next_step(&mut self, direction: Direction) -> (r: Result<(), StepError>)
        requires
            old(self).inv(),
        ensures
            final(self).inv(),
            stepped(*old(self), *final(self), direction, r is Ok),
            r is Err ==> r == Err::<(), StepError>(StepError::IllegalMove),
    {
        let next_head_direction = self.steer_direction(direction);
        let next_head_location = next_head_direction.get_next_location(
            self.snake.head,
            self.field.size(),
        );

        if !self.is_snake_next_location_allowed(next_head_location) {
            return Err(StepError::IllegalMove);
        }

        self.set_snake_direction(direction);
        proof {
            let body = old(self).body@;
            assert(body[0] != body[body.len() - 1]);
            if next_head_location == self.snake.head {
                assert(!old(self).may_enter(next_head_location));
            }
            assert(self.head_heading() == next_head_direction);
        }
        let cell = self.field.get_location(next_head_location);
        if let Cell::Food = cell {
            self.increase_snake(next_head_location);
            self.score = self.score + 1;
            self.generate_food();
        } else {
            self.move_snake(next_head_location);
        }
        Ok(())
    }

    fn is_snake_next_location_allowed(&self, next_location: Location) -> (r: bool)
        requires
            self.inv(),
            self.grid().dims().contains(next_location),
        ensures
            r == self.may_enter(next_location),
    {
        let cell = self.field.get_location(next_location);
        match cell {
            Cell::Empty => true,
            Cell::Snake(_) => next_location == self.snake.tail,
            Cell::Food => true,
            Cell::Block => false,
        }
    }

    /// The direction the head takes when `direction` is asked for.
    fn steer_direction(&self, direction: Direction) -> (r: Direction)
        requires
            self.inv(),
        ensures
            r == steer(self.head_heading(), direction),
    {
        let current_direction = self.snake.head_direction(&self.field);
        if direction != current_direction && direction != current_direction.get_opposite_direction() {
            direction
        } else {
            current_direction
        }
    }

    /// Records in the head cell the direction the head takes next.
    fn set_snake_direction(&mut self, direction: Direction)
        requires
            old(self).inv(),
        ensures
            final(self).inv(),
            final(self).grid().dims() == old(self).grid().dims(),
            final(self).grid().cells() == old(self).grid().cells().update(
                old(self).grid().dims().index_of(old(self).head()),
                Cell::Snake(steer(old(self).head_heading(), direction)),
            ),
            forall|l: Location|
                old(self).grid().dims().contains(l) ==> #[trigger] final(self).grid().at(l) == if l
                    == old(self).head() {
                    Cell::Snake(steer(old(self).head_heading(), direction))
                } else {
                    old(self).grid().at(l)
                },
            direction == old(self).head_heading().opposite() ==> final(self).grid().cells()
                == old(self).grid().cells(),
            final(self).head() == old(self).head(),
            final(self).tail() == old(self).tail(),
            final(self).body() == old(self).body(),
            final(self).points() == old(self).points(),
    {
        let current_direction = self.snake.head_direction(&self.field);
        if direction != current_direction && direction != current_direction.get_opposite_direction() {
            self.field.set_location(self.snake.head, Cell::Snake(direction));
        } else {
            proof {
                lemma_index_in_range(self.field.dims(), self.snake.head);
            }
            proof {
                lemma_index_in_range(self.field.dims(), self.snake.head);
                assert(self.field.cells() =~= self.field.cells().update(
                    self.field.dims().index_of(self.snake.head),
                    Cell::Snake(current_direction),
                ));
            }
        }
        proof {
            let body = self.body@;
            assert forall|i: int| 0 <= i < body.len() - 1 implies leads_to(
                self.field,
                #[trigger] body[i],
                body[i + 1],
            ) by {
                assert(body[i] != body[body.len() - 1]);
                assert(leads_to(old(self).field, body[i], body[i + 1]));
            }
        }
    }

    /// Moves the head onto `next_location` and the tail one cell on.
    fn move_snake(&mut self, next_location: Location)
        requires
            old(self).inv(),
            old(self).grid().dims().contains(next_location),
        ensures
            next_location == old(self).head_heading().step(old(self).head(), old(self).grid().dims())
                && old(self).may_enter(next_location) && old(self).grid().at(next_location)
                != Cell::Food ==> final(self).inv(),
            final(self).grid().dims() == old(self).grid().dims(),
            final(self).grid().cells() == old(self).grid().cells().update(
                old(self).grid().dims().index_of(old(self).tail()),
                Cell::Empty,
            ).update(
                old(self).grid().dims().index_of(next_location),
                Cell::Snake(old(self).head_heading()),
            ),
            final(self).head() == next_location,
            final(self).tail() == heading(old(self).grid().at(old(self).tail())).step(
                old(self).tail(),
                old(self).grid().dims(),
            ),
            final(self).points() == old(self).points(),
    {
        let head_direction = self.snake.head_direction(&self.field);
        let tail_direction = self.snake.tail_direction(&self.field);
        let tail_next_location = tail_direction.get_next_location(
            self.snake.tail,
            self.field.size(),
        );

        self.field.set_location(self.snake.tail, Cell::Empty);
        self.field.set_location(next_location, Cell::Snake(head_direction));

        self.snake.head = next_location;
        self.snake.tail = tail_next_location;
        proof {
            if next_location == old(self).head_heading().step(old(self).head(), old(self).grid().dims())
                && old(self).may_enter(next_location) && old(self).grid().at(next_location)
                != Cell::Food {
                let body = old(self).body@;
                let len = body.len();
                assert(leads_to(old(self).field, body[0], body[1]));
                assert forall|i: int| 1 <= i < len implies next_location != #[trigger] body[i] by {
                    if i < len - 1 {
                        assert(leads_to(old(self).field, body[i], body[i + 1]));
                    }
                    if next_location == body[i] {
                        assert(body[0] != body[i]);
                    }
                }
                assert(body[0] != body[len - 1]);
                self.body@ = body.drop_first().push(next_location);
                let nb = self.body@;
                assert forall|i: int| 1 <= i < len implies #[trigger] self.field.at(body[i])
                    == old(self).field.at(body[i]) by {
                    assert(body[0] != body[i]);
                }
                assert forall|i: int| 0 <= i < nb.len() - 1 implies leads_to(
                    self.field,
                    #[trigger] nb[i],
                    nb[i + 1],
                ) by {
                    if i < len - 2 {
                        assert(leads_to(old(self).field, body[i + 1], body[i + 2]));
                        assert(self.field.at(body[i + 1]) == old(self).field.at(body[i + 1]));
                    } else {
                        assert(self.field.at(body[len - 1]) == old(self).field.at(body[len - 1]));
                    }
                }
                assert forall|i: int, j: int| 0 <= i < j < nb.len() implies nb[i] != nb[j] by {
                    if j < len - 1 {
                        assert(body[i + 1] != body[j + 1]);
                    } else {
                        assert(next_location != body[i + 1]);
                    }
                }
            }
        }
    }

    /// Grows the snake by a new head on `next_location`; the tail stays.
    fn increase_snake(&mut self, next_location: Location)
        requires
            old(self).inv(),
            old(self).grid().dims().contains(next_location),
        ensures
            final(self).wf(),
            next_location == old(self).head_heading().step(old(self).head(), old(self).grid().dims())
                && old(self).grid().at(next_location) == Cell::Food ==> {
                &&& laid_out(final(self).grid(), final(self).body())
                &&& final(self).body()[0] == final(self).tail()
                &&& final(self).body().last() == final(self).head()
                &&& final(self).body().len() == old(self).body().len() + 1
                &&& final(self).score < u16::MAX
            },
            final(self).grid().dims() == old(self).grid().dims(),
            final(self).grid().cells() == old(self).grid().cells().update(
                old(self).grid().dims().index_of(next_location),
                Cell::Snake(old(self).head_heading()),
            ),
            final(self).head() == next_location,
            final(self).tail() == old(self).tail(),
            final(self).score == old(self).score,
    {
        let current_direction = self.snake.head_direction(&self.field);
        self.field.set_location(next_location, Cell::Snake(current_direction));
        self.snake.head = next_location;
        proof {
            if next_location == old(self).head_heading().step(old(self).head(), old(self).grid().dims())
                && old(self).grid().at(next_location) == Cell::Food {
                let body = old(self).body@;
                let len = body.len();
                assert forall|i: int| 0 <= i < len implies next_location != #[trigger] body[i] by {
                    if i < len - 1 {
                        assert(leads_to(old(self).field, body[i], body[i + 1]));
                    }
                }
                self.body@ = body.push(next_location);
                let nb = self.body@;
                assert forall|i: int| 0 <= i < nb.len() - 1 implies leads_to(
                    self.field,
                    #[trigger] nb[i],
                    nb[i + 1],
                ) by {
                    if i < len - 1 {
                        assert(leads_to(old(self).field, body[i], body[i + 1]));
                    }
                    assert(self.field.at(body[i]) == old(self).field.at(body[i]));
                }
                assert forall|i: int, j: int| 0 <= i < j < nb.len() implies nb[i] != nb[j] by {
                    if j < len {
                        assert(body[i] != body[j]);
                    }
                }
                lemma_body_fits(self.field, nb);
            }
        }
    }
}

/// Indices of the cells that hold food.
pub open spec fn food_cells(s: Seq<Cell>) -> Set<int> {
    Set::new(|i: int| 0 <= i < s.len() && s[i] == Cell::Food)
}

/// Indices of the cells that are not empty.
pub open spec fn occupied_cells(s: Seq<Cell>) -> Set<int> {
    Set::new(|i: int| 0 <= i < s.len() && s[i] != Cell::Empty)
}

/// Asking to reverse the snake leaves the direction of its head as it was.
pub proof fn lemma_no_reverse(before: Game, after: Game, requested: Direction, ok: bool)
    requires
        before.inv(),
        stepped(before, after, requested, ok),
        requested == before.head_heading().opposite(),
    ensures
        after.head_heading() == before.head_heading(),
{
    if ok {
        let size = before.grid().dims();
        let n = before.next_head(requested);
        let d = steer(before.head_heading(), requested);
        lemma_step_inside(d, before.head(), size);
        lemma_index_in_range(size, n);
        lemma_index_in_range(size, before.head());
        lemma_index_in_range(size, before.tail());
        if before.grid().at(n) == Cell::Food {
            let turned = before.grid().cells().update(size.index_of(before.head()), Cell::Snake(d));
            let grown = turned.update(size.index_of(n), Cell::Snake(d));
            let draw = choose|draw: u32| food_placed(grown, after.grid().cells(), draw);
            if count_empty(grown) != 0 {
                let p = choose|p: int|
                    0 <= p < grown.len() && grown[p] == Cell::Empty && count_empty(grown.take(p))
                        == food_slot(count_empty(grown), grown.len(), draw) && after.grid().cells()
                        == grown.update(p, Cell::Food);
                assert(after.grid().cells()[size.index_of(n)] == Cell::Snake(d));
            }
        }
    }
}

/// A step onto the only food scores one point, puts the head on the food's
/// cell, keeps the tail, and leaves exactly one food cell elsewhere when an
/// empty cell was left to put it on.
pub proof fn lemma_growth_on_food(before: Game, after: Game, requested: Direction)
    requires
        before.inv(),
        stepped(before, after, requested, true),
        before.grid().at(before.next_head(requested)) == Cell::Food,
        food_cells(before.grid().cells()) == set![
            before.grid().dims().index_of(before.next_head(requested)),
        ],
        exists|l: Location| before.grid().dims().contains(l) && before.grid().at(l) == Cell::Empty,
    ensures
        after.points() == before.points() + 1,
        after.head() == before.next_head(requested),
        after.tail() == before.tail(),
        after.grid().at(after.head()) is Snake,
        exists|p: int|
            #![trigger food_cells(after.grid().cells()).contains(p)]
            {
                &&& food_cells(after.grid().cells()) == set![p]
                &&& p != after.grid().dims().index_of(after.head())
                &&& before.grid().cells()[p] == Cell::Empty
                &&& forall|i: int|
                    0 <= i < before.grid().cells().len() && i != p && i
                        != before.grid().dims().index_of(before.head()) && i
                        != before.grid().dims().index_of(after.head()) ==> after.grid().cells()[i]
                        == before.grid().cells()[i]
            },
{
    let size = before.grid().dims();
    let n = before.next_head(requested);
    let d = steer(before.head_heading(), requested);
    let h = size.index_of(before.head());
    lemma_step_inside(d, before.head(), size);
    lemma_index_in_range(size, n);
    lemma_index_in_range(size, before.head());
    let cells = before.grid().cells();
    let turned = cells.update(h, Cell::Snake(d));
    let grown = turned.update(size.index_of(n), Cell::Snake(d));
    let l = choose|l: Location| size.contains(l) && before.grid().at(l) == Cell::Empty;
    lemma_index_in_range(size, l);
    assert(grown[size.index_of(l)] == Cell::Empty);
    lemma_count_empty_zero(grown);
    let draw = choose|draw: u32| food_placed(grown, after.grid().cells(), draw);
    let p = choose|p: int|
        0 <= p < grown.len() && grown[p] == Cell::Empty && count_empty(grown.take(p)) == food_slot(
            count_empty(grown),
            grown.len(),
            draw,
        ) && after.grid().cells() == grown.update(p, Cell::Food);
    assert(cells[size.index_of(n)] == Cell::Food);
    assert(food_cells(cells).contains(size.index_of(n)));
    assert forall|i: int| food_cells(after.grid().cells()).contains(i) <==> i == p by {
        if 0 <= i < cells.len() && i != p && i != h && i != size.index_of(n) && cells[i]
            == Cell::Food {
            assert(food_cells(cells).contains(i));
        }
    }
    assert(food_cells(after.grid().cells()) =~= set![p]);
    assert(after.grid().cells()[size.index_of(n)] == Cell::Snake(d));
    assert(food_cells(after.grid().cells()).contains(p));
}

/// A step onto an empty cell frees one cell and fills another: as many
/// cells are occupied after it as before.
pub proof fn lemma_move_conserves(before: Game, after: Game, requested: Direction)
    requires
        before.inv(),
        stepped(before, after, requested, true),
        before.grid().at(before.next_head(requested)) == Cell::Empty,
    ensures
        occupied_cells(after.grid().cells()).len() == occupied_cells(before.grid().cells()).len(),
{
    let size = before.grid().dims();
    let n = before.next_head(requested);
    let d = steer(before.head_heading(), requested);
    lemma_step_inside(d, before.head(), size);
    lemma_index_in_range(size, n);
    lemma_index_in_range(size, before.head());
    lemma_index_in_range(size, before.tail());
    let (h, t, ni) = (size.index_of(before.head()), size.index_of(before.tail()), size.index_of(n));
    let cells = before.grid().cells();
    assert(leads_to(before.grid(), before.body()[0], before.body()[1]));
    assert(cells[t] != Cell::Empty);
    let range = vstd::set_lib::set_int_range(0, cells.len() as int);
    vstd::set_lib::lemma_int_range(0, cells.len() as int);
    let occ = occupied_cells(cells);
    assert(occ.subset_of(range));
    vstd::set_lib::lemma_len_subset(occ, range);
    assert(occupied_cells(after.grid().cells()) =~= occ.remove(t).insert(ni));
}

/// The head may always move onto the cell that the tail leaves.
pub proof fn lemma_tail_follow(before: Game, after: Game, requested: Direction, ok: bool)
    requires
        before.inv(),
        stepped(before, after, requested, ok),
        before.next_head(requested) == before.tail(),
    ensures
        ok,
        after.head() == before.tail(),
        after.tail() == heading(before.grid().at(before.tail())).step(
            before.tail(),
            before.grid().dims(),
        ),
        after.grid().at(before.tail()) == Cell::Snake(steer(before.head_heading(), requested)),
        after.points() == before.points(),
{
    assert(leads_to(before.grid(), before.body()[0], before.body()[1]));
    let size = before.grid().dims();
    let d = steer(before.head_heading(), requested);
    lemma_index_in_range(size, before.tail());
    lemma_index_in_range(size, before.head());
    assert(before.grid().at(before.tail()) != Cell::Food);
    assert(after.grid().cells()[size.index_of(before.tail())] == Cell::Snake(d));
}

/// A step into a block is refused and changes nothing.
pub proof fn lemma_block_collision(before: Game, after: Game, requested: Direction, ok: bool)
    requires
        before.inv(),
        stepped(before, after, requested, ok),
        before.grid().at(before.next_head(requested)) == Cell::Block,
    ensures
        !ok,
        after == before,
{
}

} // verus!
