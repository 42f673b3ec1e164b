use vstd::prelude::*;
use crate::field::Cell;
use crate::game::{Game, food_placed, start_cells, start_head, start_tail};
use crate::geometry::{Direction, Location};

verus! {

/// The step interval a session starts with, in milliseconds.
pub const START_INTERVAL_MS: u64 = 150;

/// How much one speed key changes the step interval, in milliseconds.
pub const INTERVAL_STEP_MS: u64 = 50;

/// A key press, as far as the game tells keys apart.
#[derive(Debug, PartialEq, Eq, Structural, Clone, Copy)]
pub enum Key {
    Up,
    Down,
    Left,
    Right,
    Faster,
    Slower,
    Quit,
    Other,
}

/// What the player has asked for so far: the direction to steer towards and
/// the time between two steps.
#[derive(Debug, PartialEq, Eq, Structural, Clone, Copy)]
pub struct Controls {
    pub direction: Direction,
    pub step_interval_ms: u64,
}

impl Controls {
    pub fn new() -> (r: Controls)
        ensures
            r.direction == Direction::Right,
            r.step_interval_ms == START_INTERVAL_MS,
    {
        Controls { direction: Direction::Right, step_interval_ms: START_INTERVAL_MS }
    }

    /// Applies a key press; returns whether the session should end. An arrow
    /// sets the direction; `Faster` shortens the interval by one step while
    /// it stays above one step, and `Slower` lengthens it by one step where
    /// that fits in a `u64`.
    pub fn on_key(&mut self, key: Key) -> (quit: bool)
        ensures
            quit == (key == Key::Quit),
            final(self).direction == match key {
                Key::Up => Direction::Up,
                Key::Down => Direction::Down,
                Key::Left => Direction::Left,
                Key::Right => Direction::Right,
                _ => old(self).direction,
            },
            final(self).step_interval_ms == match key {
                Key::Faster => if old(self).step_interval_ms > INTERVAL_STEP_MS {
                    (old(self).step_interval_ms - INTERVAL_STEP_MS) as u64
                } else {
                    old(self).step_interval_ms
                },
                Key::Slower => if old(self).step_interval_ms <= u64::MAX - INTERVAL_STEP_MS {
                    (old(self).step_interval_ms + INTERVAL_STEP_MS) as u64
                } else {
                    old(self).step_interval_ms
                },
                _ => old(self).step_interval_ms,
            },
    {
        match key {
            Key::Up => self.direction = Direction::Up,
            Key::Down => self.direction = Direction::Down,
            Key::Left => self.direction = Direction::Left,
            Key::Right => self.direction = Direction::Right,
            Key::Faster => {
                if self.step_interval_ms > INTERVAL_STEP_MS {
                    self.step_interval_ms = self.step_interval_ms - INTERVAL_STEP_MS;
                }
            },
            Key::Slower => {
                if self.step_interval_ms <= u64::MAX - INTERVAL_STEP_MS {
                    self.step_interval_ms = self.step_interval_ms + INTERVAL_STEP_MS;
                }
            },
            Key::Quit => {},
            Key::Other => {},
        }
        key == Key::Quit
    }

    /// Takes one step of the game towards the chosen direction. A refused
    /// step starts a new level and steers right again; returns whether the
    /// step was taken.
    pub fn tick(&mut self, game: &mut Game) -> (stepped: bool)
        requires
            old(game).inv(),
        ensures
            final(game).inv(),
            stepped == old(game).may_enter(old(game).next_head(old(self).direction)),
            stepped ==> crate::game::stepped(*old(game), *final(game), old(self).direction, true),
            stepped ==> final(self).direction == old(self).direction,
            !stepped ==> {
                &&& final(self).direction == Direction::Right
                &&& final(game).grid().dims() == old(game).grid().dims()
                &&& final(game).points() == 0
                &&& final(game).head() == start_head(final(game).grid().dims())
                &&& final(game).tail() == start_tail(final(game).grid().dims())
                &&& exists|left_right: bool, top_bottom: bool, draw: u32|
                    food_placed(
                        start_cells(final(game).grid().dims(), left_right, top_bottom),
                        final(game).grid().cells(),
                        draw,
                    )
            },
            final(self).step_interval_ms == old(self).step_interval_ms,
    {
        if game.handle_next_step(self.direction).is_err() {
            game.prepare_level();
            self.direction = Direction::Right;
            false
        } else {
            true
        }
    }
}

/// The character that shows a cell; `is_head` marks the snake's head.
pub open spec fn glyph_of(cell: Cell, is_head: bool) -> char {
    match cell {
        Cell::Empty => ' ',
        Cell::Snake(_) => if is_head {
            '\u{263B}'
        } else {
            '\u{263A}'
        },
        Cell::Block => '\u{2588}',
        Cell::Food => '\u{2665}',
    }
}

pub fn glyph(cell: Cell, is_head: bool) -> (r: char)
    ensures
        r == glyph_of(cell, is_head),
{
    match cell {
        Cell::Empty => ' ',
        Cell::Snake(_) => if is_head {
            '\u{263B}'
        } else {
            '\u{263A}'
        },
        Cell::Block => '\u{2588}',
        Cell::Food => '\u{2665}',
    }
}

proof fn lemma_row_before(earlier: int, row: int, width: int)
    requires
        0 <= earlier < row,
        width >= 0,
    ensures
        earlier * width + width <= row * width,
{
    assert(earlier * width + width <= row * width) by (nonlinear_arith)
        requires
            earlier < row,
            width >= 0,
    ;
}

/// The characters of one frame: each row of the field followed by a
/// carriage return and a line feed.
pub fn frame(game: &Game) -> (r: Vec<char>)
    requires
        game.wf(),
    ensures
        r@.len() == game.grid().dims().height * (game.grid().dims().width + 2),
        forall|x: u16, y: u16|
            x < game.grid().dims().width && y < game.grid().dims().height ==> {
                let row = y * (game.grid().dims().width + 2);
                &&& r@[row + x] == glyph_of(
                    #[trigger] game.grid().at(Location { x, y }),
                    (Location { x, y }) == game.head(),
                )
                &&& r@[row + game.grid().dims().width] == '\r'
                &&& r@[row + game.grid().dims().width + 1] == '\n'
            },
{
    let size = game.field().size();
    let head = game.snake_head_location();
    let w = size.width;
    let ghost rw = w + 2;
    let mut out: Vec<char> = Vec::new();
    let mut y: u16 = 0;
    while y < size.height
        invariant
            size == game.grid().dims(),
            head == game.head(),
            w == size.width,
            rw == w + 2,
            game.wf(),
            y <= size.height,
            out@.len() == y * rw,
            forall|x: u16, yy: u16|
                x < w && yy < y ==> {
                    &&& out@[yy * rw + x] == glyph_of(
                        #[trigger] game.grid().at(Location { x, y: yy }),
                        (Location { x, y: yy }) == head,
                    )
                    &&& out@[yy * rw + w] == '\r'
                    &&& out@[yy * rw + w + 1] == '\n'
                },
        decreases size.height - y,
    {
        let mut x: u16 = 0;
        while x < w
            invariant
                size == game.grid().dims(),
                head == game.head(),
                w == size.width,
                rw == w + 2,
                game.wf(),
                y < size.height,
                x <= w,
                out@.len() == y * rw + x,
                forall|xx: u16, yy: u16|
                    xx < w && yy < y ==> {
                        &&& out@[yy * rw + xx] == glyph_of(
                            #[trigger] game.grid().at(Location { x: xx, y: yy }),
                            (Location { x: xx, y: yy }) == head,
                        )
                        &&& out@[yy * rw + w] == '\r'
                        &&& out@[yy * rw + w + 1] == '\n'
                    },
                forall|xx: u16|
                    xx < x ==> out@[y * rw + xx] == glyph_of(
                        #[trigger] game.grid().at(Location { x: xx, y }),
                        (Location { x: xx, y }) == head,
                    ),
            decreases w - x,
        {
            let cell = game.field().get(x, y);
            out.push(glyph(cell, x == head.x && y == head.y));
            proof {
                assert forall|xx: u16, yy: u16| xx < w && yy < y implies {
                    &&& out@[yy * rw + xx] == glyph_of(
                        #[trigger] game.grid().at(Location { x: xx, y: yy }),
                        (Location { x: xx, y: yy }) == head,
                    )
                    &&& out@[yy * rw + w] == '\r'
                    &&& out@[yy * rw + w + 1] == '\n'
                } by {
                    lemma_row_before(yy as int, y as int, rw as int);
                }
            }
            x += 1;
        }
        out.push('\r');
        out.push('\n');
        proof {
            assert forall|xx: u16, yy: u16|
                xx < w && yy < y + 1 implies {
                    &&& out@[yy * rw + xx] == glyph_of(
                        #[trigger] game.grid().at(Location { x: xx, y: yy }),
                        (Location { x: xx, y: yy }) == head,
                    )
                    &&& out@[yy * rw + w] == '\r'
                    &&& out@[yy * rw + w + 1] == '\n'
                } by {
                assert((yy + 1) * rw == yy * rw + rw) by (nonlinear_arith);
                if yy < y {
                    lemma_row_before(yy as int, y as int, rw as int);
                }
            }
            assert((y + 1) * rw == y * rw + rw) by (nonlinear_arith);
        }
        y += 1;
    }
    out
}

} // verus!
