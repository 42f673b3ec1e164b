use snake_cli_game::driver::{frame, Controls, Key};
use snake_cli_game::field::Cell;
use snake_cli_game::game::{border_flags, Game, StepError};
use snake_cli_game::geometry::{Direction, Location};

fn cells_of(game: &Game) -> Vec<Cell> {
    let size = game.field().size();
    let mut out = Vec::new();
    for y in 0..size.height {
        for x in 0..size.width {
            out.push(game.field().get(x, y));
        }
    }
    out
}

fn count(game: &Game, cell: Cell) -> usize {
    cells_of(game).into_iter().filter(|c| *c == cell).count()
}

fn occupied(game: &Game) -> usize {
    cells_of(game).into_iter().filter(|c| *c != Cell::Empty).count()
}

/// A 10x10 level without borders whose food sits on the first cell.
fn open_level() -> Box<Game> {
    let mut game = Game::new(10, 10);
    game.prepare_level_from(false, false, 1);
    game
}

#[test]
fn new_game_is_empty() {
    let game = Game::new(4, 3);
    assert_eq!(game.field().size().width, 4);
    assert_eq!(game.field().size().height, 3);
    assert_eq!(count(&game, Cell::Empty), 12);
    assert_eq!(game.score(), 0);
}

#[test]
fn level_places_snake_and_food() {
    let game = open_level();
    assert_eq!(game.snake_head_location(), Location::new(5, 5));
    assert_eq!(game.field().get(5, 5), Cell::Snake(Direction::Right));
    assert_eq!(game.field().get(4, 5), Cell::Snake(Direction::Right));
    assert_eq!(game.field().get(0, 0), Cell::Food);
    assert_eq!(count(&game, Cell::Food), 1);
    assert_eq!(count(&game, Cell::Block), 0);
    assert_eq!(game.score(), 0);
}

#[test]
fn level_borders() {
    let mut game = Game::new(10, 10);
    game.prepare_level_from(true, false, 1);
    assert_eq!(game.field().get(0, 3), Cell::Block);
    assert_eq!(game.field().get(9, 7), Cell::Block);
    assert_eq!(game.field().get(3, 0), Cell::Empty);
    assert_eq!(count(&game, Cell::Block), 20);
    assert_eq!(game.field().get(1, 0), Cell::Food);

    game.prepare_level_from(false, true, 1);
    assert_eq!(game.field().get(3, 0), Cell::Block);
    assert_eq!(game.field().get(3, 9), Cell::Block);
    assert_eq!(count(&game, Cell::Block), 20);
    assert_eq!(game.field().get(0, 1), Cell::Food);

    game.prepare_level_from(true, true, 1);
    assert_eq!(count(&game, Cell::Block), 36);
    assert_eq!(game.field().get(1, 1), Cell::Food);
}

#[test]
fn food_draw_counts_empty_cells() {
    let mut game = Game::new(10, 10);
    // 98 empty cells: a draw of zero goes a full round to the last one.
    game.prepare_level_from(false, false, 0);
    assert_eq!(game.field().get(9, 9), Cell::Food);
    game.prepare_level_from(false, false, 55);
    assert_eq!(game.field().get(6, 5), Cell::Food);
    // The draw is first reduced below the area (100), then counted down
    // over the 98 empty cells, wrapping round the grid.
    game.prepare_level_from(false, false, 99);
    assert_eq!(game.field().get(0, 0), Cell::Food);
    game.prepare_level_from(false, false, 100);
    assert_eq!(game.field().get(9, 9), Cell::Food);
    game.prepare_level_from(false, false, 101);
    assert_eq!(game.field().get(0, 0), Cell::Food);
    assert_eq!(count(&game, Cell::Food), 1);
    // 78 empty cells between two side borders: a draw of 101 counts one.
    game.prepare_level_from(true, false, 101);
    assert_eq!(game.field().get(1, 0), Cell::Food);
    game.prepare_level_from(true, false, 79);
    assert_eq!(game.field().get(1, 0), Cell::Food);
}

#[test]
fn random_level_is_playable() {
    let mut game = Game::new(10, 10);
    for _ in 0..20 {
        game.prepare_level();
        assert_eq!(game.snake_head_location(), Location::new(5, 5));
        assert_eq!(game.field().get(4, 5), Cell::Snake(Direction::Right));
        assert_eq!(count(&game, Cell::Food), 1);
        assert_eq!(game.score(), 0);
        let blocks = count(&game, Cell::Block);
        assert!(blocks == 0 || blocks == 20 || blocks == 36);
    }
}

#[test]
fn step_right_moves_snake() {
    let mut game = open_level();
    assert_eq!(game.handle_next_step(Direction::Right), Ok(()));
    assert_eq!(game.snake_head_location(), Location::new(6, 5));
    assert_eq!(game.field().get(6, 5), Cell::Snake(Direction::Right));
    assert_eq!(game.field().get(5, 5), Cell::Snake(Direction::Right));
    assert_eq!(game.field().get(4, 5), Cell::Empty);
    assert_eq!(game.score(), 0);
}

#[test]
fn step_onto_food_grows_snake() {
    let mut game = Game::new(10, 10);
    game.prepare_level_from(false, false, 55);
    assert_eq!(game.field().get(6, 5), Cell::Food);
    assert_eq!(game.handle_next_step(Direction::Right), Ok(()));
    assert_eq!(game.score(), 1);
    assert_eq!(game.snake_head_location(), Location::new(6, 5));
    assert_eq!(game.field().get(6, 5), Cell::Snake(Direction::Right));
    assert_eq!(game.field().get(4, 5), Cell::Snake(Direction::Right));
    assert_eq!(count(&game, Cell::Snake(Direction::Right)), 3);
    assert_eq!(count(&game, Cell::Food), 1);
}

#[test]
fn reverse_request_is_ignored() {
    let mut game = open_level();
    assert_eq!(game.handle_next_step(Direction::Left), Ok(()));
    assert_eq!(game.snake_head_location(), Location::new(6, 5));
    assert_eq!(game.field().get(6, 5), Cell::Snake(Direction::Right));
}

#[test]
fn turn_changes_head_direction() {
    let mut game = open_level();
    assert_eq!(game.handle_next_step(Direction::Up), Ok(()));
    assert_eq!(game.snake_head_location(), Location::new(5, 4));
    assert_eq!(game.field().get(5, 4), Cell::Snake(Direction::Up));
    assert_eq!(game.field().get(5, 5), Cell::Snake(Direction::Up));
    assert_eq!(game.field().get(4, 5), Cell::Empty);
    assert_eq!(game.handle_next_step(Direction::Down), Ok(()));
    assert_eq!(game.snake_head_location(), Location::new(5, 3));
}

#[test]
fn move_keeps_occupied_count() {
    let mut game = open_level();
    let before = occupied(&game);
    assert_eq!(game.handle_next_step(Direction::Down), Ok(()));
    assert_eq!(occupied(&game), before);
    assert_eq!(game.handle_next_step(Direction::Down), Ok(()));
    assert_eq!(occupied(&game), before);
}

#[test]
fn head_wraps_round_the_grid() {
    let mut game = Game::new(10, 10);
    game.prepare_level_from(false, false, 0);
    for _ in 0..4 {
        assert_eq!(game.handle_next_step(Direction::Right), Ok(()));
    }
    assert_eq!(game.snake_head_location(), Location::new(9, 5));
    assert_eq!(game.handle_next_step(Direction::Right), Ok(()));
    assert_eq!(game.snake_head_location(), Location::new(0, 5));
    assert_eq!(game.field().get(9, 5), Cell::Snake(Direction::Right));
    assert_eq!(game.field().get(8, 5), Cell::Empty);
}

#[test]
fn step_onto_vacated_tail_is_allowed() {
    // On a grid two cells wide the head's right neighbour is the tail.
    let mut game = Game::new(2, 3);
    game.prepare_level_from(false, false, 1);
    assert_eq!(game.snake_head_location(), Location::new(1, 1));
    assert_eq!(game.handle_next_step(Direction::Right), Ok(()));
    assert_eq!(game.snake_head_location(), Location::new(0, 1));
    assert_eq!(game.field().get(0, 1), Cell::Snake(Direction::Right));
    assert_eq!(game.field().get(1, 1), Cell::Snake(Direction::Right));
    assert_eq!(game.score(), 0);
}

#[test]
fn step_into_own_body_fails() {
    // On a grid one cell high, moving down lands on the head itself.
    let mut game = Game::new(4, 1);
    game.prepare_level_from(false, false, 1);
    let before = cells_of(&game);
    assert_eq!(game.handle_next_step(Direction::Down), Err(StepError::IllegalMove));
    assert_eq!(cells_of(&game), before);
    assert_eq!(game.snake_head_location(), Location::new(2, 0));
}

#[test]
fn step_into_block_fails_and_changes_nothing() {
    let mut game = Game::new(10, 10);
    game.prepare_level_from(true, false, 1);
    for _ in 0..3 {
        assert_eq!(game.handle_next_step(Direction::Right), Ok(()));
    }
    assert_eq!(game.snake_head_location(), Location::new(8, 5));
    let before = cells_of(&game);
    assert_eq!(game.handle_next_step(Direction::Right), Err(StepError::IllegalMove));
    assert_eq!(cells_of(&game), before);
    assert_eq!(game.snake_head_location(), Location::new(8, 5));
    assert_eq!(game.score(), 0);
    // a refused turn leaves the head cell's direction alone too
    assert_eq!(game.field().get(8, 5), Cell::Snake(Direction::Right));
}

#[test]
fn eating_scores_repeatedly() {
    let mut game = Game::new(10, 10);
    game.prepare_level_from(false, false, 55);
    assert_eq!(game.handle_next_step(Direction::Right), Ok(()));
    game.place_food(1);
    assert_eq!(count(&game, Cell::Food), 2);
    assert_eq!(game.score(), 1);
}

#[test]
fn tick_restarts_after_refused_step() {
    let mut game = Game::new(10, 10);
    game.prepare_level_from(false, false, 55);
    let mut controls = Controls::new();
    assert!(controls.tick(&mut game));
    assert_eq!(game.score(), 1);
    controls.on_key(Key::Up);
    assert!(controls.tick(&mut game));
    assert_eq!(controls.direction, Direction::Up);
    // a 4x1 field: stepping down hits the head itself
    let mut small = Game::new(4, 1);
    small.prepare_level_from(false, false, 1);
    let mut c = Controls::new();
    c.on_key(Key::Down);
    assert!(!c.tick(&mut small));
    assert_eq!(c.direction, Direction::Right);
    assert_eq!(small.score(), 0);
}

#[test]
fn frame_shows_cells() {
    let mut game = Game::new(4, 3);
    game.prepare_level_from(true, false, 1);
    let text: String = frame(&game).into_iter().collect();
    assert_eq!(text, "\u{2588}\u{2665} \u{2588}\r\n\u{2588}\u{263A}\u{263B}\u{2588}\r\n\u{2588}  \u{2588}\r\n");
}

#[test]
fn one_cell_wide_game_starts_empty() {
    let game = Game::new(1, 5);
    assert_eq!(game.field().size().width, 1);
    assert_eq!(game.field().size().height, 5);
    assert_eq!(count(&game, Cell::Empty), 5);
    assert_eq!(game.snake_head_location(), Location::new(0, 0));
}

#[test]
fn border_flags_follow_draws() {
    assert_eq!(border_flags(true, true, true), (false, false));
    assert_eq!(border_flags(true, false, true), (false, false));
    assert_eq!(border_flags(false, true, false), (true, false));
    assert_eq!(border_flags(false, false, true), (false, true));
    assert_eq!(border_flags(false, true, true), (true, true));
}
