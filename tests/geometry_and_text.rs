use snake_cli_game::driver::{Controls, Key};
use snake_cli_game::field::Cell;
use snake_cli_game::geometry::{Direction, Location, Size};
use snake_cli_game::text::{first_word, longest};

#[test]
fn opposite_directions() {
    assert_eq!(Direction::Left.get_opposite_direction(), Direction::Right);
    assert_eq!(Direction::Right.get_opposite_direction(), Direction::Left);
    assert_eq!(Direction::Up.get_opposite_direction(), Direction::Down);
    assert_eq!(Direction::Down.get_opposite_direction(), Direction::Up);
}

#[test]
fn next_location_wraps_at_every_edge() {
    let size = Size::new(10, 7);
    assert_eq!(Direction::Right.get_next_location(Location::new(9, 3), size), Location::new(0, 3));
    assert_eq!(Direction::Left.get_next_location(Location::new(0, 3), size), Location::new(9, 3));
    assert_eq!(Direction::Down.get_next_location(Location::new(4, 6), size), Location::new(4, 0));
    assert_eq!(Direction::Up.get_next_location(Location::new(4, 0), size), Location::new(4, 6));
}

#[test]
fn next_location_inside() {
    let size = Size::new(10, 7);
    assert_eq!(Direction::Right.get_next_location(Location::new(2, 3), size), Location::new(3, 3));
    assert_eq!(Direction::Left.get_next_location(Location::new(2, 3), size), Location::new(1, 3));
    assert_eq!(Direction::Down.get_next_location(Location::new(2, 3), size), Location::new(2, 4));
    assert_eq!(Direction::Up.get_next_location(Location::new(2, 3), size), Location::new(2, 2));
}

#[test]
fn wide_grid_wraps_without_overflow() {
    let size = Size::new(65535, 1);
    assert_eq!(Direction::Left.get_next_location(Location::new(0, 0), size), Location::new(65534, 0));
    assert_eq!(Direction::Right.get_next_location(Location::new(65534, 0), size), Location::new(0, 0));
}

#[test]
fn area_and_zero() {
    assert_eq!(Size::new(10, 7).area(), 70);
    assert_eq!(Location::zero(), Location::new(0, 0));
    assert_ne!(Cell::Snake(Direction::Up), Cell::Snake(Direction::Down));
}

#[test]
fn longest_picks_longer() {
    let string1 = String::from("abcd");
    assert_eq!(longest(string1.as_str(), "xyz"), "abcd");
    assert_eq!(longest("ab", "xyz"), "xyz");
    assert_eq!(longest("abc", "xyz"), "xyz");
}

#[test]
fn first_word_stops_at_space() {
    assert_eq!(first_word("Hello World"), "Hello");
    assert_eq!(first_word("Hello"), "Hello");
    assert_eq!(first_word(""), "");
    assert_eq!(first_word(" lead"), "");
    assert_eq!(first_word("héllo wörld"), "héllo");
}

#[test]
fn keys_update_controls() {
    let mut controls = Controls::new();
    assert_eq!(controls.direction, Direction::Right);
    assert_eq!(controls.step_interval_ms, 150);
    assert!(!controls.on_key(Key::Up));
    assert_eq!(controls.direction, Direction::Up);
    assert!(!controls.on_key(Key::Faster));
    assert_eq!(controls.step_interval_ms, 100);
    controls.on_key(Key::Faster);
    controls.on_key(Key::Faster);
    assert_eq!(controls.step_interval_ms, 50);
    controls.on_key(Key::Slower);
    assert_eq!(controls.step_interval_ms, 100);
    assert!(!controls.on_key(Key::Other));
    assert_eq!(controls.direction, Direction::Up);
    assert!(controls.on_key(Key::Quit));
}
