use snake_game::grid::{Position, ARENA_HEIGHT, ARENA_WIDTH};
use snake_game::schedule::start;
use snake_game::snake::{snake_movement_input, turn, Direction, Input, Snake};

#[test]
fn opposite_pairs_left_with_right_and_up_with_down() {
    assert_eq!(Direction::Left.opposite(), Direction::Right);
    assert_eq!(Direction::Right.opposite(), Direction::Left);
    assert_eq!(Direction::Up.opposite(), Direction::Down);
    assert_eq!(Direction::Down.opposite(), Direction::Up);
}

#[test]
fn opposite_of_opposite_is_the_direction_itself() {
    for d in [Direction::Left, Direction::Up, Direction::Right, Direction::Down] {
        assert_eq!(d.opposite().opposite(), d);
        assert_ne!(d.opposite(), d);
    }
}

#[test]
fn advance_moves_one_cell_along_one_axis() {
    let from = Position::new(3, 7);
    assert_eq!(Direction::Up.advance(from), Position { x: 3, y: 8 });
    assert_eq!(Direction::Down.advance(from), Position { x: 3, y: 6 });
    assert_eq!(Direction::Left.advance(from), Position { x: 2, y: 7 });
    assert_eq!(Direction::Right.advance(from), Position { x: 4, y: 7 });
}

#[test]
fn advance_may_leave_the_arena() {
    assert_eq!(Direction::Left.advance(Position::new(0, 0)), Position { x: -1, y: 0 });
    assert_eq!(Direction::Down.advance(Position::new(0, 0)), Position { x: 0, y: -1 });
    assert_eq!(Direction::Right.advance(Position::new(9, 9)), Position { x: 10, y: 9 });
    assert_eq!(Direction::Up.advance(Position::new(9, 9)), Position { x: 9, y: 10 });
}

#[test]
fn steps_from_refuses_only_the_edge_of_the_integers() {
    let low = Position::new(i32::MIN, i32::MIN);
    let high = Position::new(i32::MAX, i32::MAX);
    assert!(!Direction::Left.steps_from(low));
    assert!(!Direction::Down.steps_from(low));
    assert!(Direction::Right.steps_from(low));
    assert!(Direction::Up.steps_from(low));
    assert!(!Direction::Right.steps_from(high));
    assert!(!Direction::Up.steps_from(high));
    assert!(Direction::Left.steps_from(high));
    assert!(Direction::Down.steps_from(high));
    assert!(Direction::Left.steps_from(Position::new(0, 0)));
}

#[test]
fn arena_is_ten_by_ten() {
    assert_eq!(ARENA_WIDTH, 10);
    assert_eq!(ARENA_HEIGHT, 10);
}

#[test]
fn arena_bounds_are_half_open() {
    assert!(Position::new(0, 0).is_in_arena());
    assert!(Position::new(9, 9).is_in_arena());
    assert!(Position::new(0, 9).is_in_arena());
    assert!(!Position::new(-1, 0).is_in_arena());
    assert!(!Position::new(0, -1).is_in_arena());
    assert!(!Position::new(10, 0).is_in_arena());
    assert!(!Position::new(0, 10).is_in_arena());
}

#[test]
fn positions_compare_by_both_coordinates() {
    assert_eq!(Position::new(2, 3), Position { x: 2, y: 3 });
    assert_ne!(Position::new(2, 3), Position::new(3, 2));
    assert_ne!(Position::new(2, 3), Position::new(2, 4));
}

#[test]
fn default_snake_faces_up() {
    assert_eq!(Snake::default().direction, Direction::Up);
}

#[test]
fn input_without_keys_requests_nothing() {
    assert_eq!(Input::none().resolve(), None);
}

#[test]
fn input_with_one_key_requests_its_direction() {
    for d in [Direction::Left, Direction::Up, Direction::Right, Direction::Down] {
        assert_eq!(Input::pressing(d).resolve(), Some(d));
    }
}

#[test]
fn input_prefers_left_then_right_then_down_then_up() {
    let all = Input { left: true, right: true, down: true, up: true };
    assert_eq!(all.resolve(), Some(Direction::Left));
    let no_left = Input { left: false, right: true, down: true, up: true };
    assert_eq!(no_left.resolve(), Some(Direction::Right));
    let vertical = Input { left: false, right: false, down: true, up: true };
    assert_eq!(vertical.resolve(), Some(Direction::Down));
    let up = Input { left: false, right: false, down: false, up: true };
    assert_eq!(up.resolve(), Some(Direction::Up));
}

#[test]
fn turn_keeps_the_facing_without_a_request() {
    for d in [Direction::Left, Direction::Up, Direction::Right, Direction::Down] {
        assert_eq!(turn(d, None), d);
    }
}

#[test]
fn turn_rejects_the_opposite_and_takes_anything_else() {
    let all = [Direction::Left, Direction::Up, Direction::Right, Direction::Down];
    for current in all {
        for request in all {
            let expected = if request == current.opposite() { current } else { request };
            assert_eq!(turn(current, Some(request)), expected);
        }
    }
}

#[test]
fn facing_right_a_request_for_left_is_ignored() {
    let mut world = start();
    snake_movement_input(&mut world, Input::pressing(Direction::Right));
    assert_eq!(world.direction(), Some(Direction::Right));
    snake_movement_input(&mut world, Input::pressing(Direction::Left));
    assert_eq!(world.direction(), Some(Direction::Right));
}

#[test]
fn facing_up_a_request_for_down_is_ignored() {
    let mut world = start();
    assert_eq!(world.direction(), Some(Direction::Up));
    snake_movement_input(&mut world, Input::pressing(Direction::Down));
    assert_eq!(world.direction(), Some(Direction::Up));
}

#[test]
fn facing_persists_without_input() {
    let mut world = start();
    snake_movement_input(&mut world, Input::pressing(Direction::Left));
    snake_movement_input(&mut world, Input::none());
    assert_eq!(world.direction(), Some(Direction::Left));
}

#[test]
fn input_changes_the_facing_and_no_position() {
    let mut world = start();
    snake_movement_input(&mut world, Input::pressing(Direction::Right));
    assert_eq!(world.body_positions(), vec![Position::new(5, 5), Position::new(5, 4)]);
    assert_eq!(world.body_len(), 2);
    assert_eq!(world.entity_count(), 2);
}

#[test]
fn a_quarter_turn_then_another_reverses_the_snake() {
    let mut world = start();
    snake_movement_input(&mut world, Input::pressing(Direction::Left));
    assert_eq!(world.direction(), Some(Direction::Left));
    snake_movement_input(&mut world, Input::pressing(Direction::Down));
    assert_eq!(world.direction(), Some(Direction::Down));
}
