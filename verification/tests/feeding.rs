use snake_game::food::{consume, food_position, food_spawner, spawn_food, Food};
use snake_game::grid::Position;
use snake_game::schedule::{start, tick};
use snake_game::snake::{
    game_over, snake_eat, snake_grow, snake_movement, snake_movement_input, spawn_snake, spawn_tail,
    Direction, Input, LastTailPosition, Snake, SnakeTail,
};
use snake_game::world::{Entity, Record, Role, World};

fn chain(pairs: &[(i32, i32)]) -> Vec<Position> {
    pairs.iter().map(|&(x, y)| Position::new(x, y)).collect()
}

#[test]
fn food_position_reduces_each_number_modulo_the_arena() {
    assert_eq!(food_position(0, 0), Position { x: 0, y: 0 });
    assert_eq!(food_position(9, 9), Position { x: 9, y: 9 });
    assert_eq!(food_position(10, 20), Position { x: 0, y: 0 });
    assert_eq!(food_position(13, 27), Position { x: 3, y: 7 });
    assert_eq!(food_position(u32::MAX, u32::MAX - 1), Position { x: 5, y: 4 });
}

#[test]
fn food_position_is_always_in_the_arena() {
    let mut seed: u32 = 12345;
    for _ in 0..1000 {
        seed = seed.wrapping_mul(1664525).wrapping_add(1013904223);
        let other: u32 = seed.rotate_left(13);
        assert!(food_position(seed, other).is_in_arena());
    }
}

#[test]
fn spawn_food_registers_a_food_item_at_the_cell() {
    let mut world = start();
    let food = spawn_food(&mut world, Position::new(3, 8));
    assert_eq!(food, Entity(2));
    assert_eq!(world.entity_count(), 3);
    assert_eq!(
        world.get(food),
        Some(Record { role: Role::Food(Food), position: Position { x: 3, y: 8 } })
    );
    assert_eq!(world.body_len(), 2);
    assert_eq!(world.growth_pending(), 0);
}

#[test]
fn food_may_share_a_cell_with_other_food_and_with_the_snake() {
    let mut world = start();
    let a = spawn_food(&mut world, Position::new(5, 5));
    let b = spawn_food(&mut world, Position::new(5, 5));
    assert_ne!(a, b);
    assert_eq!(world.get(a), world.get(b));
    assert_eq!(world.entity_count(), 4);
}

#[test]
fn food_spawner_adds_one_food_item_inside_the_arena() {
    let mut world = start();
    for round in 0..200usize {
        food_spawner(&mut world);
        assert_eq!(world.entity_count(), 3 + round);
        match world.get(Entity(2 + round)) {
            Some(Record { role: Role::Food(_), position }) => assert!(position.is_in_arena()),
            other => panic!("no food item was added: {:?}", other),
        }
    }
    assert_eq!(world.body_positions(), chain(&[(5, 5), (5, 4)]));
    assert_eq!(world.growth_pending(), 0);
    assert!(!world.game_over_pending());
}

#[test]
fn food_spawner_does_not_always_choose_the_same_cell() {
    let mut world = World::new();
    for _ in 0..200 {
        food_spawner(&mut world);
    }
    let first = world.get(Entity(0));
    let mut differs = false;
    for i in 1..200usize {
        if world.get(Entity(i)) != first {
            differs = true;
        }
    }
    assert!(differs);
}

#[test]
fn eating_removes_the_food_under_the_head_and_signals_growth() {
    let mut world = start();
    let food = spawn_food(&mut world, Position::new(5, 6));
    snake_movement(&mut world);
    snake_eat(&mut world);
    assert_eq!(world.get(food), None);
    assert_eq!(world.growth_pending(), 1);
    assert_eq!(world.entity_count(), 3);
    assert_eq!(world.body_positions(), chain(&[(5, 6), (5, 5)]));
}

#[test]
fn eating_leaves_food_elsewhere_alone() {
    let mut world = start();
    let near = spawn_food(&mut world, Position::new(5, 7));
    let under_tail = spawn_food(&mut world, Position::new(5, 5));
    snake_movement(&mut world);
    snake_eat(&mut world);
    assert_eq!(world.growth_pending(), 0);
    assert!(world.get(near).is_some());
    assert!(world.get(under_tail).is_some());
}

#[test]
fn eating_uses_the_head_cell_after_the_move() {
    let mut world = start();
    let at_old_head = spawn_food(&mut world, Position::new(5, 5));
    tick(&mut world, Input::none());
    assert!(world.get(at_old_head).is_some());
    assert_eq!(world.body_len(), 2);
}

#[test]
fn each_food_item_under_the_head_raises_its_own_signal() {
    let mut world = start();
    let a = spawn_food(&mut world, Position::new(5, 6));
    let b = spawn_food(&mut world, Position::new(5, 6));
    let c = spawn_food(&mut world, Position::new(6, 6));
    snake_movement(&mut world);
    snake_eat(&mut world);
    assert_eq!(world.growth_pending(), 2);
    assert_eq!(world.get(a), None);
    assert_eq!(world.get(b), None);
    assert!(world.get(c).is_some());
}

#[test]
fn two_food_items_in_one_tick_grow_the_chain_by_one() {
    let mut world = start();
    spawn_food(&mut world, Position::new(5, 6));
    spawn_food(&mut world, Position::new(5, 6));
    snake_movement(&mut world);
    snake_eat(&mut world);
    snake_grow(&mut world);
    assert_eq!(world.body_len(), 3);
    assert_eq!(world.growth_pending(), 0);
    assert_eq!(world.body_positions(), chain(&[(5, 6), (5, 5), (5, 4)]));
    snake_grow(&mut world);
    assert_eq!(world.body_len(), 3);
}

#[test]
fn two_food_items_in_one_whole_tick_grow_the_chain_by_one() {
    let mut world = start();
    spawn_food(&mut world, Position::new(5, 6));
    spawn_food(&mut world, Position::new(5, 6));
    tick(&mut world, Input::none());
    assert_eq!(world.body_len(), 3);
    assert_eq!(world.growth_pending(), 0);
    tick(&mut world, Input::none());
    assert_eq!(world.body_len(), 3);
    assert_eq!(world.body_positions(), chain(&[(5, 7), (5, 6), (5, 5)]));
}

#[test]
fn growth_without_a_signal_changes_nothing() {
    let mut world = start();
    snake_movement(&mut world);
    snake_grow(&mut world);
    assert_eq!(world.body_len(), 2);
    assert_eq!(world.entity_count(), 2);
    assert_eq!(world.body_positions(), chain(&[(5, 6), (5, 5)]));
}

#[test]
fn the_new_segment_is_a_tail_at_the_last_vacated_cell() {
    let mut world = start();
    spawn_food(&mut world, Position::new(5, 6));
    snake_movement(&mut world);
    assert_eq!(world.last_tail_position(), LastTailPosition(Some(Position::new(5, 4))));
    snake_eat(&mut world);
    snake_grow(&mut world);
    let newest = world.segment(2);
    assert_eq!(newest, Entity(3));
    assert_eq!(
        world.get(newest),
        Some(Record { role: Role::Tail(SnakeTail), position: Position { x: 5, y: 4 } })
    );
}

#[test]
fn three_moves_up_then_food_grows_the_chain_at_the_cell_the_tail_left() {
    let mut world = start();
    assert_eq!(world.body_positions(), chain(&[(5, 5), (5, 4)]));
    assert_eq!(world.direction(), Some(Direction::Up));

    snake_movement_input(&mut world, Input::pressing(Direction::Up));
    snake_movement(&mut world);
    assert_eq!(world.body_positions(), chain(&[(5, 6), (5, 5)]));
    snake_eat(&mut world);
    snake_grow(&mut world);

    snake_movement_input(&mut world, Input::pressing(Direction::Up));
    snake_movement(&mut world);
    assert_eq!(world.body_positions(), chain(&[(5, 7), (5, 6)]));
    snake_eat(&mut world);
    snake_grow(&mut world);

    let food = spawn_food(&mut world, Position::new(5, 8));
    snake_movement_input(&mut world, Input::pressing(Direction::Up));
    snake_movement(&mut world);
    assert_eq!(world.body_positions(), chain(&[(5, 8), (5, 7)]));
    assert!(!world.game_over_pending());
    snake_eat(&mut world);
    assert_eq!(world.get(food), None);
    assert_eq!(world.growth_pending(), 1);
    snake_grow(&mut world);
    assert_eq!(world.growth_pending(), 0);
    assert_eq!(world.body_len(), 3);
    assert_eq!(world.body_positions(), chain(&[(5, 8), (5, 7), (5, 6)]));
    game_over(&mut world);
    assert_eq!(world.body_positions(), chain(&[(5, 8), (5, 7), (5, 6)]));
}

#[test]
fn three_ticks_up_then_food_grows_the_chain() {
    let mut world = start();
    tick(&mut world, Input::pressing(Direction::Up));
    assert_eq!(world.body_positions(), chain(&[(5, 6), (5, 5)]));
    tick(&mut world, Input::pressing(Direction::Up));
    assert_eq!(world.body_positions(), chain(&[(5, 7), (5, 6)]));
    spawn_food(&mut world, Position::new(5, 8));
    tick(&mut world, Input::pressing(Direction::Up));
    assert_eq!(world.body_positions(), chain(&[(5, 8), (5, 7), (5, 6)]));
    assert_eq!(world.growth_pending(), 0);
    assert!(!world.game_over_pending());
    assert!(world.in_play());
}

#[test]
fn moving_left_into_the_wall_restarts_the_episode() {
    let mut world = start();
    for _ in 0..5 {
        tick(&mut world, Input::pressing(Direction::Left));
    }
    assert_eq!(world.head_position(), Some(Position::new(0, 5)));
    assert_eq!(world.direction(), Some(Direction::Left));
    snake_movement_input(&mut world, Input::pressing(Direction::Left));
    snake_movement(&mut world);
    assert_eq!(world.head_position(), Some(Position::new(-1, 5)));
    assert!(world.game_over_pending());
    snake_eat(&mut world);
    snake_grow(&mut world);
    game_over(&mut world);
    assert!(!world.game_over_pending());
    assert_eq!(world.body_len(), 2);
    assert_eq!(world.body_positions(), chain(&[(5, 5), (5, 4)]));
    assert_eq!(world.direction(), Some(Direction::Up));
}

#[test]
fn a_tick_into_the_wall_ends_in_the_start_state() {
    let mut world = start();
    spawn_food(&mut world, Position::new(1, 1));
    for _ in 0..6 {
        tick(&mut world, Input::pressing(Direction::Left));
    }
    assert_eq!(world.entity_count(), 2);
    assert_eq!(
        world.get(Entity(0)),
        Some(Record {
            role: Role::Head(Snake { direction: Direction::Up }),
            position: Position { x: 5, y: 5 },
        })
    );
    assert_eq!(
        world.get(Entity(1)),
        Some(Record { role: Role::Tail(SnakeTail), position: Position { x: 5, y: 4 } })
    );
    assert_eq!(world.segment(0), Entity(0));
    assert_eq!(world.segment(1), Entity(1));
    assert_eq!(world.last_tail_position(), LastTailPosition(None));
    assert!(!world.game_over_pending());
    assert!(world.in_play());
}

#[test]
fn reset_removes_food_and_a_grown_tail() {
    let mut world = start();
    spawn_food(&mut world, Position::new(5, 6));
    spawn_food(&mut world, Position::new(0, 0));
    tick(&mut world, Input::none());
    assert_eq!(world.body_len(), 3);
    for _ in 0..4 {
        tick(&mut world, Input::none());
    }
    assert_eq!(world.body_len(), 2);
    assert_eq!(world.entity_count(), 2);
    assert_eq!(world.body_positions(), chain(&[(5, 5), (5, 4)]));
    assert_eq!(world.direction(), Some(Direction::Up));
}

#[test]
fn game_over_step_without_a_signal_changes_nothing() {
    let mut world = start();
    let food = spawn_food(&mut world, Position::new(2, 2));
    tick(&mut world, Input::pressing(Direction::Right));
    game_over(&mut world);
    assert_eq!(world.body_positions(), chain(&[(6, 5), (5, 5)]));
    assert_eq!(world.direction(), Some(Direction::Right));
    assert!(world.get(food).is_some());
    assert_eq!(world.last_tail_position(), LastTailPosition(Some(Position::new(5, 4))));
}

#[test]
fn self_collision_restarts_the_episode() {
    let mut world = start();
    spawn_tail(&mut world, Position::new(6, 4));
    spawn_tail(&mut world, Position::new(6, 5));
    spawn_tail(&mut world, Position::new(6, 6));
    tick(&mut world, Input::pressing(Direction::Right));
    assert_eq!(world.body_positions(), chain(&[(5, 5), (5, 4)]));
    assert_eq!(world.entity_count(), 2);
    assert!(!world.game_over_pending());
}

#[test]
fn food_eaten_on_the_colliding_tick_does_not_survive_the_reset() {
    let mut world = start();
    spawn_tail(&mut world, Position::new(5, 6));
    spawn_food(&mut world, Position::new(5, 6));
    tick(&mut world, Input::none());
    assert_eq!(world.body_len(), 2);
    assert_eq!(world.entity_count(), 2);
    assert_eq!(world.growth_pending(), 0);
}

#[test]
fn spawn_snake_discards_the_earlier_chain_and_keeps_food() {
    let mut world = start();
    let food = spawn_food(&mut world, Position::new(1, 2));
    let third = spawn_tail(&mut world, Position::new(5, 3));
    snake_movement_input(&mut world, Input::pressing(Direction::Left));
    snake_movement(&mut world);
    spawn_snake(&mut world);
    assert_eq!(world.get(Entity(0)), None);
    assert_eq!(world.get(Entity(1)), None);
    assert_eq!(world.get(third), None);
    assert!(world.get(food).is_some());
    assert_eq!(world.body_len(), 2);
    assert_eq!(world.segment(0), Entity(4));
    assert_eq!(world.segment(1), Entity(5));
    assert_eq!(world.body_positions(), chain(&[(5, 5), (5, 4)]));
    assert_eq!(world.direction(), Some(Direction::Up));
    assert_eq!(world.last_tail_position(), LastTailPosition(None));
    assert_eq!(world.entity_count(), 6);
}

#[test]
fn a_long_run_of_ticks_keeps_the_episode_in_play() {
    let mut world = start();
    let turns = [Direction::Left, Direction::Up, Direction::Right, Direction::Down];
    for round in 0..400usize {
        if round % 3 == 0 {
            food_spawner(&mut world);
        }
        tick(&mut world, Input::pressing(turns[(round / 2) % 4]));
        assert!(world.in_play());
        assert_eq!(world.growth_pending(), 0);
        assert!(!world.game_over_pending());
        assert!(world.body_len() >= 2);
        let cells = world.body_positions();
        for i in 0..cells.len() {
            for j in 0..i {
                assert_ne!(cells[i], cells[j]);
            }
        }
    }
}

#[test]
fn consume_removes_all_food_at_the_cell_and_counts_it() {
    let mut world = start();
    let a = spawn_food(&mut world, Position::new(2, 3));
    let b = spawn_food(&mut world, Position::new(3, 2));
    let c = spawn_food(&mut world, Position::new(2, 3));
    let d = spawn_food(&mut world, Position::new(2, 3));
    consume(&mut world, Position::new(2, 3));
    assert_eq!(world.growth_pending(), 3);
    assert_eq!(world.get(a), None);
    assert_eq!(world.get(c), None);
    assert_eq!(world.get(d), None);
    assert_eq!(
        world.get(b),
        Some(Record { role: Role::Food(Food), position: Position { x: 3, y: 2 } })
    );
    assert_eq!(world.entity_count(), 6);
    assert_eq!(world.body_positions(), chain(&[(5, 5), (5, 4)]));
}

#[test]
fn consume_at_an_empty_cell_changes_nothing() {
    let mut world = start();
    let food = spawn_food(&mut world, Position::new(2, 3));
    consume(&mut world, Position::new(3, 3));
    assert_eq!(world.growth_pending(), 0);
    assert!(world.get(food).is_some());
}

#[test]
fn consume_never_removes_a_part_of_the_snake() {
    let mut world = start();
    consume(&mut world, Position::new(5, 5));
    consume(&mut world, Position::new(5, 4));
    assert_eq!(world.growth_pending(), 0);
    assert_eq!(world.body_positions(), chain(&[(5, 5), (5, 4)]));
    assert!(world.get(Entity(0)).is_some());
    assert!(world.get(Entity(1)).is_some());
}

#[test]
fn growth_signals_add_up_until_the_growth_step() {
    let mut world = start();
    snake_movement(&mut world);
    spawn_food(&mut world, Position::new(1, 1));
    spawn_food(&mut world, Position::new(2, 2));
    consume(&mut world, Position::new(1, 1));
    consume(&mut world, Position::new(2, 2));
    assert_eq!(world.growth_pending(), 2);
    snake_grow(&mut world);
    assert_eq!(world.growth_pending(), 0);
    assert_eq!(world.body_len(), 3);
}
