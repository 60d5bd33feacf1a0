//! Food: the items that lie on the grid until the head reaches them.

use vstd::prelude::*;
use crate::grid::{Position, ARENA_HEIGHT, ARENA_WIDTH};
use crate::snake::GrowthEvent;
use crate::world::{Entity, Record, Role, World};

verus! {

/// Marks a food item.
#[derive(Clone, Copy, PartialEq, Eq, Structural, Debug)]
pub struct Food;

/// The cell of the arena that two drawn numbers select: each number is
/// reduced modulo the arena's extent along its axis.
pub open spec fn cell_of(rx: u32, ry: u32) -> Position {
    Position { x: (rx % ARENA_WIDTH) as i32, y: (ry % ARENA_HEIGHT) as i32 }
}

/// Computes the cell of the arena that two drawn numbers select.
pub fn food_position(rx: u32, ry: u32) -> (at: Position)
    ensures
        at == cell_of(rx, ry),
        at.in_arena(),
{
    Position { x: (rx % ARENA_WIDTH) as i32, y: (ry % ARENA_HEIGHT) as i32 }
}

/// Puts a food item at `position` and returns its identity. The cell may
/// already hold food or a part of the snake.
pub fn spawn_food(world: &mut World, position: Position) -> (entity: Entity)
    requires
        old(world)@.wf(),
    ensures
        final(world)@ == old(world)@.with_food(position),
        final(world)@.wf(),
        entity == old(world)@.next_entity(),
{
    let ghost before = world@;
    let entity = world.spawn(Record { role: Role::Food(Food), position });
    proof {
        let after = world@;
        assert(world.records.len() == after.records.len());
        assert forall|k: int| 0 <= k < after.body.len() implies after.holds(
            #[trigger] after.body[k],
        ) && (k == 0 <==> after.record(after.body[k]).role is Head) && (0 < k ==> after.record(
            after.body[k],
        ).role is Tail) by {
            assert(before.holds(before.body[k]));
        }
        assert forall|i: int| #[trigger] after.snake_part(i) implies after.body.contains(
            Entity(i as usize),
        ) by {
            assert(before.snake_part(i));
        }
    }
    entity
}

/// Removes every food item that lies at `position` and raises one growth
/// signal for each item removed.
pub fn consume(world: &mut World, position: Position)
    requires
        old(world)@.wf(),
    ensures
        final(world)@ == old(world)@.consumed(position),
        final(world)@.wf(),
{
    let ghost before = world@;
    let n = world.records.len();
    let mut i: usize = 0;
    while i < n
        invariant
            i <= n == before.records.len(),
            world@.body == before.body,
            world@.last_vacated == before.last_vacated,
            world@.game_over == before.game_over,
            world@.growth == before.growth + before.food_count_at(i as int, position),
            world@.records.len() == n,
            forall|j: int|
                0 <= j < n ==> #[trigger] world@.records[j] == if j < i && before.food_at(
                    j,
                    position,
                ) {
                    None
                } else {
                    before.records[j]
                },
        decreases n - i,
    {
        let found = match world.records[i] {
            Some(Record { role: Role::Food(_), position: at }) => at == position,
            _ => false,
        };
        assert(found == before.food_at(i as int, position));
        if found {
            world.records[i] = None;
            world.growth_events.push(GrowthEvent);
        }
        i += 1;
    }
    proof {
        assert(world@.records =~= before.consumed(position).records);
        before.lemma_coherent_without_food(world@);
    }
}

/// Draws a number with `rand::random`. Nothing is claimed of the number
/// that comes back.
#[verifier::external_body]
fn random_number() -> u32 {
    rand::random::<u32>()
}

/// Puts one food item at a cell of the arena drawn at random. The cell is
/// not checked against the snake or other food.
pub fn food_spawner(world: &mut World)
    requires
        old(world)@.wf(),
    ensures
        exists|at: Position| at.in_arena() && final(world)@ == old(world)@.with_food(at),
        final(world)@.wf(),
{
    let rx = random_number();
    let ry = random_number();
    let at = food_position(rx, ry);
    spawn_food(world, at);
}

} // verus!
