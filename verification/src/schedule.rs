//! The fixed tick: the steps of the simulation in their order.

use vstd::prelude::*;
use crate::snake::{Input, game_over, snake_eat, snake_grow, snake_movement, snake_movement_input, spawn_snake};
use crate::world::World;
use crate::model::WorldModel;

verus! {

/// A world at the start of an episode: a new snake and nothing else.
pub fn start() -> (world: World)
    ensures
        world@ == WorldModel::canonical(0),
        world@.in_play(),
{
    let mut world = World::new();
    spawn_snake(&mut world);
    assert(world@.records =~= WorldModel::canonical(0).records);
    assert(world@.body =~= WorldModel::canonical(0).body);
    world
}

/// One tick of the simulation: resolves the input to a facing, moves the
/// snake and checks for collisions, feeds it, lets it grow, and restarts the
/// episode if a collision was signalled. An episode that is under way is
/// still under way afterwards, with no signal left pending.
pub fn tick(world: &mut World, input: Input)
    requires
        old(world)@.in_play(),
    ensures
        final(world)@ == old(world)@.after_tick(input),
        final(world)@.in_play(),
        final(world)@.growth == 0,
        !final(world)@.game_over,
{
    let ghost before = world@;
    snake_movement_input(world, input);
    let ghost turned = world@;
    proof {
        before.lemma_after_input_chain(input);
    }
    snake_movement(world);
    let ghost moved = world@;
    proof {
        turned.lemma_after_move_chain();
    }
    snake_eat(world);
    let ghost fed = world@;
    proof {
        moved.lemma_after_eat_chain();
    }
    snake_grow(world);
    let ghost grown = world@;
    proof {
        assert(fed.growth > 0 ==> grown.records.len() == fed.records.len() + 1);
        fed.lemma_after_grow_chain();
    }
    game_over(world);
}

} // verus!
