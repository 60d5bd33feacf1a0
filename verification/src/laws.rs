//! What holds of the steps of a tick, stated over the model and proved.

use vstd::prelude::*;
use crate::grid::{Position, ARENA_HEIGHT, ARENA_WIDTH};
use crate::model::{WorldModel, start_head, start_tail};
use crate::snake::{Direction, Input};
use crate::world::Entity;

verus! {

/// A move takes the head exactly one cell along exactly one axis, the way
/// the snake faces: up raises y, down lowers it, right raises x, left lowers
/// it, and the other coordinate stays.
pub proof fn law_head_advances_one_cell(m: WorldModel)
    requires
        m.wf(),
        m.alive(),
        m.can_move(),
    ensures
        m.after_move().chain()[0] == m.facing().step(m.chain()[0]),
        ({
            let from = m.chain()[0];
            let to = m.after_move().chain()[0];
            match m.facing() {
                Direction::Left => to.x == from.x - 1 && to.y == from.y,
                Direction::Right => to.x == from.x + 1 && to.y == from.y,
                Direction::Up => to.x == from.x && to.y == from.y + 1,
                Direction::Down => to.x == from.x && to.y == from.y - 1,
            }
        }),
{
    m.lemma_after_move_chain();
}

/// Every tail segment follows the segment ahead of it: after a move it is
/// in the cell that its predecessor held before the move, and the cell that
/// the last segment held before the move is the one recorded as vacated.
pub proof fn law_tail_follows(m: WorldModel, k: int)
    requires
        m.wf(),
        m.alive(),
        0 < k < m.chain().len(),
    ensures
        m.after_move().chain().len() == m.chain().len(),
        m.after_move().chain()[k] == m.chain()[k - 1],
        m.after_move().last_vacated == Some(m.chain().last()),
{
    m.lemma_after_move_chain();
}

/// The input step never turns the snake straight back. A request for the
/// opposite of the current facing leaves the facing as it is, and so does
/// the absence of a request; any other request becomes the facing.
pub proof fn law_no_reversal(m: WorldModel, input: Input)
    requires
        m.wf(),
        m.alive(),
    ensures
        m.after_input(input).facing() != m.facing().opposite_of(),
        input.requested() == Some(m.facing().opposite_of()) ==> m.after_input(input).facing()
            == m.facing(),
        input.requested() is None ==> m.after_input(input).facing() == m.facing(),
        input.requested() is Some && input.requested() != Some(m.facing().opposite_of())
            ==> m.after_input(input).facing() == input.requested()->0,
{
    m.lemma_after_input_chain(input);
}

/// Collisions of the snake with itself are decided by the cells that the
/// chain holds before the move. Game over is signalled by a move exactly
/// when it was signalled already, or the head leaves the arena, or the
/// head's new cell is one that a segment held before the move. This
/// includes the cell of the last segment, though that segment leaves it in
/// the same move.
pub proof fn law_collision_uses_cells_before_move(m: WorldModel)
    requires
        m.wf(),
        m.alive(),
    ensures
        m.after_move().game_over <==> m.game_over || !m.next_head().in_arena() || exists|k: int|
            0 <= k < m.chain().len() && m.chain()[k] == m.next_head(),
        m.next_head() == m.chain().last() ==> m.after_move().game_over,
{
    if m.next_head() == m.chain().last() {
        assert(m.chain()[m.chain().len() - 1] == m.next_head());
    }
}

/// A head that a move takes one cell beyond a wall, to x = -1, to x = the
/// arena's width, to y = -1 or to y = the arena's height, signals game over;
/// the signal is a flag, so it is raised once whatever else the head has
/// hit, and the game-over step clears it.
pub proof fn law_wall_collision(m: WorldModel)
    requires
        m.wf(),
        m.alive(),
        m.next_head().x == -1 || m.next_head().x == ARENA_WIDTH || m.next_head().y == -1
            || m.next_head().y == ARENA_HEIGHT,
    ensures
        m.after_move().game_over,
        !m.after_move().after_reset().game_over,
{
}

/// However many food items lie under the head, the chain grows by exactly
/// one segment in that tick, placed at the last vacated cell; without food
/// under the head, and no growth signal pending, it does not grow. No
/// growth signal is left afterwards.
pub proof fn law_growth_once_per_tick(m: WorldModel)
    requires
        m.wf(),
        m.alive(),
        m.last_vacated is Some,
        m.records.len() < usize::MAX,
    ensures
        m.after_eat().growth == m.growth + m.food_count_at(m.records.len() as int, m.chain()[0]),
        m.after_eat().growth > 0 ==> m.after_eat().after_grow().chain() == m.chain().push(
            m.last_vacated->0,
        ),
        m.after_eat().growth == 0 ==> m.after_eat().after_grow().chain() == m.chain(),
        m.after_eat().after_grow().growth == 0,
{
    let fed = m.after_eat();
    m.lemma_after_eat_chain();
    m.lemma_coherent_without_food(fed);
    fed.lemma_after_grow_chain();
}

/// Spawning a snake leaves exactly the start configuration as the chain,
/// whatever chain there was before: two segments, the head at the start
/// cell, the tail one cell below it, facing up. Food stays where it is.
pub proof fn law_spawn_restores_start(m: WorldModel)
    requires
        m.wf(),
        m.records.len() + 2 <= usize::MAX,
    ensures
        m.spawned().chain() == seq![start_head(), start_tail()],
        m.spawned().facing() == Direction::Up,
        m.spawned().in_play(),
        forall|i: int, at: Position| m.food_at(i, at) <==> m.spawned().food_at(i, at),
{
    let cleared = m.without_snake();
    let n = m.records.len() as int;
    let fresh = m.spawned();
    assert(fresh.body =~= seq![Entity(n as usize), Entity((n + 1) as usize)]);
    assert(fresh.chain() =~= seq![start_head(), start_tail()]);
    assert forall|i: int| #[trigger] fresh.snake_part(i) implies fresh.body.contains(
        Entity(i as usize),
    ) by {
        if i < n {
            if !m.body.contains(Entity(i as usize)) {
                assert(m.snake_part(i));
            }
        } else {
            assert(fresh.body[i - n] == Entity(i as usize));
        }
    }
    assert forall|i: int, at: Position| m.food_at(i, at) <==> fresh.food_at(i, at) by {
        if 0 <= i < n && m.body.contains(Entity(i as usize)) {
            let k = choose|k: int| 0 <= k < m.body.len() && m.body[k] == Entity(i as usize);
            assert(m.holds(m.body[k]));
            assert(m.record(m.body[k]).role is Head || m.record(m.body[k]).role is Tail);
        }
    }
}

/// After the game-over step has handled a signal, the episode is at its
/// start: the chain has two segments, the head at the start cell and the
/// tail one cell behind it, against the facing; the snake faces up; and the
/// signal is cleared.
pub proof fn law_reset_restores_start(m: WorldModel)
    requires
        m.game_over,
    ensures
        m.after_reset().body.len() == 2,
        m.after_reset().chain() == seq![start_head(), start_tail()],
        m.after_reset().facing() == Direction::Up,
        start_tail() == Direction::Up.opposite_of().step(start_head()),
        !m.after_reset().game_over,
        m.after_reset().in_play(),
{
    let fresh = m.after_reset();
    assert(fresh.chain() =~= seq![start_head(), start_tail()]);
    WorldModel::lemma_canonical_wf(m.growth);
}

/// While a snake is on the grid exactly one head exists, the first entity
/// of the chain; without a snake there is none.
pub proof fn law_exactly_one_head(m: WorldModel, i: int)
    requires
        m.wf(),
        0 <= i < m.records.len(),
    ensures
        (m.records[i] is Some && m.records[i]->0.role is Head) <==> (m.alive() && i == m.head().0),
{
    if m.alive() {
        assert(m.holds(m.body[0]));
    }
    if m.records[i] is Some && m.records[i]->0.role is Head {
        assert(m.snake_part(i));
        let k = choose|k: int| 0 <= k < m.body.len() && m.body[k] == Entity(i as usize);
        assert(m.record(m.body[k]).role is Head);
    }
}

/// Within one tick the chain grows by one segment if any growth signal is
/// pending after feeding, whatever their number, and by none otherwise.
pub proof fn law_tick_grows_by_at_most_one(m: WorldModel, input: Input)
    requires
        m.in_play(),
        m.records.len() < usize::MAX,
    ensures
        ({
            let fed = m.after_input(input).after_move().after_eat();
            let grown = fed.after_grow();
            &&& grown.chain().len() == m.chain().len() + if fed.growth > 0 {
                1int
            } else {
                0int
            }
            &&& fed.growth > 0 ==> grown.chain().last() == m.chain().last()
            &&& grown.growth == 0
        }),
{
    let turned = m.after_input(input);
    m.lemma_after_input_chain(input);
    m.lemma_coherent_of_same_roles(turned);
    let moved = turned.after_move();
    turned.lemma_after_move_same_roles();
    turned.lemma_coherent_of_same_roles(moved);
    turned.lemma_after_move_chain();
    let fed = moved.after_eat();
    moved.lemma_after_eat_chain();
    moved.lemma_coherent_without_food(fed);
    fed.lemma_after_grow_chain();
}

/// A tick keeps an episode under way: afterwards the invariant holds, the
/// head is in the arena and no signal is pending, whether the snake moved
/// on or the episode restarted. If no two segments shared a cell before the
/// tick, none do after it.
pub proof fn law_tick_keeps_episode(m: WorldModel, input: Input)
    requires
        m.in_play(),
        m.records.len() < usize::MAX,
    ensures
        m.after_tick(input).in_play(),
        m.after_tick(input).growth == 0,
        !m.after_tick(input).game_over,
        m.chain().no_duplicates() ==> m.after_tick(input).chain().no_duplicates(),
{
    let turned = m.after_input(input);
    m.lemma_after_input_chain(input);
    m.lemma_coherent_of_same_roles(turned);
    let moved = turned.after_move();
    turned.lemma_after_move_same_roles();
    turned.lemma_coherent_of_same_roles(moved);
    turned.lemma_after_move_chain();
    let fed = moved.after_eat();
    moved.lemma_after_eat_chain();
    moved.lemma_coherent_without_food(fed);
    let grown = fed.after_grow();
    fed.lemma_after_grow_chain();
    if grown.game_over {
        WorldModel::lemma_canonical_wf(grown.growth);
    } else {
        assert(grown.chain()[0] == turned.next_head());
        if m.chain().no_duplicates() {
            let cells = m.chain();
            let last = cells.last();
            assert(!cells.contains(turned.next_head()));
            assert forall|i: int, j: int|
                0 <= i < grown.chain().len() && 0 <= j < grown.chain().len() && i != j implies
                grown.chain()[i] != grown.chain()[j] by {
                let at = |k: int|
                    if k == 0 {
                        turned.next_head()
                    } else if k < cells.len() {
                        cells[k - 1]
                    } else {
                        last
                    };
                assert(grown.chain()[i] == at(i));
                assert(grown.chain()[j] == at(j));
                if i != 0 {
                    assert(cells.contains(at(i)));
                }
                if j != 0 {
                    assert(cells.contains(at(j)));
                }
            }
        }
    }
}

} // verus!
