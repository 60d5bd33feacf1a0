//! The mathematical model of the game state, and what each step of a tick
//! makes of it.

use vstd::prelude::*;
use crate::food::Food;
use crate::grid::Position;
use crate::snake::{Direction, Input, Snake, SnakeTail, next_direction};
use crate::world::{Entity, Record, Role};

verus! {

/// The cell where a new snake's head starts.
pub open spec fn start_head() -> Position {
    Position { x: 5, y: 5 }
}

/// The cell where a new snake's single tail segment starts: one cell behind
/// the head.
pub open spec fn start_tail() -> Position {
    Position { x: 5, y: 4 }
}

/// The record of a head at `at` that faces `direction`.
pub open spec fn head_record(at: Position, direction: Direction) -> Record {
    Record { role: Role::Head(Snake { direction }), position: at }
}

/// The record of a tail segment at `at`.
pub open spec fn tail_record(at: Position) -> Record {
    Record { role: Role::Tail(SnakeTail), position: at }
}

/// The record of a food item at `at`.
pub open spec fn food_record(at: Position) -> Record {
    Record { role: Role::Food(Food), position: at }
}

/// The game state as mathematics.
pub struct WorldModel {
    /// The registry: slot `i` holds the record of entity `i`, or nothing
    /// once that entity has been removed.
    pub records: Seq<Option<Record>>,
    /// The body chain: the head's identity first, then each tail segment's.
    pub body: Seq<Entity>,
    /// The cell that the last segment left in the most recent move.
    pub last_vacated: Option<Position>,
    /// Number of growth signals that wait to be handled.
    pub growth: nat,
    /// Whether a game-over signal waits to be handled.
    pub game_over: bool,
}

impl WorldModel {
    /// Whether the registry holds a record for `e`.
    pub open spec fn holds(self, e: Entity) -> bool {
        e.0 < self.records.len() && self.records[e.0 as int] is Some
    }

    /// The record of `e`.
    pub open spec fn record(self, e: Entity) -> Record
        recommends
            self.holds(e),
    {
        self.records[e.0 as int]->0
    }

    /// Whether slot `i` holds a part of a snake, head or tail.
    pub open spec fn snake_part(self, i: int) -> bool {
        &&& 0 <= i < self.records.len()
        &&& self.records[i] is Some
        &&& !(self.records[i]->0.role is Food)
    }

    /// Whether a snake is on the grid.
    pub open spec fn alive(self) -> bool {
        self.body.len() > 0
    }

    /// Whether the chain and the registry agree: the chain's identities are
    /// distinct and all registered, the first as the only head, the others
    /// as tail segments; and every snake part in the registry belongs to the
    /// chain.
    pub open spec fn coherent(self) -> bool {
        &&& self.records.len() <= usize::MAX
        &&& self.body.no_duplicates()
        &&& forall|k: int| 0 <= k < self.body.len() ==> self.holds(#[trigger] self.body[k])
        &&& forall|k: int|
            0 <= k < self.body.len() ==> (k == 0 <==> self.record(#[trigger] self.body[k]).role is Head)
        &&& forall|k: int|
            0 < k < self.body.len() ==> self.record(#[trigger] self.body[k]).role is Tail
        &&& forall|i: int| #[trigger]
            self.snake_part(i) ==> self.body.contains(Entity(i as usize))
    }

    /// The state's invariant: the chain and the registry agree, and the
    /// chain is empty or has a head and at least one tail segment.
    pub open spec fn wf(self) -> bool {
        &&& self.coherent()
        &&& self.body.len() != 1
    }

    /// The head's identity.
    pub open spec fn head(self) -> Entity
        recommends
            self.alive(),
    {
        self.body[0]
    }

    /// The direction the snake faces.
    pub open spec fn facing(self) -> Direction
        recommends
            self.wf(),
            self.alive(),
    {
        match self.record(self.head()).role {
            Role::Head(snake) => snake.direction,
            _ => Direction::Up,
        }
    }

    /// The cells of the chain, the head's first.
    pub open spec fn chain(self) -> Seq<Position> {
        Seq::new(self.body.len(), |k: int| self.record(self.body[k]).position)
    }

    /// Whether slot `i` holds a food item that lies at `at`.
    pub open spec fn food_at(self, i: int, at: Position) -> bool {
        &&& 0 <= i < self.records.len()
        &&& self.records[i] is Some
        &&& self.records[i]->0.role is Food
        &&& self.records[i]->0.position == at
    }

    /// Number of food items among the first `n` slots that lie at `at`.
    pub open spec fn food_count_at(self, n: int, at: Position) -> nat
        decreases n,
    {
        if n <= 0 {
            0
        } else {
            self.food_count_at(n - 1, at) + if self.food_at(n - 1, at) { 1nat } else { 0nat }
        }
    }

    /// The state before anything is on the grid.
    pub open spec fn empty() -> WorldModel {
        WorldModel {
            records: Seq::empty(),
            body: Seq::empty(),
            last_vacated: None,
            growth: 0,
            game_over: false,
        }
    }

    /// The state with the record of `e` replaced.
    pub open spec fn with_record(self, e: Entity, record: Record) -> WorldModel
        recommends
            self.holds(e),
    {
        WorldModel { records: self.records.update(e.0 as int, Some(record)), ..self }
    }

    /// The state with the snake facing `direction`.
    pub open spec fn with_facing(self, direction: Direction) -> WorldModel
        recommends
            self.alive(),
    {
        self.with_record(self.head(), head_record(self.record(self.head()).position, direction))
    }

    /// The state after the input step: the snake faces where the held keys
    /// ask, unless they ask for nothing or for a turn straight back.
    pub open spec fn after_input(self, input: Input) -> WorldModel {
        if self.alive() {
            self.with_facing(next_direction(self.facing(), input.requested()))
        } else {
            self
        }
    }

    /// Whether the head can advance without leaving the machine's integers.
    pub open spec fn can_move(self) -> bool
        recommends
            self.alive(),
    {
        self.facing().can_step(self.chain()[0])
    }

    /// The cell that the head moves to in the next move.
    pub open spec fn next_head(self) -> Position
        recommends
            self.alive(),
    {
        self.facing().step(self.chain()[0])
    }

    /// Whether the next move takes the head beyond a wall.
    pub open spec fn hits_wall(self) -> bool {
        !self.next_head().in_arena()
    }

    /// Whether the next move takes the head into a cell that a segment of
    /// the chain occupies before the move.
    pub open spec fn hits_self(self) -> bool {
        self.chain().contains(self.next_head())
    }

    /// The cells of the chain after the next move: the head's new cell, then
    /// for each tail segment the cell that the segment ahead of it has left.
    pub open spec fn moved_chain(self) -> Seq<Position> {
        seq![self.next_head()] + self.chain().drop_last()
    }

    /// What slot `i` holds after the next move.
    pub open spec fn moved_record(self, i: int) -> Option<Record> {
        let e = Entity(i as usize);
        if self.body.contains(e) {
            Some(
                Record {
                    role: self.records[i]->0.role,
                    position: self.moved_chain()[self.body.index_of(e)],
                },
            )
        } else {
            self.records[i]
        }
    }

    /// The state after the movement step. The head has advanced one cell in
    /// the facing direction and every tail segment has taken the cell of the
    /// segment ahead of it; the cell that the last segment left is recorded;
    /// and game over is signalled if the head has left the arena or has run
    /// into a cell that the chain occupied before the move.
    pub open spec fn after_move(self) -> WorldModel {
        if self.alive() {
            WorldModel {
                records: Seq::new(self.records.len(), |i: int| self.moved_record(i)),
                last_vacated: Some(self.chain().last()),
                game_over: self.game_over || self.hits_wall() || self.hits_self(),
                ..self
            }
        } else {
            self
        }
    }

    /// The state with every food item at `at` removed and one growth signal
    /// raised for each of them.
    pub open spec fn consumed(self, at: Position) -> WorldModel {
        WorldModel {
            records: Seq::new(
                self.records.len(),
                |i: int|
                    if self.food_at(i, at) {
                        None
                    } else {
                        self.records[i]
                    },
            ),
            growth: self.growth + self.food_count_at(self.records.len() as int, at),
            ..self
        }
    }

    /// The state after the feeding step: the food under the head is
    /// consumed. Without a snake nothing changes.
    pub open spec fn after_eat(self) -> WorldModel {
        if self.alive() {
            self.consumed(self.chain()[0])
        } else {
            self
        }
    }

    /// The state at the start of an episode: nothing on the grid but a head
    /// at the start cell, facing up, and one tail segment in the cell below
    /// it; no cell vacated yet, and no game-over signal.
    pub open spec fn canonical(growth: nat) -> WorldModel {
        WorldModel {
            records: seq![
                Some(head_record(start_head(), Direction::Up)),
                Some(tail_record(start_tail())),
            ],
            body: seq![Entity(0), Entity(1)],
            last_vacated: None,
            growth,
            game_over: false,
        }
    }

    /// The state after the game-over step: if game over is signalled, the
    /// snake, its tail and all food are gone and a new episode starts;
    /// otherwise nothing changes.
    pub open spec fn after_reset(self) -> WorldModel {
        if self.game_over {
            WorldModel::canonical(self.growth)
        } else {
            self
        }
    }

    /// Whether an episode is under way: the invariant holds, a snake is on
    /// the grid and its head is in the arena.
    pub open spec fn in_play(self) -> bool {
        &&& self.wf()
        &&& self.alive()
        &&& self.chain()[0].in_arena()
    }

    /// The state after one tick: the input step, then movement, feeding,
    /// growth and the game-over step, in this order.
    pub open spec fn after_tick(self, input: Input) -> WorldModel {
        self.after_input(input).after_move().after_eat().after_grow().after_reset()
    }

    /// The state with one more entity, which takes the next free identity.
    pub open spec fn with_entity(self, record: Record) -> WorldModel {
        WorldModel { records: self.records.push(Some(record)), ..self }
    }

    /// The identity that the next new entity takes.
    pub open spec fn next_entity(self) -> Entity {
        Entity(self.records.len() as usize)
    }

    /// The state with a new tail segment at `at`, appended to the chain.
    pub open spec fn with_tail(self, at: Position) -> WorldModel {
        WorldModel { body: self.body.push(self.next_entity()), ..self.with_entity(tail_record(at)) }
    }

    /// The state with a new food item at `at`.
    pub open spec fn with_food(self, at: Position) -> WorldModel {
        self.with_entity(food_record(at))
    }

    /// The state with every entity of the chain removed.
    pub open spec fn without_snake(self) -> WorldModel {
        WorldModel {
            records: Seq::new(
                self.records.len(),
                |i: int|
                    if self.body.contains(Entity(i as usize)) {
                        None
                    } else {
                        self.records[i]
                    },
            ),
            body: Seq::empty(),
            ..self
        }
    }

    /// The state after a snake is spawned: any earlier chain is gone, and a
    /// new head at the start cell, facing up, is followed by one tail
    /// segment one cell below it. No cell counts as vacated yet.
    pub open spec fn spawned(self) -> WorldModel {
        let cleared = self.without_snake();
        let head = cleared.next_entity();
        let with_head = cleared.with_entity(head_record(start_head(), Direction::Up));
        WorldModel {
            body: seq![head],
            last_vacated: None,
            ..with_head
        }.with_tail(start_tail())
    }

    /// The state after the growth step: if a growth signal is pending, the
    /// chain has one new tail segment at the last vacated cell, however many
    /// signals there were; and no growth signal is pending any more.
    pub open spec fn after_grow(self) -> WorldModel
        recommends
            self.growth > 0 ==> self.last_vacated is Some,
    {
        if self.growth > 0 {
            WorldModel { growth: 0, ..self.with_tail(self.last_vacated->0) }
        } else {
            self
        }
    }

    /// Whether `other` holds the same entities in the same roles, whatever
    /// their positions and facing.
    pub open spec fn same_roles(self, other: WorldModel) -> bool {
        &&& other.body == self.body
        &&& other.records.len() == self.records.len()
        &&& forall|i: int|
            0 <= i < self.records.len() ==> (#[trigger] other.records[i] is Some
                <==> self.records[i] is Some)
        &&& forall|i: int|
            0 <= i < self.records.len() && self.records[i] is Some ==> {
                let was = self.records[i]->0.role;
                let is = (#[trigger] other.records[i])->0.role;
                &&& was is Head <==> is is Head
                &&& was is Tail <==> is is Tail
                &&& was is Food <==> is is Food
            }
    }

    /// The agreement of chain and registry depends on the roles alone.
    pub proof fn lemma_coherent_of_same_roles(self, other: WorldModel)
        requires
            self.coherent(),
            self.same_roles(other),
        ensures
            other.coherent(),
    {
        assert forall|k: int| 0 <= k < other.body.len() implies other.holds(
            #[trigger] other.body[k],
        ) && (k == 0 <==> other.record(other.body[k]).role is Head) && (0 < k ==> other.record(
            other.body[k],
        ).role is Tail) by {
            assert(self.holds(self.body[k]));
            assert(other.records[self.body[k].0 as int] is Some);
        }
        assert forall|i: int| #[trigger] other.snake_part(i) implies other.body.contains(
            Entity(i as usize),
        ) by {
            assert(other.records[i] is Some);
            assert(self.snake_part(i));
        }
    }

    /// A move changes positions only: the same entities stay in the same
    /// roles.
    pub proof fn lemma_after_move_same_roles(self)
        requires
            self.wf(),
        ensures
            self.same_roles(self.after_move()),
    {
        let other = self.after_move();
        if self.alive() {
            assert forall|i: int| 0 <= i < self.records.len() implies (
            #[trigger] other.records[i] is Some <==> self.records[i] is Some) by {
                let e = Entity(i as usize);
                if self.body.contains(e) {
                    let k = choose|k: int| 0 <= k < self.body.len() && self.body[k] == e;
                    assert(self.holds(self.body[k]));
                }
            }
        }
    }

    /// Whether `other` differs from this state at most by food items that
    /// are gone.
    pub open spec fn same_but_food(self, other: WorldModel) -> bool {
        &&& other.body == self.body
        &&& other.records.len() == self.records.len()
        &&& forall|i: int|
            0 <= i < self.records.len() ==> #[trigger] other.records[i] == self.records[i] || (
            other.records[i] is None && self.records[i] is Some && self.records[i]->0.role is Food)
    }

    /// Taking food away keeps the chain and the registry in agreement.
    pub proof fn lemma_coherent_without_food(self, other: WorldModel)
        requires
            self.coherent(),
            self.same_but_food(other),
        ensures
            other.coherent(),
    {
        assert forall|k: int| 0 <= k < other.body.len() implies other.holds(
            #[trigger] other.body[k],
        ) && (k == 0 <==> other.record(other.body[k]).role is Head) && (0 < k ==> other.record(
            other.body[k],
        ).role is Tail) by {
            assert(self.holds(self.body[k]));
            assert(other.records[self.body[k].0 as int] == self.records[self.body[k].0 as int]);
        }
        assert forall|i: int| #[trigger] other.snake_part(i) implies other.body.contains(
            Entity(i as usize),
        ) by {
            assert(other.records[i] == self.records[i]);
            assert(self.snake_part(i));
        }
    }

    /// Turning the snake changes its facing and nothing else about the
    /// chain.
    pub proof fn lemma_after_input_chain(self, input: Input)
        requires
            self.wf(),
            self.alive(),
        ensures
            self.after_input(input).chain() == self.chain(),
            self.after_input(input).facing() == next_direction(self.facing(), input.requested()),
            self.same_roles(self.after_input(input)),
    {
        let other = self.after_input(input);
        assert(self.holds(self.body[0]));
        assert forall|k: int| 0 <= k < self.body.len() implies other.record(other.body[k]).position
            == self.record(self.body[k]).position by {
            assert(self.holds(self.body[k]));
        }
        assert(other.chain() =~= self.chain());
    }

    /// After a move the chain's cells are the head's new cell followed by
    /// the old cells of all segments but the last; the facing is unchanged.
    pub proof fn lemma_after_move_chain(self)
        requires
            self.wf(),
            self.alive(),
        ensures
            self.after_move().chain() == self.moved_chain(),
            self.after_move().facing() == self.facing(),
            self.after_move().body == self.body,
    {
        let other = self.after_move();
        assert forall|k: int| 0 <= k < self.body.len() implies other.record(other.body[k])
            == (Record {
            role: self.record(self.body[k]).role,
            position: self.moved_chain()[k],
        }) by {
            assert(self.holds(self.body[k]));
            assert(self.body.contains(self.body[k]));
            assert(self.body.index_of(self.body[k]) == k);
        }
        assert(other.chain() =~= self.moved_chain());
    }

    /// Feeding leaves the chain as it is.
    pub proof fn lemma_after_eat_chain(self)
        requires
            self.wf(),
        ensures
            self.after_eat().chain() == self.chain(),
            self.after_eat().body == self.body,
            self.alive() ==> self.after_eat().facing() == self.facing(),
            self.same_but_food(self.after_eat()),
    {
        let other = self.after_eat();
        assert forall|k: int| 0 <= k < self.body.len() implies other.record(other.body[k])
            == self.record(self.body[k]) by {
            assert(self.holds(self.body[k]));
        }
        assert(other.chain() =~= self.chain());
    }

    /// A new tail segment extends the chain by its cell, at the end.
    pub proof fn lemma_with_tail_chain(self, at: Position)
        requires
            self.coherent(),
            self.alive(),
            self.records.len() < usize::MAX,
        ensures
            self.with_tail(at).chain() == self.chain().push(at),
            self.with_tail(at).facing() == self.facing(),
            self.with_tail(at).coherent(),
    {
        let other = self.with_tail(at);
        assert forall|k: int| 0 <= k < self.body.len() implies other.record(other.body[k])
            == self.record(self.body[k]) && other.holds(other.body[k]) by {
            assert(self.holds(self.body[k]));
        }
        assert(other.chain() =~= self.chain().push(at));
        assert forall|k: int| 0 <= k < other.body.len() implies other.holds(
            #[trigger] other.body[k],
        ) && (k == 0 <==> other.record(other.body[k]).role is Head) && (0 < k ==> other.record(
            other.body[k],
        ).role is Tail) by {
            if k < self.body.len() {
                assert(self.holds(self.body[k]));
            }
        }
        assert forall|i: int| #[trigger] other.snake_part(i) implies other.body.contains(
            Entity(i as usize),
        ) by {
            if i < self.records.len() {
                assert(self.snake_part(i));
                let k = choose|k: int| 0 <= k < self.body.len() && self.body[k] == Entity(i as usize);
                assert(other.body[k] == Entity(i as usize));
            } else {
                assert(other.body[self.body.len() as int] == Entity(i as usize));
            }
        }
        assert forall|i: int, j: int|
            0 <= i < other.body.len() && 0 <= j < other.body.len() && i != j implies other.body[i]
            != other.body[j] by {
            if i < self.body.len() {
                assert(self.holds(self.body[i]));
            }
            if j < self.body.len() {
                assert(self.holds(self.body[j]));
            }
        }
    }

    /// The state at the start of an episode satisfies the invariant.
    pub proof fn lemma_canonical_wf(growth: nat)
        ensures
            WorldModel::canonical(growth).wf(),
            WorldModel::canonical(growth).chain() == seq![start_head(), start_tail()],
    {
        let fresh = WorldModel::canonical(growth);
        assert forall|i: int| #[trigger] fresh.snake_part(i) implies fresh.body.contains(
            Entity(i as usize),
        ) by {
            assert(fresh.body[i] == Entity(i as usize));
        }
        assert(fresh.chain() =~= seq![start_head(), start_tail()]);
    }

    /// Growth extends the chain by the last vacated cell if a growth signal
    /// is pending, and leaves it as it is otherwise.
    pub proof fn lemma_after_grow_chain(self)
        requires
            self.coherent(),
            self.alive(),
            self.growth > 0 ==> self.records.len() < usize::MAX,
        ensures
            self.after_grow().coherent(),
            self.after_grow().facing() == self.facing(),
            self.after_grow().chain() == if self.growth > 0 {
                self.chain().push(self.last_vacated->0)
            } else {
                self.chain()
            },
    {
        if self.growth > 0 {
            let longer = self.with_tail(self.last_vacated->0);
            self.lemma_with_tail_chain(self.last_vacated->0);
            longer.lemma_coherent_of_same_roles(self.after_grow());
            assert(self.after_grow().chain() =~= longer.chain());
        }
    }
}

} // verus!
