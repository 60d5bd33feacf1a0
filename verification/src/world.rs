//! The game state that the steps of a tick work on.

use vstd::prelude::*;
use crate::grid::Position;
use crate::food::Food;
use crate::model::WorldModel;
use crate::snake::{Direction, GameOverEvent, GrowthEvent, LastTailPosition, Snake, SnakeTail};

verus! {

/// The identity of something on the grid: the number of its slot in the
/// registry. Identities are handed out in order and stay valid until the
/// entity is removed.
#[derive(Clone, Copy, PartialEq, Eq, Structural, Debug)]
pub struct Entity(pub usize);

/// What an entity is.
#[derive(Clone, Copy, PartialEq, Eq, Structural, Debug)]
pub enum Role {
    /// The snake's head, which carries the facing.
    Head(Snake),
    /// A body segment behind the head.
    Tail(SnakeTail),
    /// A food item.
    Food(Food),
}

/// What the registry holds of one entity.
#[derive(Clone, Copy, PartialEq, Eq, Structural, Debug)]
pub struct Record {
    pub role: Role,
    pub position: Position,
}

/// The body chain: the identity of the head, then the identity of each tail
/// segment, in the order in which they follow it.
pub struct SnakeTails(pub Vec<Entity>);

impl Default for SnakeTails {
    /// The empty chain.
    fn default() -> (tails: SnakeTails)
        ensures
            tails.0@ == Seq::<Entity>::empty(),
    {
        SnakeTails(Vec::new())
    }
}

/// Everything a tick reads and changes: the registry of entities, the body
/// chain, the last vacated cell and the pending signals.
pub struct World {
    pub(crate) records: Vec<Option<Record>>,
    pub(crate) body: SnakeTails,
    pub(crate) last_tail_position: LastTailPosition,
    pub(crate) growth_events: Vec<GrowthEvent>,
    pub(crate) game_over_event: Option<GameOverEvent>,
}

impl View for World {
    type V = WorldModel;

    open(crate) spec fn view(&self) -> WorldModel {
        WorldModel {
            records: self.records@,
            body: self.body.0@,
            last_vacated: self.last_tail_position.0,
            growth: self.growth_events@.len(),
            game_over: self.game_over_event is Some,
        }
    }
}

impl World {
    /// A world with nothing on the grid and no signal pending.
    pub fn new() -> (world: World)
        ensures
            world@ == WorldModel::empty(),
            world@.wf(),
    {
        let world = World {
            records: Vec::new(),
            body: SnakeTails::default(),
            last_tail_position: LastTailPosition::default(),
            growth_events: Vec::new(),
            game_over_event: None,
        };
        assert(world@.records =~= Seq::empty());
        world
    }

    /// Number of slots of the registry, removed entities included.
    pub fn entity_count(&self) -> (n: usize)
        ensures
            n == self@.records.len(),
    {
        self.records.len()
    }

    /// The record of `entity`, if the registry holds one.
    pub fn get(&self, entity: Entity) -> (record: Option<Record>)
        ensures
            record == if self@.holds(entity) {
                Some(self@.record(entity))
            } else {
                None
            },
    {
        if entity.0 < self.records.len() {
            self.records[entity.0]
        } else {
            None
        }
    }

    /// Number of segments of the chain, the head included.
    pub fn body_len(&self) -> (n: usize)
        ensures
            n == self@.body.len(),
    {
        self.body.0.len()
    }

    /// The identity of the chain's segment `k`; segment 0 is the head.
    pub fn segment(&self, k: usize) -> (entity: Entity)
        requires
            k < self@.body.len(),
        ensures
            entity == self@.body[k as int],
    {
        self.body.0[k]
    }

    /// The cell that the last segment left in the most recent move.
    pub fn last_tail_position(&self) -> (last: LastTailPosition)
        ensures
            last.0 == self@.last_vacated,
    {
        self.last_tail_position
    }

    /// Number of growth signals that wait to be handled.
    pub fn growth_pending(&self) -> (n: usize)
        ensures
            n == self@.growth,
    {
        self.growth_events.len()
    }

    /// Whether a game-over signal waits to be handled.
    pub fn game_over_pending(&self) -> (pending: bool)
        ensures
            pending == self@.game_over,
    {
        self.game_over_event.is_some()
    }

    /// Registers a new entity and returns its identity.
    pub(crate) fn spawn(&mut self, record: Record) -> (entity: Entity)
        ensures
            final(self)@ == old(self)@.with_entity(record),
            entity == old(self)@.next_entity(),
            entity.0 == old(self)@.records.len(),
    {
        let entity = Entity(self.records.len());
        self.records.push(Some(record));
        entity
    }

    /// The cells of the chain as they are now, the head's first.
    pub fn body_positions(&self) -> (cells: Vec<Position>)
        requires
            self@.wf(),
        ensures
            cells@ == self@.chain(),
    {
        let n = self.body.0.len();
        let mut cells: Vec<Position> = Vec::new();
        let mut k: usize = 0;
        while k < n
            invariant
                k <= n == self@.body.len(),
                self@.wf(),
                cells@ == self@.chain().take(k as int),
            decreases n - k,
        {
            let entity = self.body.0[k];
            assert(self@.holds(self@.body[k as int]));
            match self.records[entity.0] {
                Some(record) => {
                    cells.push(record.position);
                },
                None => {},
            }
            k += 1;
            assert(cells@ =~= self@.chain().take(k as int));
        }
        assert(self@.chain().take(n as int) =~= self@.chain());
        cells
    }

    /// The head's cell, if a snake is on the grid.
    pub fn head_position(&self) -> (cell: Option<Position>)
        requires
            self@.wf(),
        ensures
            cell == if self@.alive() {
                Some(self@.chain()[0])
            } else {
                None
            },
    {
        if self.body.0.len() == 0 {
            return None;
        }
        let head = self.body.0[0];
        assert(self@.holds(self@.body[0]));
        match self.records[head.0] {
            Some(record) => Some(record.position),
            None => None,
        }
    }

    /// The direction the snake faces, if a snake is on the grid.
    pub fn direction(&self) -> (facing: Option<Direction>)
        requires
            self@.wf(),
        ensures
            facing == if self@.alive() {
                Some(self@.facing())
            } else {
                None
            },
    {
        if self.body.0.len() == 0 {
            return None;
        }
        let head = self.body.0[0];
        assert(self@.holds(self@.body[0]));
        match self.records[head.0] {
            Some(Record { role: Role::Head(snake), .. }) => Some(snake.direction),
            _ => None,
        }
    }

    /// Decides whether the head can advance without leaving the machine's
    /// integers; without a snake it cannot.
    pub fn can_move(&self) -> (ok: bool)
        requires
            self@.wf(),
        ensures
            ok == (self@.alive() && self@.can_move()),
    {
        match (self.direction(), self.head_position()) {
            (Some(facing), Some(cell)) => facing.steps_from(cell),
            _ => false,
        }
    }

    /// Decides whether an episode is under way: a snake is on the grid and
    /// its head is in the arena.
    pub fn in_play(&self) -> (ok: bool)
        requires
            self@.wf(),
        ensures
            ok == self@.in_play(),
    {
        match self.head_position() {
            Some(cell) => cell.is_in_arena(),
            None => false,
        }
    }
}

} // verus!
