//! The snake: its facing, its body chain, the signals it raises, and the
//! steps that one tick applies to it.

use vstd::prelude::*;
use crate::grid::Position;
use crate::food::consume;
use crate::model::WorldModel;
use crate::world::{Entity, Record, Role, SnakeTails, World};

verus! {

/// One of the four ways the snake can face.
#[derive(Clone, Copy, PartialEq, Eq, Structural, Debug)]
pub enum Direction {
    Left,
    Up,
    Right,
    Down,
}

impl Direction {
    /// The direction that points the other way: left and right are each
    /// other's opposite, and so are up and down.
    pub open spec fn opposite_of(self) -> Direction {
        match self {
            Direction::Left => Direction::Right,
            Direction::Right => Direction::Left,
            Direction::Up => Direction::Down,
            Direction::Down => Direction::Up,
        }
    }

    /// Change of the x coordinate made by one step this way.
    pub open spec fn dx(self) -> int {
        match self {
            Direction::Left => -1,
            Direction::Right => 1,
            _ => 0,
        }
    }

    /// Change of the y coordinate made by one step this way.
    pub open spec fn dy(self) -> int {
        match self {
            Direction::Up => 1,
            Direction::Down => -1,
            _ => 0,
        }
    }

    /// Whether one step this way from `from` stays within the machine's
    /// integers.
    pub open spec fn can_step(self, from: Position) -> bool {
        &&& i32::MIN <= from.x + self.dx() <= i32::MAX
        &&& i32::MIN <= from.y + self.dy() <= i32::MAX
    }

    /// The cell one step this way from `from`.
    pub open spec fn step(self, from: Position) -> Position
        recommends
            self.can_step(from),
    {
        Position { x: (from.x + self.dx()) as i32, y: (from.y + self.dy()) as i32 }
    }

    /// Computes the opposite direction.
    pub fn opposite(self) -> (d: Direction)
        ensures
            d == self.opposite_of(),
    {
        match self {
            Direction::Left => Direction::Right,
            Direction::Right => Direction::Left,
            Direction::Up => Direction::Down,
            Direction::Down => Direction::Up,
        }
    }

    /// Decides whether a step this way from `from` stays within the
    /// machine's integers.
    pub fn steps_from(self, from: Position) -> (ok: bool)
        ensures
            ok == self.can_step(from),
    {
        match self {
            Direction::Left => from.x > i32::MIN,
            Direction::Right => from.x < i32::MAX,
            Direction::Up => from.y < i32::MAX,
            Direction::Down => from.y > i32::MIN,
        }
    }

    /// Moves `from` by one cell this way.
    pub fn advance(self, from: Position) -> (to: Position)
        requires
            self.can_step(from),
        ensures
            to == self.step(from),
    {
        match self {
            Direction::Left => Position { x: from.x - 1, y: from.y },
            Direction::Right => Position { x: from.x + 1, y: from.y },
            Direction::Up => Position { x: from.x, y: from.y + 1 },
            Direction::Down => Position { x: from.x, y: from.y - 1 },
        }
    }
}

/// The head's own state: the direction the snake faces.
#[derive(Clone, Copy, PartialEq, Eq, Structural, Debug)]
pub struct Snake {
    pub direction: Direction,
}

impl Default for Snake {
    /// A snake that faces up.
    fn default() -> (snake: Snake)
        ensures
            snake == (Snake { direction: Direction::Up }),
    {
        Snake { direction: Direction::Up }
    }
}

/// Marks a body segment behind the head.
#[derive(Clone, Copy, PartialEq, Eq, Structural, Debug)]
pub struct SnakeTail;

/// Signal that the head has eaten one food item.
#[derive(Clone, Copy, PartialEq, Eq, Structural, Debug)]
pub struct GrowthEvent;

/// Signal that the snake has hit a wall or itself.
#[derive(Clone, Copy, PartialEq, Eq, Structural, Debug)]
pub struct GameOverEvent;

/// The cell that the last body segment left in the most recent move, if the
/// snake has moved.
#[derive(Clone, Copy, PartialEq, Eq, Structural, Debug)]
pub struct LastTailPosition(pub Option<Position>);

impl Default for LastTailPosition {
    /// No cell has been left yet.
    fn default() -> (last: LastTailPosition)
        ensures
            last.0 is None,
    {
        LastTailPosition(None)
    }
}

/// Which direction keys are held down when a tick polls the input.
#[derive(Clone, Copy, PartialEq, Eq, Structural, Debug)]
pub struct Input {
    pub left: bool,
    pub right: bool,
    pub down: bool,
    pub up: bool,
}

impl Input {
    /// The direction that the held keys ask for: left wins over right, right
    /// over down, down over up; with no key held there is none.
    pub open spec fn requested(self) -> Option<Direction> {
        if self.left {
            Some(Direction::Left)
        } else if self.right {
            Some(Direction::Right)
        } else if self.down {
            Some(Direction::Down)
        } else if self.up {
            Some(Direction::Up)
        } else {
            None
        }
    }

    /// The input with no key held.
    pub fn none() -> (input: Input)
        ensures
            input == (Input { left: false, right: false, down: false, up: false }),
            input.requested() is None,
    {
        Input { left: false, right: false, down: false, up: false }
    }

    /// The input with exactly the key for `direction` held.
    pub fn pressing(direction: Direction) -> (input: Input)
        ensures
            input.requested() == Some(direction),
            input.left == (direction == Direction::Left),
            input.right == (direction == Direction::Right),
            input.down == (direction == Direction::Down),
            input.up == (direction == Direction::Up),
    {
        Input {
            left: direction == Direction::Left,
            right: direction == Direction::Right,
            down: direction == Direction::Down,
            up: direction == Direction::Up,
        }
    }

    /// Resolves the held keys to the direction they ask for.
    pub fn resolve(&self) -> (request: Option<Direction>)
        ensures
            request == self.requested(),
    {
        if self.left {
            Some(Direction::Left)
        } else if self.right {
            Some(Direction::Right)
        } else if self.down {
            Some(Direction::Down)
        } else if self.up {
            Some(Direction::Up)
        } else {
            None
        }
    }
}

/// The facing after a tick's input: the requested direction, unless nothing
/// is requested or the request is the opposite of the current facing; then
/// the facing stays.
pub open spec fn next_direction(current: Direction, request: Option<Direction>) -> Direction {
    match request {
        Some(d) => if d == current.opposite_of() { current } else { d },
        None => current,
    }
}

/// Computes the facing after a tick's input.
pub fn turn(current: Direction, request: Option<Direction>) -> (next: Direction)
    ensures
        next == next_direction(current, request),
{
    match request {
        Some(d) => if d == current.opposite() { current } else { d },
        None => current,
    }
}

/// Adds a tail segment at `position` to the end of the chain and returns its
/// identity.
pub fn spawn_tail(world: &mut World, position: Position) -> (entity: Entity)
    requires
        old(world)@.coherent(),
        old(world)@.alive(),
    ensures
        final(world)@ == old(world)@.with_tail(position),
        final(world)@.wf(),
        entity == old(world)@.next_entity(),
{
    let ghost before = world@;
    let entity = world.spawn(Record { role: Role::Tail(SnakeTail), position });
    world.body.0.push(entity);
    proof {
        assert(world.records.len() == world@.records.len());
        before.lemma_with_tail_chain(position);
    }
    entity
}

/// The growth step of a tick. If at least one growth signal is pending, the
/// chain gets exactly one new tail segment, at the last vacated cell. All
/// pending growth signals are consumed.
pub fn snake_grow(world: &mut World)
    requires
        old(world)@.wf(),
        old(world)@.growth > 0 ==> old(world)@.alive() && old(world)@.last_vacated is Some,
    ensures
        final(world)@ == old(world)@.after_grow(),
        final(world)@.wf(),
{
    if world.growth_events.len() > 0 {
        match world.last_tail_position.0 {
            Some(position) => {
                spawn_tail(world, position);
            },
            None => {},
        }
        let ghost grown = world@;
        world.growth_events.clear();
        proof {
            grown.lemma_coherent_of_same_roles(world@);
        }
    }
}

/// Puts a new snake on the grid. Any earlier chain is discarded; the new
/// head starts at the start cell and faces up, with one tail segment in the
/// cell below it.
pub fn spawn_snake(world: &mut World)
    requires
        old(world)@.wf(),
    ensures
        final(world)@ == old(world)@.spawned(),
        final(world)@.wf(),
{
    let ghost before = world@;
    let n = world.body.0.len();
    let mut k: usize = 0;
    while k < n
        invariant
            k <= n == before.body.len(),
            before.wf(),
            world@.body == before.body,
            world@.last_vacated == before.last_vacated,
            world@.growth == before.growth,
            world@.game_over == before.game_over,
            world@.records.len() == before.records.len(),
            forall|i: int|
                0 <= i < before.records.len() ==> #[trigger] world@.records[i] == if before.body.take(
                    k as int,
                ).contains(Entity(i as usize)) {
                    None
                } else {
                    before.records[i]
                },
        decreases n - k,
    {
        let entity = world.body.0[k];
        let ghost earlier = world@;
        assert(before.holds(before.body[k as int]));
        world.records[entity.0] = None;
        proof {
            let done = before.body.take(k as int);
            let more = before.body.take(k + 1);
            assert(more =~= done.push(entity));
            assert forall|i: int| 0 <= i < before.records.len() implies #[trigger] world@.records[i]
                == if more.contains(Entity(i as usize)) {
                None
            } else {
                before.records[i]
            } by {
                let e = Entity(i as usize);
                if i == entity.0 {
                    assert(more[k as int] == e);
                } else {
                    assert(world@.records[i] == earlier.records[i]);
                    if done.contains(e) {
                        let j = choose|j: int| 0 <= j < done.len() && done[j] == e;
                        assert(more[j] == e);
                    }
                }
            }
        }
        k += 1;
    }
    world.body = SnakeTails::default();
    world.last_tail_position = LastTailPosition::default();
    let head = world.spawn(
        Record { role: Role::Head(Snake::default()), position: Position { x: 5, y: 5 } },
    );
    world.body.0.push(head);
    proof {
        let cleared = before.without_snake();
        let now = world@;
        assert(before.body.take(n as int) =~= before.body);
        assert(now.records =~= cleared.records.push(now.records[head.0 as int]));
        assert(now.body =~= seq![head]);
        assert(world.records.len() == now.records.len());
        assert forall|i: int| #[trigger] now.snake_part(i) implies now.body.contains(
            Entity(i as usize),
        ) by {
            if i < before.records.len() {
                if !before.body.contains(Entity(i as usize)) {
                    assert(before.snake_part(i));
                }
            } else {
                assert(now.body[0] == Entity(i as usize));
            }
        }
    }
    spawn_tail(world, Position { x: 5, y: 4 });
}

/// The input step of a tick: turns the snake to where the held keys ask.
/// With no key held, and when the keys ask for the opposite of the current
/// facing, the facing stays as it is.
pub fn snake_movement_input(world: &mut World, input: Input)
    requires
        old(world)@.wf(),
    ensures
        final(world)@ == old(world)@.after_input(input),
        final(world)@.wf(),
{
    if world.body.0.len() > 0 {
        let ghost before = world@;
        let head = world.body.0[0];
        assert(before.holds(before.body[0]));
        match world.records[head.0] {
            Some(record) => match record.role {
                Role::Head(snake) => {
                    let direction = turn(snake.direction, input.resolve());
                    let turned = Record { role: Role::Head(Snake { direction }), position: record.position };
                    world.records[head.0] = Some(turned);
                    proof {
                        before.lemma_coherent_of_same_roles(world@);
                    }
                },
                _ => {},
            },
            None => {},
        }
    }
}

/// Decides whether `cell` is among `cells`.
fn occupies(cells: &Vec<Position>, cell: Position) -> (found: bool)
    ensures
        found == cells@.contains(cell),
{
    let mut k: usize = 0;
    while k < cells.len()
        invariant
            k <= cells.len(),
            forall|j: int| 0 <= j < k ==> cells@[j] != cell,
        decreases cells.len() - k,
    {
        if cells[k] == cell {
            return true;
        }
        k += 1;
    }
    false
}

/// The movement step of a tick. The head advances one cell in the facing
/// direction; game over is signalled if that cell lies beyond a wall, or if
/// a segment of the chain occupied it before the move; every tail segment
/// takes the cell that the segment ahead of it held before the move; and the
/// cell that the last segment held before the move is recorded as vacated.
/// Without a snake nothing changes.
pub fn snake_movement(world: &mut World)
    requires
        old(world)@.wf(),
        old(world)@.alive() ==> old(world)@.can_move(),
    ensures
        final(world)@ == old(world)@.after_move(),
        final(world)@.wf(),
{
    let n = world.body.0.len();
    if n == 0 {
        return ;
    }
    let ghost before = world@;
    let snapshot = world.body_positions();
    let head = world.body.0[0];
    assert(before.holds(before.body[0]));
    let direction = match world.records[head.0] {
        Some(Record { role: Role::Head(snake), .. }) => snake.direction,
        _ => Direction::Up,
    };
    let next = direction.advance(snapshot[0]);
    if !next.is_in_arena() {
        world.game_over_event = Some(GameOverEvent);
    }
    if occupies(&snapshot, next) {
        world.game_over_event = Some(GameOverEvent);
    }
    let mut k: usize = 0;
    while k < n
        invariant
            k <= n == before.body.len(),
            before.wf(),
            snapshot@ == before.chain(),
            next == before.next_head(),
            world@.body == before.body,
            world@.last_vacated == before.last_vacated,
            world@.growth == before.growth,
            world@.game_over == (before.game_over || before.hits_wall() || before.hits_self()),
            world@.records.len() == before.records.len(),
            forall|i: int|
                0 <= i < before.records.len() ==> #[trigger] world@.records[i] == if before.body.take(
                    k as int,
                ).contains(Entity(i as usize)) {
                    before.moved_record(i)
                } else {
                    before.records[i]
                },
        decreases n - k,
    {
        let entity = world.body.0[k];
        let position = if k == 0 {
            next
        } else {
            snapshot[k - 1]
        };
        let ghost earlier = world@;
        proof {
            assert(before.holds(before.body[k as int]));
            lemma_segment_index(before.body, k as int);
            if before.body.take(k as int).contains(entity) {
                let j = choose|j: int|
                    0 <= j < before.body.take(k as int).len() && before.body.take(k as int)[j]
                        == entity;
                assert(before.body[j] == before.body[k as int]);
            }
        }
        match world.records[entity.0] {
            Some(record) => {
                world.records[entity.0] = Some(Record { role: record.role, position });
            },
            None => {},
        }
        proof {
            let done = before.body.take(k as int);
            let more = before.body.take(k + 1);
            assert(more =~= done.push(entity));
            assert forall|i: int| 0 <= i < before.records.len() implies #[trigger] world@.records[i]
                == if more.contains(Entity(i as usize)) {
                before.moved_record(i)
            } else {
                before.records[i]
            } by {
                let e = Entity(i as usize);
                if i == entity.0 {
                    assert(more[k as int] == e);
                } else {
                    assert(world@.records[i] == earlier.records[i]);
                    if done.contains(e) {
                        let j = choose|j: int| 0 <= j < done.len() && done[j] == e;
                        assert(more[j] == e);
                    }
                }
            }
        }
        k += 1;
    }
    world.last_tail_position = LastTailPosition(Some(snapshot[n - 1]));
    proof {
        assert(before.body.take(n as int) =~= before.body);
        assert(world@.records =~= before.after_move().records);
        before.lemma_after_move_same_roles();
        before.lemma_coherent_of_same_roles(world@);
    }
}

/// In a chain without duplicates each identity is found at its own place.
proof fn lemma_segment_index(body: Seq<Entity>, k: int)
    requires
        body.no_duplicates(),
        0 <= k < body.len(),
    ensures
        body.contains(body[k]),
        body.index_of(body[k]) == k,
{
}

/// The feeding step of a tick: consumes the food that lies in the head's
/// cell, which removes each such item and raises one growth signal for it.
/// Without a snake nothing changes.
pub fn snake_eat(world: &mut World)
    requires
        old(world)@.wf(),
    ensures
        final(world)@ == old(world)@.after_eat(),
        final(world)@.wf(),
{
    match world.head_position() {
        Some(at) => {
            consume(world, at);
        },
        None => {},
    }
}

/// The game-over step of a tick. If game over is signalled, every entity is
/// removed, the snake's head, its tail and all food, a new snake is spawned,
/// and the signal is cleared. Otherwise nothing changes.
pub fn game_over(world: &mut World)
    requires
        old(world)@.wf(),
    ensures
        final(world)@ == old(world)@.after_reset(),
        final(world)@.wf(),
{
    if world.game_over_event.is_some() {
        let ghost before = world@;
        world.records.clear();
        world.body.0.clear();
        spawn_snake(world);
        let ghost spawned = world@;
        world.game_over_event = None;
        proof {
            assert(world@.records =~= WorldModel::canonical(before.growth).records);
            assert(world@.body =~= WorldModel::canonical(before.growth).body);
            spawned.lemma_coherent_of_same_roles(world@);
        }
    }
}

} // verus!
