use vstd::prelude::*;

use crate::common::{Vector2I, Vector2X};
use rand::seq::IndexedRandom;
use vstd::arithmetic::div_mod::{lemma_fundamental_div_mod, lemma_mod_pos_bound};

verus! {

/// Identifier of an entity, assigned by the world in creation order.
pub type EntityId = u32;

/// Side of a world tile. Coordinates are in hundredths of a world unit.
pub const TILE_SIZE_SIDE: i32 = 500;

/// Distance an NPC travels per tick.
pub const NPC_MOVEMENT_SPEED: u32 = 35;

/// Distance a player travels per tick.
pub const PLAYER_MOVEMENT_SPEED: u32 = 50;

/// Idle ticks an NPC waits before it tries to pick a new destination.
pub const NPC_DIRECTION_SELECTION_TICKS: u32 = 3;

/// Roaming range given to NPCs made by `create_entity_npc`.
pub const NPC_ROAMING_RANGE: u32 = 300;

#[derive(Debug, Clone, Copy, PartialEq, Eq, Structural)]
pub enum EntityState {
    Idle,
    Moving { from_position: Vector2I, destination: Vector2I },
}

#[derive(Debug, Clone)]
pub struct NpcController {
    pub spawnpoint: Vector2I,
    pub roaming_range: Option<u32>,
    pub change_destination_counter: u32,
}

#[derive(Debug, Clone)]
pub struct PlayerController {}

#[derive(Debug, Clone)]
pub enum EntityController {
    Npc(NpcController),
    Player(PlayerController),
}

#[derive(Debug, Clone, Copy)]
pub struct EntityStats {
    pub movement_speed: u32,
}

/// The id of an entity, as the entity holds it.
#[derive(Debug)]
pub struct EntityTag {
    value: EntityId,
}

impl View for EntityTag {
    type V = EntityId;

    closed spec fn view(&self) -> EntityId {
        self.value
    }
}

/// A simulated object. Its position is in hundredths of a world unit.
#[derive(Debug)]
pub struct Entity {
    /// Assigned by the world at creation; it cannot be made or changed
    /// elsewhere.
    pub id: EntityTag,
    pub name: String,
    pub position: Vector2I,
    pub state: EntityState,
    pub stats: EntityStats,
    pub controller: EntityController,
}

/// The simulation state: entities in creation order and the grid's tile size.
#[derive(Debug)]
pub struct World {
    new_entity_id: EntityId,
    entities: Vec<Entity>,
    tile_size: i32,
}

impl NpcController {
    /// A controller that waits the usual number of idle ticks before roaming.
    pub fn new(spawnpoint: Vector2I, roaming_range: Option<u32>) -> (r: Self)
        ensures
            r.spawnpoint == spawnpoint,
            r.roaming_range == roaming_range,
            r.change_destination_counter == NPC_DIRECTION_SELECTION_TICKS,
    {
        NpcController { spawnpoint, roaming_range, change_destination_counter: NPC_DIRECTION_SELECTION_TICKS }
    }
}

impl EntityStats {
    pub fn new(movement_speed: u32) -> (r: Self)
        ensures
            r.movement_speed == movement_speed,
    {
        EntityStats { movement_speed }
    }
}

impl Entity {
    pub fn id(&self) -> (r: EntityId)
        ensures
            r == self.id@,
    {
        self.id.value
    }

    pub open spec fn spec_is_player(&self) -> bool {
        self.controller is Player
    }

    pub fn is_player(&self) -> (r: bool)
        ensures
            r == self.spec_is_player(),
    {
        match self.controller {
            EntityController::Player(_) => true,
            EntityController::Npc(_) => false,
        }
    }
}

/// The index of the first entity in `s` with the given id, if any.
pub open spec fn first_with_id(s: Seq<Entity>, id: EntityId) -> Option<int> {
    if exists|k: int| 0 <= k < s.len() && s[k].id@ == id {
        Some(choose|k: int| 0 <= k < s.len() && s[k].id@ == id && forall|j: int| 0 <= j < k ==> s[j].id@ != id)
    } else {
        None
    }
}

/// Whether `p` lies in the square of side `size` whose lowest corner is `tile`.
pub open spec fn tile_contains(tile: Vector2I, size: int, p: Vector2I) -> bool {
    tile.x <= p.x < tile.x + size && tile.y <= p.y < tile.y + size
}

/// Whether an entity counts as present in a tile: an idle one by its position,
/// a moving one by either end of its move.
pub open spec fn entity_in_tile(e: Entity, tile: Vector2I, size: int) -> bool {
    match e.state {
        EntityState::Idle => tile_contains(tile, size, e.position),
        EntityState::Moving { from_position, destination } =>
            tile_contains(tile, size, from_position) || tile_contains(tile, size, destination),
    }
}

/// Whether any of `s` is present in the tile of side `size` at `tile`.
pub open spec fn tile_occupied(s: Seq<Entity>, tile: Vector2I, size: int) -> bool {
    exists|k: int| 0 <= k < s.len() && #[trigger] entity_in_tile(s[k], tile, size)
}

/// What `World::create_entity` makes of `before`: `after` holds one more
/// entity, idle, under the id `id`, which was the next id.
pub open spec fn created(before: World, after: World, id: EntityId, name: Seq<char>, position: Vector2I) -> bool {
    &&& id == before.spec_next_id()
    &&& after.spec_next_id() == before.spec_next_id() + 1
    &&& after.spec_tile_size() == before.spec_tile_size()
    &&& after.spec_entities().len() == before.spec_entities().len() + 1
    &&& after.spec_entities().drop_last() == before.spec_entities()
    &&& after.spec_entities().last().id@ == id
    &&& after.spec_entities().last().name@ == name
    &&& after.spec_entities().last().position == position
    &&& after.spec_entities().last().state == EntityState::Idle
}

/// The entities are numbered from zero in creation order, and the next id
/// follows the last.
pub open spec fn well_numbered(w: World) -> bool {
    &&& w.spec_next_id() == w.spec_entities().len()
    &&& forall|k: int| 0 <= k < w.spec_entities().len() ==> (#[trigger] w.spec_entities()[k]).id@ == k
}

impl World {
    /// The entities, in creation order.
    pub closed spec fn spec_entities(&self) -> Seq<Entity> {
        self.entities@
    }

    /// The id that the next created entity receives.
    pub closed spec fn spec_next_id(&self) -> EntityId {
        self.new_entity_id
    }

    pub closed spec fn spec_tile_size(&self) -> i32 {
        self.tile_size
    }

    pub fn new() -> (r: Self)
        ensures
            r.spec_entities().len() == 0,
            r.spec_next_id() == 0,
            well_numbered(r),
            r.spec_tile_size() == TILE_SIZE_SIDE,
    {
        World { new_entity_id: 0, entities: Vec::new(), tile_size: TILE_SIZE_SIDE }
    }

    pub fn new_entity_id(&self) -> (r: EntityId)
        ensures
            r == self.spec_next_id(),
    {
        self.new_entity_id
    }

    pub fn tile_size(&self) -> (r: i32)
        ensures
            r == self.spec_tile_size(),
    {
        self.tile_size
    }

    /// The entities, in creation order.
    pub fn entities(&self) -> (r: &[Entity])
        ensures
            r@ == self.spec_entities(),
    {
        self.entities.as_slice()
    }

    /// Appends an idle entity under the next id and returns that id.
    pub fn create_entity(
        &mut self,
        name: &str,
        intial_position: Vector2I,
        stats: EntityStats,
        controller: EntityController,
    ) -> (r: EntityId)
        requires
            old(self).spec_next_id() < EntityId::MAX,
        ensures
            created(*old(self), *final(self), r, name@, intial_position),
            final(self).spec_entities().last().stats == stats,
            final(self).spec_entities().last().controller == controller,
    {
        let new_id = self.new_entity_id;
        self.new_entity_id = self.new_entity_id + 1;
        let entity = Entity {
            id: EntityTag { value: new_id },
            name: name.to_owned(),
            position: intial_position,
            state: EntityState::Idle,
            stats,
            controller,
        };
        self.entities.push(entity);
        proof {
            assert(self.entities@.drop_last() =~= old(self).entities@);
        }
        new_id
    }

    /// Creates a roaming NPC at `intial_position`, with the NPC speed and range.
    pub fn create_entity_npc(&mut self, name: &str, intial_position: Vector2I) -> (r: EntityId)
        requires
            old(self).spec_next_id() < EntityId::MAX,
        ensures
            created(*old(self), *final(self), r, name@, intial_position),
            final(self).spec_entities().last().stats.movement_speed == NPC_MOVEMENT_SPEED,
            final(self).spec_entities().last().controller == EntityController::Npc(
                NpcController {
                    spawnpoint: intial_position,
                    roaming_range: Some(NPC_ROAMING_RANGE),
                    change_destination_counter: NPC_DIRECTION_SELECTION_TICKS,
                },
            ),
    {
        self.create_entity(
            name,
            intial_position,
            EntityStats::new(NPC_MOVEMENT_SPEED),
            EntityController::Npc(NpcController::new(intial_position, Some(NPC_ROAMING_RANGE))),
        )
    }

    /// The first entity with the given id, found by a linear scan.
    pub fn get_entity_by_id(&self, entity_id: EntityId) -> (r: Option<&Entity>)
        ensures
            match first_with_id(self.spec_entities(), entity_id) {
                Some(k) => r == Some(&self.spec_entities()[k]),
                None => r is None,
            },
    {
        match self.index_of(entity_id) {
            Some(i) => Some(&self.entities[i]),
            None => None,
        }
    }

    /// Exclusive access to the first entity with the given id.
    pub fn get_entity_by_id_mut(&mut self, entity_id: EntityId) -> (r: Option<&mut Entity>)
        ensures
            match first_with_id(old(self).spec_entities(), entity_id) {
                Some(k) => {
                    &&& r is Some
                    &&& *r->0 == old(self).spec_entities()[k]
                    &&& final(self).spec_entities() == old(self).spec_entities().update(k, *final(r->0))
                    &&& final(self).spec_next_id() == old(self).spec_next_id()
                    &&& final(self).spec_tile_size() == old(self).spec_tile_size()
                },
                None => r is None && *final(self) == *old(self),
            },
    {
        match self.index_of(entity_id) {
            Some(i) => Some(&mut self.entities[i]),
            None => None,
        }
    }

    fn index_of(&self, entity_id: EntityId) -> (r: Option<usize>)
        ensures
            r matches Some(i) ==> i < self.entities@.len() && first_with_id(self.entities@, entity_id) == Some(i as int),
            r is None ==> first_with_id(self.entities@, entity_id) is None,
    {
        let mut i: usize = 0;
        while i < self.entities.len()
            invariant
                0 <= i <= self.entities@.len(),
                forall|j: int| 0 <= j < i ==> self.entities@[j].id@ != entity_id,
            decreases self.entities@.len() - i,
        {
            if self.entities[i].id.value == entity_id {
                proof {
                    let s = self.entities@;
                    assert(0 <= i < s.len() && s[i as int].id@ == entity_id);
                    let k = choose|k: int| 0 <= k < s.len() && s[k].id@ == entity_id && forall|j: int| 0 <= j < k ==> s[j].id@ != entity_id;
                    assert(k == i as int) by {
                        if k < i { } else if k > i { assert(s[i as int].id@ == entity_id); }
                    }
                }
                return Some(i);
            }
            i += 1;
        }
        None
    }

    /// Whether any entity lies in the tile of the world's tile size whose
    /// lowest corner is `tile_position`.
    pub fn is_tile_occupied(&self, tile_position: &Vector2I) -> (r: bool)
        ensures
            r == tile_occupied(self.spec_entities(), *tile_position, self.spec_tile_size() as int),
    {
        let size = self.tile_size;
        let mut i: usize = 0;
        while i < self.entities.len()
            invariant
                0 <= i <= self.entities@.len(),
                size == self.tile_size,
                forall|j: int| 0 <= j < i ==> !#[trigger] entity_in_tile(self.entities@[j], *tile_position, size as int),
            decreases self.entities@.len() - i,
        {
            let is_colliding = match self.entities[i].state {
                EntityState::Idle => contains(tile_position, size, &self.entities[i].position),
                EntityState::Moving { from_position, destination } => {
                    contains(tile_position, size, &from_position) || contains(tile_position, size, &destination)
                },
            };
            if is_colliding {
                assert(entity_in_tile(self.spec_entities()[i as int], *tile_position, self.spec_tile_size() as int));
                return true;
            }
            i += 1;
        }
        false
    }
}

fn contains(tile: &Vector2I, size: i32, p: &Vector2I) -> (r: bool)
    ensures
        r == tile_contains(*tile, size as int, *p),
{
    let (tx, ty, px, py, s) = (tile.x as i64, tile.y as i64, p.x as i64, p.y as i64, size as i64);
    tx <= px && px < tx + s && ty <= py && py < ty + s
}

/// `r` is the integer square root of `n`.
pub open spec fn is_isqrt(n: int, r: int) -> bool {
    0 <= r && r * r <= n && n < (r + 1) * (r + 1)
}

/// The integer square root of a non-negative `n`.
pub open spec fn isqrt(n: int) -> int {
    choose|r: int| is_isqrt(n, r)
}

proof fn lemma_isqrt_unique(n: int, a: int, b: int)
    requires
        is_isqrt(n, a),
        is_isqrt(n, b),
    ensures
        a == b,
{
    if a < b {
        assert((a + 1) * (a + 1) <= b * b) by (nonlinear_arith)
            requires 0 <= a, a + 1 <= b;
    } else if b < a {
        assert((b + 1) * (b + 1) <= a * a) by (nonlinear_arith)
            requires 0 <= b, b + 1 <= a;
    }
}

/// Floor of the square root, by bisection.
fn integer_sqrt(n: u128) -> (r: u64)
    requires
        n < 0x4_0000_0000_0000_0000u128,
    ensures
        is_isqrt(n as int, r as int),
        r as int == isqrt(n as int),
        r < 0x4_0000_0000,
{
    let mut lo: u128 = 0;
    let mut hi: u128 = 0x4_0000_0000;
    assert(hi * hi == 0x10_0000_0000_0000_0000u128);
    while hi - lo > 1
        invariant
            lo < hi <= 0x4_0000_0000,
            lo * lo <= n,
            n < hi * hi,
        decreases hi - lo,
    {
        let mid = lo + (hi - lo) / 2;
        assert(mid * mid <= hi * hi) by (nonlinear_arith)
            requires mid <= hi, 0 <= mid;
        assert(hi * hi <= 0x10_0000_0000_0000_0000) by (nonlinear_arith)
            requires hi <= 0x4_0000_0000, 0 <= hi;
        if mid * mid <= n {
            lo = mid;
        } else {
            hi = mid;
        }
    }
    proof {
        assert(is_isqrt(n as int, lo as int));
        lemma_isqrt_unique(n as int, lo as int, isqrt(n as int));
    }
    lo as u64
}

/// The length of one step along an axis whose share of a move of length
/// `len` is `dc`: `|dc| * speed / len`, rounded up so that every axis the
/// move runs along advances by at least one unit per tick.
pub open spec fn step_length(dc: int, speed: int, len: int) -> int {
    (abs(dc) * speed + len - 1) / len
}

/// A coordinate advanced by `step` in the direction of the sign of `dc`,
/// without passing `target`.
pub open spec fn advance_coord(p: int, target: int, dc: int, step: int) -> int {
    if dc > 0 {
        if p + step < target { p + step } else { target }
    } else if dc < 0 {
        if p - step > target { p - step } else { target }
    } else {
        p
    }
}

/// The controller after an arrival: an NPC restarts its idle countdown.
pub open spec fn reset_countdown(c: EntityController) -> EntityController {
    match c {
        EntityController::Npc(n) => EntityController::Npc(
            NpcController { change_destination_counter: NPC_DIRECTION_SELECTION_TICKS, ..n },
        ),
        EntityController::Player(p) => EntityController::Player(p),
    }
}

/// The entity snapped onto its destination and idle.
pub open spec fn arrived(e: Entity, destination: Vector2I) -> Entity {
    Entity { position: destination, state: EntityState::Idle, controller: reset_countdown(e.controller), ..e }
}

/// The position one step of `speed` further along the direction of the
/// move from `from` to `destination`, whose length is `len`; no axis passes
/// the destination.
pub open spec fn stepped(position: Vector2I, from: Vector2I, destination: Vector2I, speed: int, len: int) -> Vector2I {
    let (dx, dy) = (destination.x - from.x, destination.y - from.y);
    Vector2X {
        x: advance_coord(position.x as int, destination.x as int, dx, step_length(dx, speed, len)) as i32,
        y: advance_coord(position.y as int, destination.y as int, dy, step_length(dy, speed, len)) as i32,
    }
}

/// Dot product of the vectors from `a` and from `b` to `destination`.
pub open spec fn dot_to(destination: Vector2I, a: Vector2I, b: Vector2I) -> int {
    (destination.x - a.x) * (destination.x - b.x) + (destination.y - a.y) * (destination.y - b.y)
}

pub open spec fn displacement_len(from: Vector2I, destination: Vector2I) -> int {
    isqrt(
        (destination.x - from.x) * (destination.x - from.x) + (destination.y - from.y) * (destination.y - from.y),
    )
}

/// The movement part of a tick. A moving entity advances by its speed along
/// the direction of its move, from `from_position` to `destination`; each
/// axis step is rounded up and stops at the destination. When the vector to
/// the destination turns by a right angle or more (the step landed on it),
/// or the move is empty, the entity is placed on the destination and becomes
/// idle.
pub open spec fn moved(e: Entity) -> Entity {
    match e.state {
        EntityState::Idle => e,
        EntityState::Moving { from_position, destination } => {
            let len = displacement_len(from_position, destination);
            if len == 0 {
                arrived(e, destination)
            } else {
                let p = stepped(e.position, from_position, destination, e.stats.movement_speed as int, len);
                if dot_to(destination, e.position, p) <= 0 {
                    arrived(e, destination)
                } else {
                    Entity { position: p, ..e }
                }
            }
        },
    }
}

/// The tile reached from `position` by one step of `tile` in `direction`.
pub open spec fn neighbour(position: Vector2I, direction: Vector2I, tile: int) -> (int, int) {
    (position.x + direction.x * tile, position.y + direction.y * tile)
}

pub open spec fn fits_i32(v: int) -> bool {
    i32::MIN <= v <= i32::MAX
}

/// The controller part of a tick, given the direction drawn for it. An idle
/// roaming NPC counts down; at zero it heads for the neighbouring tile in
/// `direction` unless that tile is among `occupied`, and otherwise tries
/// again on the next tick. Players have no scripted behaviour.
pub open spec fn roamed(e: Entity, occupied: Seq<Vector2I>, tile: int, direction: Vector2I) -> Entity {
    match e.controller {
        EntityController::Npc(n) => {
            if n.roaming_range is Some && e.state is Idle {
                if n.change_destination_counter > 0 {
                    Entity {
                        controller: EntityController::Npc(
                            NpcController { change_destination_counter: (n.change_destination_counter - 1) as u32, ..n },
                        ),
                        ..e
                    }
                } else {
                    let (cx, cy) = neighbour(e.position, direction, tile);
                    let candidate = Vector2X { x: cx as i32, y: cy as i32 };
                    if fits_i32(cx) && fits_i32(cy) && !occupied.contains(candidate) {
                        Entity { state: EntityState::Moving { from_position: e.position, destination: candidate }, ..e }
                    } else {
                        e
                    }
                }
            } else {
                e
            }
        },
        EntityController::Player(_) => e,
    }
}

/// The position an entity will hold at the end of its current move.
pub open spec fn effective_position(e: Entity) -> Vector2I {
    match e.state {
        EntityState::Moving { destination, .. } => destination,
        EntityState::Idle => e.position,
    }
}

pub open spec fn occupied_positions(s: Seq<Entity>) -> Seq<Vector2I> {
    s.map_values(|e: Entity| effective_position(e))
}

/// The four axis-aligned unit directions an NPC may roam in.
pub open spec fn roam_directions() -> Seq<Vector2I> {
    seq![
        Vector2X { x: 1i32, y: 0i32 },
        Vector2X { x: -1i32, y: 0i32 },
        Vector2X { x: 0i32, y: 1i32 },
        Vector2X { x: 0i32, y: -1i32 },
    ]
}

/// One tick of one entity, with the direction drawn for it.
pub open spec fn ticked(e: Entity, occupied: Seq<Vector2I>, tile: int, direction: Vector2I) -> Entity {
    roamed(moved(e), occupied, tile, direction)
}

/// Relies on rand's `IndexedRandom::choose` with the thread generator: `None`
/// for an empty slice, else one of its elements.
#[verifier::external_body]
fn pick_direction(directions: &[Vector2I]) -> (r: Option<Vector2I>)
    ensures
        directions@.len() == 0 <==> r is None,
        r matches Some(d) ==> directions@.contains(d),
{
    directions.choose(&mut rand::rng()).copied()
}

fn position_in(positions: &[Vector2I], p: Vector2I) -> (r: bool)
    ensures
        r == positions@.contains(p),
{
    let mut i: usize = 0;
    while i < positions.len()
        invariant
            0 <= i <= positions@.len(),
            forall|j: int| 0 <= j < i ==> positions@[j] != p,
        decreases positions@.len() - i,
    {
        if positions[i] == p {
            return true;
        }
        i += 1;
    }
    false
}

/// One axis of a step: `p` advanced towards `target` by the rounded-up share
/// `dc` of a move of length `len`.
fn advance_axis(p: i32, target: i32, dc: i128, speed: u32, len: u64) -> (r: i32)
    requires
        -0x1_0000_0000 < dc < 0x1_0000_0000,
        len > 0,
    ensures
        r == advance_coord(p as int, target as int, dc as int, step_length(dc as int, speed as int, len as int)),
{
    let magnitude: u128 = if dc >= 0 { dc as u128 } else { (-dc) as u128 };
    assert(magnitude * (speed as u128) < 0x1_0000_0000_0000_0000) by (nonlinear_arith)
        requires magnitude < 0x1_0000_0000, speed < 0x1_0000_0000;
    let x: u128 = magnitude * speed as u128 + len as u128 - 1;
    let step: u128 = x / len as u128;
    proof {
        let xi: int = x as int;
        let l: int = len as int;
        assert(xi / l <= xi) by (nonlinear_arith)
            requires l >= 1, xi >= 0;
    }
    let (pi, ti, si) = (p as i128, target as i128, step as i128);
    if dc > 0 {
        if pi + si < ti { (pi + si) as i32 } else { target }
    } else if dc < 0 {
        if pi - si > ti { (pi - si) as i32 } else { target }
    } else {
        p
    }
}

/// Places `e` on `destination`, idle; an NPC restarts its countdown.
fn arrive(e: &mut Entity, destination: Vector2I)
    ensures
        *final(e) == arrived(*old(e), destination),
{
    e.position = destination;
    e.state = EntityState::Idle;
    if let EntityController::Npc(n) = &mut e.controller {
        n.change_destination_counter = NPC_DIRECTION_SELECTION_TICKS;
    }
}

fn set_countdown(e: &mut Entity, value: u32)
    ensures
        *final(e) == (match old(e).controller {
            EntityController::Npc(n) => Entity {
                controller: EntityController::Npc(NpcController { change_destination_counter: value, ..n }),
                ..*old(e)
            },
            EntityController::Player(_) => *old(e),
        }),
{
    if let EntityController::Npc(n) = &mut e.controller {
        n.change_destination_counter = value;
    }
}

impl Entity {
    /// The movement part of a tick for this entity.
    pub fn advance(&mut self)
        ensures
            *final(self) == moved(*old(self)),
    {
        if let EntityState::Moving { from_position, destination } = self.state {
            let dx: i128 = destination.x as i128 - from_position.x as i128;
            let dy: i128 = destination.y as i128 - from_position.y as i128;
            assert(dx * dx < 0x1_0000_0000_0000_0000) by (nonlinear_arith)
                requires -0x1_0000_0000 < dx < 0x1_0000_0000;
            assert(dy * dy < 0x1_0000_0000_0000_0000) by (nonlinear_arith)
                requires -0x1_0000_0000 < dy < 0x1_0000_0000;
            assert(dx * dx >= 0 && dy * dy >= 0) by (nonlinear_arith);
            let len = integer_sqrt((dx * dx + dy * dy) as u128);
            if len == 0 {
                arrive(self, destination);
                return;
            }
            let speed = self.stats.movement_speed;
            let p = Vector2X {
                x: advance_axis(self.position.x, destination.x, dx, speed, len),
                y: advance_axis(self.position.y, destination.y, dy, speed, len),
            };
            let ax: i128 = destination.x as i128 - self.position.x as i128;
            let ay: i128 = destination.y as i128 - self.position.y as i128;
            let bx: i128 = destination.x as i128 - p.x as i128;
            let by: i128 = destination.y as i128 - p.y as i128;
            assert(-0x1_0000_0000_0000_0000 < ax * bx < 0x1_0000_0000_0000_0000) by (nonlinear_arith)
                requires -0x1_0000_0000 < ax < 0x1_0000_0000, -0x1_0000_0000 < bx < 0x1_0000_0000;
            assert(-0x1_0000_0000_0000_0000 < ay * by < 0x1_0000_0000_0000_0000) by (nonlinear_arith)
                requires -0x1_0000_0000 < ay < 0x1_0000_0000, -0x1_0000_0000 < by < 0x1_0000_0000;
            let dot = ax * bx + ay * by;
            if dot <= 0 {
                arrive(self, destination);
            } else {
                self.position = p;
            }
        }
    }

    /// The controller part of a tick for this entity, given the direction
    /// drawn for it and the tick's snapshot of occupied positions.
    pub fn roam(&mut self, occupied: &[Vector2I], tile: i32, direction: Vector2I)
        ensures
            *final(self) == roamed(*old(self), occupied@, tile as int, direction),
    {
        let idle = match self.state {
            EntityState::Idle => true,
            EntityState::Moving { .. } => false,
        };
        let (roaming, counter) = match &self.controller {
            EntityController::Npc(n) => (n.roaming_range.is_some(), n.change_destination_counter),
            EntityController::Player(_) => (false, 0),
        };
        if roaming && idle {
            if counter > 0 {
                set_countdown(self, counter - 1);
            } else {
                let pos = self.position;
                let (ux, uy, t) = (direction.x as i64, direction.y as i64, tile as i64);
                assert(-0x4000_0000_0000_0000 <= ux * t <= 0x4000_0000_0000_0000) by (nonlinear_arith)
                    requires -0x8000_0000 <= ux < 0x8000_0000, -0x8000_0000 <= t < 0x8000_0000;
                assert(-0x4000_0000_0000_0000 <= uy * t <= 0x4000_0000_0000_0000) by (nonlinear_arith)
                    requires -0x8000_0000 <= uy < 0x8000_0000, -0x8000_0000 <= t < 0x8000_0000;
                let cx: i64 = pos.x as i64 + ux * t;
                let cy: i64 = pos.y as i64 + uy * t;
                if i32::MIN as i64 <= cx && cx <= i32::MAX as i64 && i32::MIN as i64 <= cy && cy <= i32::MAX as i64 {
                    let candidate = Vector2X { x: cx as i32, y: cy as i32 };
                    if !position_in(occupied, candidate) {
                        self.state = EntityState::Moving { from_position: pos, destination: candidate };
                    }
                }
            }
        }
    }
}

/// `after` is what a tick makes of `before` for one of the roaming directions.
pub open spec fn tick_outcome(before: Entity, after: Entity, occupied: Seq<Vector2I>, tile: int) -> bool {
    exists|d: Vector2I| roam_directions().contains(d) && after == #[trigger] ticked(before, occupied, tile, d)
}

impl World {
    fn occupied_snapshot(&self) -> (r: Vec<Vector2I>)
        ensures
            r@ == occupied_positions(self.entities@),
    {
        let mut r: Vec<Vector2I> = Vec::new();
        let mut i: usize = 0;
        while i < self.entities.len()
            invariant
                0 <= i <= self.entities@.len(),
                r@ == occupied_positions(self.entities@.take(i as int)),
            decreases self.entities@.len() - i,
        {
            let p = match self.entities[i].state {
                EntityState::Moving { destination, .. } => destination,
                EntityState::Idle => self.entities[i].position,
            };
            r.push(p);
            proof {
                assert(self.entities@.take(i + 1) =~= self.entities@.take(i as int).push(self.entities@[i as int]));
                assert(occupied_positions(self.entities@.take(i + 1)) =~= occupied_positions(self.entities@.take(i as int)).push(p));
            }
            i += 1;
        }
        assert(self.entities@.take(i as int) =~= self.entities@);
        r
    }

    /// One simulation step. The effective positions of all entities are
    /// taken first; then each entity in turn moves, and its controller acts
    /// against that snapshot, with a direction drawn at random when an NPC
    /// looks for a new destination.
    pub fn tick(&mut self)
        ensures
            final(self).spec_next_id() == old(self).spec_next_id(),
            final(self).spec_tile_size() == old(self).spec_tile_size(),
            final(self).spec_entities().len() == old(self).spec_entities().len(),
            forall|i: int|
                0 <= i < old(self).spec_entities().len() ==> #[trigger] tick_outcome(
                    old(self).spec_entities()[i],
                    final(self).spec_entities()[i],
                    occupied_positions(old(self).spec_entities()),
                    old(self).spec_tile_size() as int,
                ),
    {
        let occupied = self.occupied_snapshot();
        let directions: Vec<Vector2I> = vec![
            Vector2X { x: 1i32, y: 0i32 },
            Vector2X { x: -1i32, y: 0i32 },
            Vector2X { x: 0i32, y: 1i32 },
            Vector2X { x: 0i32, y: -1i32 },
        ];
        assert(directions@ =~= roam_directions());
        let tile = self.tile_size;
        let ghost before = self.entities@;
        let mut i: usize = 0;
        while i < self.entities.len()
            invariant
                self.entities@.len() == before.len(),
                0 <= i <= before.len(),
                tile == self.tile_size,
                self.tile_size == old(self).tile_size,
                self.new_entity_id == old(self).new_entity_id,
                before == old(self).entities@,
                occupied@ == occupied_positions(before),
                directions@ == roam_directions(),
                forall|j: int| 0 <= j < i ==> #[trigger] tick_outcome(before[j], self.entities@[j], occupied@, tile as int),
                forall|j: int| i <= j < before.len() ==> self.entities@[j] == before[j],
            decreases before.len() - i,
        {
            let ghost prior = self.entities@;
            let e = &mut self.entities[i];
            e.advance();
            let wants = match &e.controller {
                EntityController::Npc(n) => n.roaming_range.is_some() && n.change_destination_counter == 0
                    && e.state == EntityState::Idle,
                EntityController::Player(_) => false,
            };
            let direction = if wants {
                match pick_direction(directions.as_slice()) {
                    Some(d) => d,
                    None => directions[0],
                }
            } else {
                directions[0]
            };
            e.roam(occupied.as_slice(), tile, direction);
            proof {
                assert(roam_directions().contains(direction)) by {
                    if !wants || direction == directions@[0] {
                        assert(roam_directions()[0] == directions@[0]);
                    }
                }
                assert(self.entities@ == prior.update(i as int, ticked(prior[i as int], occupied@, tile as int, direction)));
                assert(tick_outcome(before[i as int], self.entities@[i as int], occupied@, tile as int));
            }
            i += 1;
        }
    }
}

/// Successive creations hand out ids that start at zero and strictly
/// increase, and looking up a fresh id yields the new entity, idle, with the
/// name and position it was created with.
pub proof fn lemma_create_then_get(
    before: World,
    after: World,
    id: EntityId,
    name: Seq<char>,
    position: Vector2I,
)
    requires
        well_numbered(before),
        created(before, after, id, name, position),
    ensures
        well_numbered(after),
        id == before.spec_entities().len(),
        forall|k: int| 0 <= k < before.spec_entities().len() ==> (#[trigger] before.spec_entities()[k]).id@ < id,
        first_with_id(after.spec_entities(), id) == Some(id as int),
        after.spec_entities()[id as int].name@ == name,
        after.spec_entities()[id as int].position == position,
        after.spec_entities()[id as int].state == EntityState::Idle,
{
    let s = after.spec_entities();
    assert forall|k: int| 0 <= k < s.len() implies (#[trigger] s[k]).id@ == k by {
        if k < s.len() - 1 {
            assert(s[k] == s.drop_last()[k]);
        }
    }
    assert(0 <= id < s.len() && s[id as int].id@ == id);
    let k = choose|k: int| 0 <= k < s.len() && s[k].id@ == id && forall|j: int| 0 <= j < k ==> s[j].id@ != id;
    assert(k == id as int);
}

/// A world without entities has no occupied tile.
pub proof fn lemma_empty_world_unoccupied(w: World, tile: Vector2I)
    requires
        w.spec_entities().len() == 0,
    ensures
        !tile_occupied(w.spec_entities(), tile, w.spec_tile_size() as int),
{
}

/// Right after an entity is created at a position inside a tile, that tile
/// is occupied.
pub proof fn lemma_created_tile_occupied(
    before: World,
    after: World,
    id: EntityId,
    name: Seq<char>,
    position: Vector2I,
    tile: Vector2I,
)
    requires
        created(before, after, id, name, position),
        tile_contains(tile, after.spec_tile_size() as int, position),
    ensures
        tile_occupied(after.spec_entities(), tile, after.spec_tile_size() as int),
{
    let s = after.spec_entities();
    assert(entity_in_tile(s[s.len() - 1], tile, after.spec_tile_size() as int));
}

/// An entity after a run of ticks, each with the snapshot of occupied
/// positions and the direction drawn for it.
pub open spec fn run_ticks(e: Entity, steps: Seq<(Seq<Vector2I>, Vector2I)>, tile: int) -> Entity
    decreases steps.len(),
{
    if steps.len() == 0 {
        e
    } else {
        run_ticks(ticked(e, steps[0].0, tile, steps[0].1), steps.drop_first(), tile)
    }
}

pub open spec fn abs(v: int) -> int {
    if v < 0 { -v } else { v }
}

proof fn lemma_isqrt_exists(n: nat)
    ensures
        exists|r: int| #[trigger] is_isqrt(n as int, r),
    decreases n,
{
    if n == 0 {
        assert(is_isqrt(0, 0));
    } else {
        lemma_isqrt_exists((n - 1) as nat);
        let r = choose|r: int| #[trigger] is_isqrt((n - 1) as int, r);
        if (n as int) < (r + 1) * (r + 1) {
            assert(is_isqrt(n as int, r));
        } else {
            assert((r + 1) * (r + 1) <= n < (r + 2) * (r + 2)) by (nonlinear_arith)
                requires n - 1 < (r + 1) * (r + 1), (r + 1) * (r + 1) <= n, 0 <= r;
            assert(is_isqrt(n as int, r + 1));
        }
    }
}

proof fn lemma_isqrt_bounds(rx: int, ry: int)
    ensures
        abs(rx) <= isqrt(rx * rx + ry * ry),
        abs(ry) <= isqrt(rx * rx + ry * ry),
        isqrt(rx * rx + ry * ry) <= abs(rx) + abs(ry),
        (rx != 0 || ry != 0) ==> isqrt(rx * rx + ry * ry) >= 1,
{
    let n = rx * rx + ry * ry;
    assert(n >= 0 && n == abs(rx) * abs(rx) + abs(ry) * abs(ry)) by (nonlinear_arith)
        requires n == rx * rx + ry * ry, abs(rx) == (if rx < 0 { -rx } else { rx }), abs(ry) == (if ry < 0 { -ry } else { ry });
    lemma_isqrt_exists(n as nat);
    let r = isqrt(n);
    assert(is_isqrt(n, r));
    let (a, b) = (abs(rx), abs(ry));
    assert(a <= r && b <= r) by (nonlinear_arith)
        requires 0 <= a, 0 <= b, n == a * a + b * b, n < (r + 1) * (r + 1), 0 <= r;
    assert(r <= a + b) by (nonlinear_arith)
        requires 0 <= a, 0 <= b, n == a * a + b * b, r * r <= n, 0 <= r;
    assert((rx != 0 || ry != 0) ==> r >= 1) by (nonlinear_arith)
        requires 0 <= a, 0 <= b, n == a * a + b * b, n < (r + 1) * (r + 1), 0 <= r, rx != 0 ==> a >= 1, ry != 0 ==> b >= 1;
}

/// An axis coordinate after `j` steps of `step` from `f` along a move whose
/// share on that axis is `dc`.
pub open spec fn along(f: int, dc: int, step: int, j: int) -> int {
    if dc > 0 {
        f + if dc < j * step { dc } else { j * step }
    } else if dc < 0 {
        f - if -dc < j * step { -dc } else { j * step }
    } else {
        f
    }
}

proof fn lemma_along_step(f: int, dc: int, step: int, j: int)
    requires
        step >= 0,
        j >= 0,
    ensures
        advance_coord(along(f, dc, step, j), f + dc, dc, step) == along(f, dc, step, j + 1),
{
    assert((j + 1) * step == j * step + step && j * step >= 0) by (nonlinear_arith)
        requires step >= 0, j >= 0;
}

proof fn lemma_steps_cover(dc: int, speed: int, len: int, n: int)
    requires
        len >= 1,
        abs(dc) <= len,
        speed >= 1,
        n >= 0,
    ensures
        step_length(dc, speed, len) >= 0,
        n * speed >= len ==> n * step_length(dc, speed, len) >= abs(dc),
{
    let a = abs(dc);
    let x = a * speed + len - 1;
    assert(a * speed >= 0) by (nonlinear_arith)
        requires a >= 0, speed >= 1;
    lemma_fundamental_div_mod(x, len);
    lemma_mod_pos_bound(x, len);
    let st = x / len;
    assert(st * len >= a * speed && st >= 0) by (nonlinear_arith)
        requires x == len * st + x % len, 0 <= x % len < len, x == a * speed + len - 1, a * speed >= 0, len >= 1;
    assert(n * (st * len) >= n * (a * speed)) by (nonlinear_arith)
        requires st * len >= a * speed, n >= 0;
    if n * speed >= len {
        assert(n * (a * speed) >= a * len) by (nonlinear_arith)
            requires n * speed >= len, a >= 0;
        assert(n * st >= a) by (nonlinear_arith)
            requires n * (st * len) >= a * len, len >= 1, n >= 0, st >= 0;
    }
}

proof fn lemma_run_arrives(
    e: Entity,
    from: Vector2I,
    destination: Vector2I,
    j: int,
    steps: Seq<(Seq<Vector2I>, Vector2I)>,
    tile: int,
)
    requires
        e.state == (EntityState::Moving { from_position: from, destination }),
        from != destination,
        e.stats.movement_speed >= 1,
        j >= 0,
        steps.len() >= 1,
        (j + steps.len()) * e.stats.movement_speed >= displacement_len(from, destination),
        e.position.x == along(
            from.x as int,
            destination.x - from.x,
            step_length(destination.x - from.x, e.stats.movement_speed as int, displacement_len(from, destination)),
            j,
        ),
        e.position.y == along(
            from.y as int,
            destination.y - from.y,
            step_length(destination.y - from.y, e.stats.movement_speed as int, displacement_len(from, destination)),
            j,
        ),
    ensures
        exists|k: int|
            1 <= k <= steps.len() && #[trigger] run_ticks(e, steps.take(k), tile).position == destination
                && run_ticks(e, steps.take(k), tile).state == EntityState::Idle,
    decreases steps.len(),
{
    let speed = e.stats.movement_speed as int;
    let (dx, dy) = (destination.x - from.x, destination.y - from.y);
    lemma_isqrt_bounds(dx, dy);
    let len = displacement_len(from, destination);
    let (sx, sy) = (step_length(dx, speed, len), step_length(dy, speed, len));
    lemma_steps_cover(dx, speed, len, 0);
    lemma_steps_cover(dy, speed, len, 0);
    lemma_along_step(from.x as int, dx, sx, j);
    lemma_along_step(from.y as int, dy, sy, j);
    let p = stepped(e.position, from, destination, speed, len);
    assert(p.x == along(from.x as int, dx, sx, j + 1));
    assert(p.y == along(from.y as int, dy, sy, j + 1));
    let next = ticked(e, steps[0].0, tile, steps[0].1);
    if dot_to(destination, e.position, p) <= 0 {
        assert(steps.take(1).drop_first() =~= Seq::<(Seq<Vector2I>, Vector2I)>::empty());
        assert(steps.take(1)[0] == steps[0]);
        assert(run_ticks(next, steps.take(1).drop_first(), tile) == next);
        assert(run_ticks(e, steps.take(1), tile) == next);
    } else {
        if steps.len() == 1 {
            lemma_steps_cover(dx, speed, len, j + 1);
            lemma_steps_cover(dy, speed, len, j + 1);
            assert(p == destination);
            let (ax, ay) = (destination.x - e.position.x, destination.y - e.position.y);
            assert(ax * 0 + ay * 0 == 0) by (nonlinear_arith);
            assert(dot_to(destination, e.position, p) == 0);
            assert(false);
        }
        let rest = steps.drop_first();
        assert((j + 1 + rest.len()) * speed == (j + steps.len()) * speed) by (nonlinear_arith)
            requires rest.len() == steps.len() - 1;
        lemma_run_arrives(next, from, destination, j + 1, rest, tile);
        let k = choose|k: int|
            1 <= k <= rest.len() && #[trigger] run_ticks(next, rest.take(k), tile).position == destination
                && run_ticks(next, rest.take(k), tile).state == EntityState::Idle;
        assert(steps.take(k + 1).drop_first() =~= rest.take(k));
        assert(steps.take(k + 1)[0] == steps[0]);
        assert(run_ticks(e, steps.take(k + 1), tile) == run_ticks(next, rest.take(k), tile));
    }
}

/// An entity set moving from its position to another point, with a positive
/// speed, stands idle exactly on the destination after at most `n` ticks,
/// for any `n` with `n * speed` at least the distance (in whole hundredths,
/// rounded down): at most the distance divided by the speed, rounded up.
/// This holds whatever the snapshots and drawn directions of those ticks.
pub proof fn lemma_move_arrives(e: Entity, steps: Seq<(Seq<Vector2I>, Vector2I)>, tile: int)
    requires
        e.state matches EntityState::Moving { from_position, destination } && from_position == e.position
            && from_position != destination,
        e.stats.movement_speed >= 1,
        steps.len() * e.stats.movement_speed >= displacement_len(e.position, effective_position(e)),
    ensures
        exists|k: int|
            1 <= k <= steps.len() && #[trigger] run_ticks(e, steps.take(k), tile).position == effective_position(e)
                && run_ticks(e, steps.take(k), tile).state == EntityState::Idle,
{
    let from = e.position;
    let destination = effective_position(e);
    let speed = e.stats.movement_speed as int;
    lemma_isqrt_bounds(destination.x - from.x, destination.y - from.y);
    assert(steps.len() >= 1) by (nonlinear_arith)
        requires steps.len() * speed >= displacement_len(from, destination), displacement_len(from, destination) >= 1;
    assert(0 * step_length(destination.x - from.x, speed, displacement_len(from, destination)) == 0);
    assert(0 * step_length(destination.y - from.y, speed, displacement_len(from, destination)) == 0);
    lemma_run_arrives(e, from, destination, 0, steps, tile);
}

} // verus!
