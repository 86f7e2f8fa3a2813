//! The turn engine: coordinate clamping, collision, tile entry and exit,
//! the pending-effect grid, and the per-creature step the phases run.

use vstd::prelude::*;

use crate::effect::{spec_area_effects, spec_motion, spec_transform, Effect};
use crate::map::{
    MapModel, Species, TileMap, PLAY_AREA_HEIGHT, PLAY_AREA_WIDTH,
};
use crate::psychics::{
    distribute_psychics, hylic_views, psychic_views, spec_coords_of, spec_spawned_hylic,
    spec_spawned_psychic, Hylic, HylicModel, Position, Psychic, PsychicModel, SoulModel,
    TraceModel,
};

verus! {

/// Default number of ticks in one generation.
pub const MAX_TURN_NUMBER: usize = 100;

/// The turn counters of the engine: the tick budget of a generation, the
/// tick reached so far, and how many generations have finished.
#[derive(Clone, Copy, PartialEq, Eq, Structural, Debug)]
pub struct SimulationSettings {
    pub max_turn_number: usize,
    pub current_turn: usize,
    pub current_generation: usize,
}

/// A coordinate pushed past either end of an axis stops on the border:
/// values at or above `limit` become `limit - 1`, negative values become 0.
pub open spec fn spec_clamp(v: int, limit: int) -> int {
    if v >= limit {
        limit - 1
    } else if v < 0 {
        0
    } else {
        v
    }
}

/// Clamp one axis of a proposed coordinate into `[0, limit - 1]`.
pub fn clamp_axis(v: i64, limit: u32) -> (r: u32)
    requires
        1 <= limit,
    ensures
        r == spec_clamp(v as int, limit as int),
        r < limit,
{
    if v >= limit as i64 {
        limit - 1
    } else if v < 0 {
        0
    } else {
        v as u32
    }
}

/// Clamp a proposed x coordinate into the standard playing field.
pub fn process_x(new_pos: i32) -> (r: i32)
    ensures
        r == spec_clamp(new_pos as int, PLAY_AREA_WIDTH as int),
        0 <= r < PLAY_AREA_WIDTH,
{
    if new_pos >= PLAY_AREA_WIDTH as i32 {
        PLAY_AREA_WIDTH as i32 - 1
    } else if new_pos < 0 {
        0
    } else {
        new_pos
    }
}

/// Clamp a proposed y coordinate into the standard playing field.
pub fn process_y(new_pos: i32) -> (r: i32)
    ensures
        r == spec_clamp(new_pos as int, PLAY_AREA_HEIGHT as int),
        0 <= r < PLAY_AREA_HEIGHT,
{
    if new_pos >= PLAY_AREA_HEIGHT as i32 {
        PLAY_AREA_HEIGHT as i32 - 1
    } else if new_pos < 0 {
        0
    } else {
        new_pos
    }
}

/// The four orthogonal neighbours of `pos`, clamped to a `w` by `h` grid,
/// in the fixed scan order up, right, left, down.
pub open spec fn spec_adjacent(pos: (u32, u32), w: int, h: int) -> Seq<(u32, u32)> {
    seq![
        ((spec_clamp(pos.0 as int, w)) as u32, (spec_clamp(pos.1 as int + 1, h)) as u32),
        ((spec_clamp(pos.0 as int + 1, w)) as u32, (spec_clamp(pos.1 as int, h)) as u32),
        ((spec_clamp(pos.0 as int - 1, w)) as u32, (spec_clamp(pos.1 as int, h)) as u32),
        ((spec_clamp(pos.0 as int, w)) as u32, (spec_clamp(pos.1 as int - 1, h)) as u32),
    ]
}

/// The clamped orthogonal neighbours of `pos` on a `width` by `height`
/// grid, in scan order.
pub fn adjacent_coords(pos: (u32, u32), width: u32, height: u32) -> (r: Vec<(u32, u32)>)
    requires
        1 <= width,
        1 <= height,
        pos.0 < width,
        pos.1 < height,
    ensures
        r@ == spec_adjacent(pos, width as int, height as int),
        r@.len() == 4,
        forall|k: int| 0 <= k < 4 ==> (#[trigger] r@[k]).0 < width && r@[k].1 < height,
{
    let mut output: Vec<(u32, u32)> = Vec::new();
    let x = pos.0;
    let y = pos.1;
    let up = (clamp_axis(x as i64, width), clamp_axis(y as i64 + 1, height));
    let right = (clamp_axis(x as i64 + 1, width), clamp_axis(y as i64, height));
    let left = (clamp_axis(x as i64 - 1, width), clamp_axis(y as i64, height));
    let down = (clamp_axis(x as i64, width), clamp_axis(y as i64 - 1, height));
    output.push(up);
    output.push(right);
    output.push(left);
    output.push(down);
    proof {
        assert(output@ =~= spec_adjacent(pos, width as int, height as int));
    }
    output
}

/// The clamped orthogonal neighbours of `pos` on the standard playing
/// field, in scan order.
pub fn get_adjacent_coords(pos: (u32, u32)) -> (r: Vec<(u32, u32)>)
    requires
        pos.0 < PLAY_AREA_WIDTH,
        pos.1 < PLAY_AREA_HEIGHT,
    ensures
        r@ == spec_adjacent(pos, PLAY_AREA_WIDTH as int, PLAY_AREA_HEIGHT as int),
        r@.len() == 4,
{
    adjacent_coords(pos, PLAY_AREA_WIDTH, PLAY_AREA_HEIGHT)
}

/// Whether the tile at `new_pos` holds nothing, so a creature may enter it.
pub fn target_is_empty(new_pos: (u32, u32), map: &TileMap) -> (r: bool)
    requires
        map.wf(),
        map@.in_bounds(new_pos.0 as int, new_pos.1 as int),
    ensures
        r == (map@.tile_at(new_pos.0 as int, new_pos.1 as int) == Species::Empty),
{
    let idx = map.xy_idx(new_pos.0, new_pos.1);
    map.tiles[idx] == Species::Empty
}

/// Which of the four clamped neighbours of `pos` are empty, in scan order.
pub fn find_adjacent_collisions(pos: (u32, u32), map: &TileMap) -> (r: Vec<bool>)
    requires
        map.wf(),
        map@.in_bounds(pos.0 as int, pos.1 as int),
    ensures
        r@.len() == 4,
        forall|k: int|
            0 <= k < 4 ==> r@[k] == {
                let n = spec_adjacent(pos, map@.width, map@.height)[k];
                map@.tile_at(n.0 as int, n.1 as int) == Species::Empty
            },
{
    let neighbours = adjacent_coords(pos, map.width, map.height);
    let mut output: Vec<bool> = Vec::new();
    let mut i: usize = 0;
    while i < 4
        invariant
            i <= 4,
            map.wf(),
            neighbours@ == spec_adjacent(pos, map@.width, map@.height),
            neighbours@.len() == 4,
            forall|k: int|
                0 <= k < 4 ==> (#[trigger] neighbours@[k]).0 < map.width && neighbours@[k].1
                    < map.height,
            output@.len() == i,
            forall|k: int|
                0 <= k < i ==> output@[k] == {
                    let n = spec_adjacent(pos, map@.width, map@.height)[k];
                    map@.tile_at(n.0 as int, n.1 as int) == Species::Empty
                },
        decreases 4 - i,
    {
        let n = neighbours[i];
        output.push(target_is_empty(n, map));
        i = i + 1;
    }
    output
}

/// The effect pending at `pos` in the effect grid.
pub fn grab_effect_at_pos(map: &TileMap, pos: (u32, u32)) -> (r: Effect)
    requires
        map.wf(),
        map@.in_bounds(pos.0 as int, pos.1 as int),
    ensures
        r == map@.effects[map@.idx(pos.0 as int, pos.1 as int)],
{
    let idx = map.xy_idx(pos.0, pos.1);
    map.effect_map[idx]
}

/// Clear the pending effect at `pos` back to `Void`.
pub fn void_effect_at(map: &mut TileMap, pos: (u32, u32))
    requires
        old(map).wf(),
        old(map)@.in_bounds(pos.0 as int, pos.1 as int),
    ensures
        final(map)@.effects == old(map)@.effects.update(
            old(map)@.idx(pos.0 as int, pos.1 as int),
            Effect::Void,
        ),
        final(map)@.tiles == old(map)@.tiles,
        final(map)@.width == old(map)@.width,
        final(map)@.height == old(map)@.height,
        final(map).wf(),
        final(map).population == old(map).population,
        final(map).catalogue == old(map).catalogue,
        final(map).locations == old(map).locations,
{
    let idx = map.xy_idx(pos.0, pos.1);
    map.effect_map[idx] = Effect::Void;
}

/// Write `species` into the tile at `(x, y)`: the creature enters it.
pub fn enter_tile(map: &mut TileMap, x: u32, y: u32, species: Species)
    requires
        old(map).wf(),
        old(map)@.in_bounds(x as int, y as int),
    ensures
        final(map)@.tiles == old(map)@.tiles.update(old(map)@.idx(x as int, y as int), species),
        final(map)@.effects == old(map)@.effects,
        final(map)@.width == old(map)@.width,
        final(map)@.height == old(map)@.height,
        final(map).wf(),
        final(map).population == old(map).population,
        final(map).catalogue == old(map).catalogue,
        final(map).locations == old(map).locations,
{
    let idx = map.xy_idx(x, y);
    map.tiles[idx] = species;
}

/// Clear the tile at `(x, y)` to `Empty`: the creature leaves it.
pub fn exit_tile(map: &mut TileMap, x: u32, y: u32)
    requires
        old(map).wf(),
        old(map)@.in_bounds(x as int, y as int),
    ensures
        final(map)@.tiles == old(map)@.tiles.update(
            old(map)@.idx(x as int, y as int),
            Species::Empty,
        ),
        final(map)@.effects == old(map)@.effects,
        final(map)@.width == old(map)@.width,
        final(map)@.height == old(map)@.height,
        final(map).wf(),
        final(map).population == old(map).population,
        final(map).catalogue == old(map).catalogue,
        final(map).locations == old(map).locations,
{
    let idx = map.xy_idx(x, y);
    map.tiles[idx] = Species::Empty;
}

/// The species a creature has after `action` acts on it.
pub fn process_metamorphosis(action: Effect, species: Species) -> (r: Species)
    ensures
        r == spec_transform(action, species),
{
    action.act_transform(species)
}

/// Where a creature at `(cur_x, cur_y)` ends up when `action` moves it on
/// the grid `m`: the offset target clamped to the borders, unless that
/// tile is occupied, in which case the creature stays put.
pub open spec fn spec_motion_result(m: MapModel, cur_x: int, cur_y: int, action: Effect) -> (
    int,
    int,
) {
    let offset = spec_motion(action);
    let nx = spec_clamp(cur_x + offset.0 as int, m.width);
    let ny = spec_clamp(cur_y + offset.1 as int, m.height);
    if m.tile_at(nx, ny) == Species::Empty {
        (nx, ny)
    } else {
        (cur_x, cur_y)
    }
}

/// Motion resolution hands a `Move` its own offset unchanged and every
/// other effect the zero offset.
pub proof fn lemma_motion_offsets(a: Effect)
    ensures
        a matches Effect::Move { dx, dy } ==> spec_motion(a) == (dx, dy),
        !(a is Move) ==> spec_motion(a) == (0i32, 0i32),
{
}

/// Border clamp: motion resolution never produces a coordinate off the
/// grid, for any start on it and any offset.
pub proof fn lemma_motion_in_bounds(m: MapModel, x: int, y: int, action: Effect)
    requires
        m.wf(),
        m.in_bounds(x, y),
    ensures
        m.in_bounds(
            spec_motion_result(m, x, y, action).0,
            spec_motion_result(m, x, y, action).1,
        ),
{
}

/// Collision: a motion aimed at an occupied tile is rejected and leaves
/// the creature where it stood.
pub proof fn lemma_motion_collision(m: MapModel, x: int, y: int, action: Effect)
    requires
        m.wf(),
        m.in_bounds(x, y),
    ensures
        ({
            let offset = spec_motion(action);
            let nx = spec_clamp(x + offset.0 as int, m.width);
            let ny = spec_clamp(y + offset.1 as int, m.height);
            m.tile_at(nx, ny) != Species::Empty ==> spec_motion_result(m, x, y, action) == (x, y)
        }),
{
}

/// Resolve the motion of `action` for a creature at `(cur_x, cur_y)`:
/// clamp the target to the borders and reject it if the tile is occupied.
pub fn process_motion(cur_x: u32, cur_y: u32, action: Effect, map: &TileMap) -> (r: (u32, u32))
    requires
        map.wf(),
        map@.in_bounds(cur_x as int, cur_y as int),
    ensures
        (r.0 as int, r.1 as int) == spec_motion_result(map@, cur_x as int, cur_y as int, action),
        map@.in_bounds(r.0 as int, r.1 as int),
        map@.tile_at(r.0 as int, r.1 as int) != Species::Empty ==> r == (cur_x, cur_y),
{
    let (dx, dy) = action.act_motion();
    let nx = clamp_axis_offset(cur_x, dx, map.width);
    let ny = clamp_axis_offset(cur_y, dy, map.height);
    if target_is_empty((nx, ny), map) {
        (nx, ny)
    } else {
        (cur_x, cur_y)
    }
}

/// Clamp `base + offset` into `[0, limit - 1]`, with the sum taken over
/// mathematical integers.
fn clamp_axis_offset(base: u32, offset: i32, limit: u32) -> (r: u32)
    requires
        1 <= limit,
        base < limit,
    ensures
        r == spec_clamp(base as int + offset as int, limit as int),
        r < limit,
{
    clamp_axis(base as i64 + offset as i64, limit)
}

/// The effect grid after the effects in `batch[..n]` are written into
/// `grid` in order; a later writer overwrites an earlier one.
pub open spec fn spec_write_effects(
    m: MapModel,
    grid: Seq<Effect>,
    batch: Seq<(Effect, (u32, u32))>,
    n: int,
) -> Seq<Effect>
    decreases n,
{
    if n <= 0 {
        grid
    } else {
        let prev = spec_write_effects(m, grid, batch, n - 1);
        let e = batch[n - 1];
        prev.update(m.idx(e.1.0 as int, e.1.1 as int), e.0)
    }
}

/// One creature acting on the grid, in the strict order of a tick: it
/// leaves its tile, its motion is resolved against the grid without it,
/// it transforms, its area effects are written into the effect grid, and
/// it enters its (possibly new) tile. Yields the new grid, the new
/// position and the new species.
pub open spec fn spec_step_creature(m: MapModel, pos: (u32, u32), s: Species, action: Effect) -> (
    MapModel,
    (u32, u32),
    Species,
) {
    let m1 = MapModel {
        tiles: m.tiles.update(m.idx(pos.0 as int, pos.1 as int), Species::Empty),
        effects: m.effects,
        width: m.width,
        height: m.height,
    };
    let mr = spec_motion_result(m1, pos.0 as int, pos.1 as int, action);
    let np = (mr.0 as u32, mr.1 as u32);
    let s2 = spec_transform(action, s);
    let eff = spec_area_effects(action, np, m1);
    let m2 = MapModel {
        tiles: m1.tiles,
        effects: spec_write_effects(m1, m1.effects, eff, eff.len() as int),
        width: m1.width,
        height: m1.height,
    };
    let m3 = MapModel {
        tiles: m2.tiles.update(m2.idx(np.0 as int, np.1 as int), s2),
        effects: m2.effects,
        width: m2.width,
        height: m2.height,
    };
    (m3, np, s2)
}

/// A pending effect firing on the creature standing at `pos`: the slot
/// is read and cleared, and the effect then acts as the creature's
/// action for a full step.
pub open spec fn spec_effect_step(m: MapModel, pos: (u32, u32), s: Species) -> (
    MapModel,
    (u32, u32),
    Species,
) {
    let a = m.effects[m.idx(pos.0 as int, pos.1 as int)];
    let mv = MapModel {
        tiles: m.tiles,
        effects: m.effects.update(m.idx(pos.0 as int, pos.1 as int), Effect::Void),
        width: m.width,
        height: m.height,
    };
    spec_step_creature(mv, pos, s, a)
}

/// Run one creature's step: exit, motion, transform, area effects,
/// enter.
pub fn step_creature(map: &mut TileMap, pos: (u32, u32), species: Species, action: Effect) -> (r: (
    (u32, u32),
    Species,
))
    requires
        old(map).wf(),
        old(map)@.in_bounds(pos.0 as int, pos.1 as int),
    ensures
        final(map)@ == spec_step_creature(old(map)@, pos, species, action).0,
        r.0 == spec_step_creature(old(map)@, pos, species, action).1,
        r.1 == spec_step_creature(old(map)@, pos, species, action).2,
        final(map).wf(),
        final(map)@.in_bounds(r.0.0 as int, r.0.1 as int),
        final(map).population == old(map).population,
        final(map).catalogue == old(map).catalogue,
        final(map).locations == old(map).locations,
{
    exit_tile(map, pos.0, pos.1);
    let np = process_motion(pos.0, pos.1, action, map);
    let s2 = process_metamorphosis(action, species);
    process_area_effects(map, action, np);
    enter_tile(map, np.0, np.1, s2);
    (np, s2)
}

/// Run the pending effect at the creature's tile as its step: the slot
/// is read, cleared, and applied.
pub fn effect_step(map: &mut TileMap, pos: (u32, u32), species: Species) -> (r: (
    (u32, u32),
    Species,
))
    requires
        old(map).wf(),
        old(map)@.in_bounds(pos.0 as int, pos.1 as int),
    ensures
        final(map)@ == spec_effect_step(old(map)@, pos, species).0,
        r.0 == spec_effect_step(old(map)@, pos, species).1,
        r.1 == spec_effect_step(old(map)@, pos, species).2,
        final(map).wf(),
        final(map)@.in_bounds(r.0.0 as int, r.0.1 as int),
        final(map).population == old(map).population,
        final(map).catalogue == old(map).catalogue,
        final(map).locations == old(map).locations,
{
    let a = grab_effect_at_pos(map, pos);
    void_effect_at(map, pos);
    step_creature(map, pos, species, a)
}

/// Resolve the area effects of `action` at `cur_pos` and write each into
/// the effect grid at its target, in batch order; the last writer to a
/// tile wins.
pub fn process_area_effects(map: &mut TileMap, action: Effect, cur_pos: (u32, u32))
    requires
        old(map).wf(),
        old(map)@.in_bounds(cur_pos.0 as int, cur_pos.1 as int),
    ensures
        final(map)@.effects == spec_write_effects(
            old(map)@,
            old(map)@.effects,
            spec_area_effects(action, cur_pos, old(map)@),
            spec_area_effects(action, cur_pos, old(map)@).len() as int,
        ),
        final(map)@.tiles == old(map)@.tiles,
        final(map)@.width == old(map)@.width,
        final(map)@.height == old(map)@.height,
        final(map).wf(),
        final(map).population == old(map).population,
        final(map).catalogue == old(map).catalogue,
        final(map).locations == old(map).locations,
{
    let effects = action.act_area_effects(cur_pos, map);
    let ghost m0 = map@;
    let ghost eff = spec_area_effects(action, cur_pos, map@);
    let mut i: usize = 0;
    while i < effects.len()
        invariant
            i <= effects.len(),
            effects@ == eff,
            forall|k: int|
                0 <= k < eff.len() ==> m0.in_bounds(#[trigger] eff[k].1.0 as int,
                    eff[k].1.1 as int),
            map.wf(),
            map@.tiles == m0.tiles,
            map@.width == m0.width,
            map@.height == m0.height,
            map@.effects == spec_write_effects(m0, m0.effects, eff, i as int),
            map.population == old(map).population,
            map.catalogue == old(map).catalogue,
            map.locations == old(map).locations,
        decreases effects.len() - i,
    {
        let (a, (tx, ty)) = effects[i];
        let idx = map.xy_idx(tx, ty);
        map.effect_map[idx] = a;
        i = i + 1;
    }
}


/// The whole simulated world: the grid, the fixed-policy creatures, the
/// learning agents, and the turn counters. The engine mutates it one
/// phase at a time; the caller supplies each agent's chosen action index
/// between the phases.
pub struct Simulation {
    pub map: TileMap,
    pub hylics: Vec<Hylic>,
    pub psychics: Vec<Psychic>,
    pub settings: SimulationSettings,
}

impl Simulation {
    /// The grid is well formed and every creature stands on it.
    pub open spec fn wf(self) -> bool {
        &&& self.map.wf()
        &&& forall|i: int|
            0 <= i < self.hylics@.len() ==> self.map@.in_bounds(
                (#[trigger] self.hylics@[i]).position.x as int,
                self.hylics@[i].position.y as int,
            )
        &&& forall|i: int|
            0 <= i < self.psychics@.len() ==> self.map@.in_bounds(
                (#[trigger] self.psychics@[i]).position.x as int,
                self.psychics@[i].position.y as int,
            )
    }
}

/// Where the beacon stands: the position of the last hylic of species
/// `Beacon`, or the origin when there is none.
pub open spec fn spec_beacon_pos(hs: Seq<HylicModel>) -> (u32, u32)
    decreases hs.len(),
{
    if hs.len() == 0 {
        (0u32, 0u32)
    } else if hs.last().species == Species::Beacon {
        (hs.last().position.x, hs.last().position.y)
    } else {
        spec_beacon_pos(hs.drop_last())
    }
}

/// The motion log after an agent picks `action`: the action's offset is
/// appended unless it was already logged.
pub open spec fn spec_record_motion(chosen: Seq<(i32, i32)>, action: Effect) -> Seq<(i32, i32)> {
    let mv = spec_motion(action);
    if chosen.contains(mv) {
        chosen
    } else {
        chosen.push(mv)
    }
}

/// Whether the motion log already holds the offset `mv`.
fn motions_contains(chosen: &Vec<(i32, i32)>, mv: (i32, i32)) -> (r: bool)
    ensures
        r == chosen@.contains(mv),
{
    let mut i: usize = 0;
    while i < chosen.len()
        invariant
            i <= chosen@.len(),
            forall|k: int| 0 <= k < i ==> chosen@[k] != mv,
        decreases chosen@.len() - i,
    {
        if chosen[i].0 == mv.0 && chosen[i].1 == mv.1 {
            assert(chosen@[i as int] == mv);
            return true;
        }
        i = i + 1;
    }
    assert(!chosen@.contains(mv));
    false
}

/// The absolute value of an integer.
pub open spec fn spec_abs(v: int) -> int {
    if v < 0 {
        -v
    } else {
        v
    }
}

/// What an agent perceives before deciding, in exact integer form: the
/// signed offsets from it to the beacon, which of its four clamped
/// neighbour tiles are empty, and the Manhattan distance to the beacon.
/// A policy outside the engine turns these into its input features.
pub struct SenseData {
    pub dx: i64,
    pub dy: i64,
    pub adjacent_empty: Vec<bool>,
    pub manhattan: u64,
}

/// The first-pass fold over the fixed-policy creatures: each one in turn
/// performs a stand-still step on the grid left by its predecessors.
pub open spec fn spec_hylic_phase(m: MapModel, hs: Seq<HylicModel>, n: int) -> (
    MapModel,
    Seq<HylicModel>,
)
    decreases n,
{
    if n <= 0 {
        (m, hs)
    } else {
        let prev = spec_hylic_phase(m, hs, n - 1);
        let hm = prev.1[n - 1];
        let st = spec_step_creature(
            prev.0,
            (hm.position.x, hm.position.y),
            hm.species,
            Effect::Move { dx: 0, dy: 0 },
        );
        let nm = HylicModel {
            position: Position {
                x: st.1.0,
                y: st.1.1,
                starting_position: hm.position.starting_position,
            },
            trace: hm.trace,
            species: st.2,
        };
        (st.0, prev.1.update(n - 1, nm))
    }
}

/// Whether a tile acts for itself: wall and painted cells have no
/// creature record, so the engine fires the effects pending at them
/// directly in the second pass.
pub open spec fn spec_inert(s: Species) -> bool {
    s == Species::Wall || s == Species::Painted
}

/// The inert-tile sweep over the first `n` cells, in row-major order:
/// every inert tile runs the effect pending at it exactly as a creature
/// standing there would.
pub open spec fn spec_tile_effect_pass(m: MapModel, n: int) -> MapModel
    decreases n,
{
    if n <= 0 {
        m
    } else {
        let prev = spec_tile_effect_pass(m, n - 1);
        let k = n - 1;
        if spec_inert(prev.tiles[k]) {
            spec_effect_step(prev, ((k % m.width) as u32, (k / m.width) as u32), prev.tiles[k]).0
        } else {
            prev
        }
    }
}

/// The second-pass fold over the fixed-policy creatures: each one runs
/// the effect pending at its tile and records the outcome in its trace.
pub open spec fn spec_effect_phase_h(m: MapModel, hs: Seq<HylicModel>, n: int) -> (
    MapModel,
    Seq<HylicModel>,
)
    decreases n,
{
    if n <= 0 {
        (m, hs)
    } else {
        let prev = spec_effect_phase_h(m, hs, n - 1);
        let hm = prev.1[n - 1];
        let st = spec_effect_step(prev.0, (hm.position.x, hm.position.y), hm.species);
        let nm = HylicModel {
            position: Position {
                x: st.1.0,
                y: st.1.1,
                starting_position: hm.position.starting_position,
            },
            trace: TraceModel {
                positions: hm.trace.positions.push(st.1),
                identity: hm.trace.identity.push(st.2),
                shipped_positions: hm.trace.shipped_positions,
                shipped_identity: hm.trace.shipped_identity,
                original_species: hm.trace.original_species,
            },
            species: st.2,
        };
        (st.0, prev.1.update(n - 1, nm))
    }
}

/// The second-pass fold over the agents: each one runs the effect
/// pending at its tile and records the outcome in its trace.
pub open spec fn spec_effect_phase_p(m: MapModel, ps: Seq<PsychicModel>, n: int) -> (
    MapModel,
    Seq<PsychicModel>,
)
    decreases n,
{
    if n <= 0 {
        (m, ps)
    } else {
        let prev = spec_effect_phase_p(m, ps, n - 1);
        let pm = prev.1[n - 1];
        let st = spec_effect_step(prev.0, (pm.position.x, pm.position.y), pm.species);
        let nm = PsychicModel {
            position: Position {
                x: st.1.0,
                y: st.1.1,
                starting_position: pm.position.starting_position,
            },
            soul: pm.soul,
            trace: TraceModel {
                positions: pm.trace.positions.push(st.1),
                identity: pm.trace.identity.push(st.2),
                shipped_positions: pm.trace.shipped_positions,
                shipped_identity: pm.trace.shipped_identity,
                original_species: pm.trace.original_species,
            },
            species: st.2,
        };
        (st.0, prev.1.update(n - 1, nm))
    }
}

/// The position of the last beacon in the list, or the origin if none.
pub fn find_beacon_in(hylics: &Vec<Hylic>) -> (r: (u32, u32))
    ensures
        r == spec_beacon_pos(hylic_views(hylics@)),
{
    let ghost hv = hylic_views(hylics@);
    let mut found: (u32, u32) = (0, 0);
    let mut i: usize = 0;
    while i < hylics.len()
        invariant
            i <= hylics@.len(),
            hv == hylic_views(hylics@),
            found == spec_beacon_pos(hv.take(i as int)),
        decreases hylics@.len() - i,
    {
        if hylics[i].species == Species::Beacon {
            found = (hylics[i].position.x, hylics[i].position.y);
        }
        proof {
            assert(hv.take(i + 1).drop_last() =~= hv.take(i as int));
            assert(hv.take(i + 1).last() == hv[i as int]);
        }
        i = i + 1;
    }
    proof {
        assert(hv.take(hv.len() as int) =~= hv);
    }
    found
}

impl Simulation {
    /// A fresh world over a freshly built map: the creatures the grid
    /// spawns, at turn zero of generation zero.
    pub fn new(map: TileMap, max_turn_number: usize) -> (r: Simulation)
        requires
            map.wf(),
        ensures
            r.wf(),
            r.map@ == map@,
            r.map.population@ == map.population@,
            r.map.catalogue@ == map.catalogue@,
            r.map.locations@ == map.locations@,
            r.settings == (SimulationSettings {
                max_turn_number,
                current_turn: 0,
                current_generation: 0,
            }),
            ({
                let side = map@.width * map@.height;
                let bc = spec_coords_of(map@.tiles, map@.width, Species::Beacon, side);
                let ac = spec_coords_of(map@.tiles, map@.width, Species::Agent, side);
                &&& hylic_views(r.hylics@).len() == bc.len()
                &&& forall|j: int|
                    0 <= j < bc.len() ==> #[trigger] hylic_views(r.hylics@)[j]
                        == spec_spawned_hylic(bc[j])
                &&& psychic_views(r.psychics@).len() == ac.len()
                &&& forall|j: int|
                    0 <= j < ac.len() ==> #[trigger] psychic_views(r.psychics@)[j]
                        == spec_spawned_psychic(ac[j])
            }),
    {
        let (hylics, psychics) = distribute_psychics(&map);
        let r = Simulation {
            map,
            hylics,
            psychics,
            settings: SimulationSettings { max_turn_number, current_turn: 0, current_generation: 0 },
        };
        proof {
            assert forall|j: int| 0 <= j < r.hylics@.len() implies r.map@.in_bounds(
                (#[trigger] r.hylics@[j]).position.x as int,
                r.hylics@[j].position.y as int,
            ) by {
                assert(hylic_views(r.hylics@)[j] == r.hylics@[j]@);
            }
            assert forall|j: int| 0 <= j < r.psychics@.len() implies r.map@.in_bounds(
                (#[trigger] r.psychics@[j]).position.x as int,
                r.psychics@[j].position.y as int,
            ) by {
                assert(psychic_views(r.psychics@)[j] == r.psychics@[j]@);
            }
            assert forall|j: int|
                0 <= j < hylic_views(r.hylics@).len() implies #[trigger] hylic_views(r.hylics@)[j]
                == r.hylics@[j]@ by {}
            assert forall|j: int|
                0 <= j < psychic_views(r.psychics@).len() implies #[trigger] psychic_views(
                r.psychics@,
            )[j] == r.psychics@[j]@ by {}
        }
        r
    }

    /// The current beacon position, or the origin if no beacon lives.
    pub fn find_beacon(&self) -> (r: (u32, u32))
        ensures
            r == spec_beacon_pos(hylic_views(self.hylics@)),
    {
        find_beacon_in(&self.hylics)
    }

    /// What agent `i` senses right now: beacon offsets, neighbour
    /// occupancy in scan order, and Manhattan distance to the beacon.
    pub fn agent_sense(&self, i: usize) -> (r: SenseData)
        requires
            self.wf(),
            i < self.psychics@.len(),
        ensures
            ({
                let p = self.psychics@[i as int].position;
                let b = spec_beacon_pos(hylic_views(self.hylics@));
                &&& r.dx == b.0 - p.x
                &&& r.dy == b.1 - p.y
                &&& r.manhattan == spec_abs(b.0 - p.x) + spec_abs(b.1 - p.y)
                &&& r.adjacent_empty@.len() == 4
                &&& forall|k: int|
                    0 <= k < 4 ==> r.adjacent_empty@[k] == {
                        let n = spec_adjacent((p.x, p.y), self.map@.width, self.map@.height)[k];
                        self.map@.tile_at(n.0 as int, n.1 as int) == Species::Empty
                    }
            }),
    {
        let (bx, by) = self.find_beacon();
        let px = self.psychics[i].position.x;
        let py = self.psychics[i].position.y;
        let dx = bx as i64 - px as i64;
        let dy = by as i64 - py as i64;
        let adx: u64 = if dx < 0 {
            (-dx) as u64
        } else {
            dx as u64
        };
        let ady: u64 = if dy < 0 {
            (-dy) as u64
        } else {
            dy as u64
        };
        let adjacent_empty = find_adjacent_collisions((px, py), &self.map);
        SenseData { dx, dy, adjacent_empty, manhattan: adx + ady }
    }

    /// Run the first pass for every fixed-policy creature, in arena
    /// order: each stands still, re-enters its tile, and may be clamped
    /// or blocked like any other creature.
    pub fn hylic_phase(&mut self)
        requires
            old(self).wf(),
            old(self).settings.current_turn < old(self).settings.max_turn_number,
        ensures
            final(self).wf(),
            final(self).map@ == spec_hylic_phase(
                old(self).map@,
                hylic_views(old(self).hylics@),
                old(self).hylics@.len() as int,
            ).0,
            hylic_views(final(self).hylics@) == spec_hylic_phase(
                old(self).map@,
                hylic_views(old(self).hylics@),
                old(self).hylics@.len() as int,
            ).1,
            psychic_views(final(self).psychics@) == psychic_views(old(self).psychics@),
            final(self).settings == old(self).settings,
            final(self).map.population == old(self).map.population,
            final(self).map.catalogue == old(self).map.catalogue,
            final(self).map.locations == old(self).map.locations,
    {
        let ghost m0 = self.map@;
        let ghost hv0 = hylic_views(self.hylics@);
        let ghost ps0 = psychic_views(self.psychics@);
        let ghost settings0 = self.settings;
        let n = self.hylics.len();
        let mut i: usize = 0;
        while i < n
            invariant
                i <= n,
                n == self.hylics@.len(),
                hv0.len() == n,
                self.map.wf(),
                self.map@.width == m0.width,
                self.map@.height == m0.height,
                spec_hylic_phase(m0, hv0, i as int).0 == self.map@,
                spec_hylic_phase(m0, hv0, i as int).1 == hylic_views(self.hylics@),
                forall|j: int|
                    0 <= j < self.hylics@.len() ==> self.map@.in_bounds(
                        (#[trigger] self.hylics@[j]).position.x as int,
                        self.hylics@[j].position.y as int,
                    ),
                forall|j: int|
                    0 <= j < self.psychics@.len() ==> self.map@.in_bounds(
                        (#[trigger] self.psychics@[j]).position.x as int,
                        self.psychics@[j].position.y as int,
                    ),
                psychic_views(self.psychics@) == ps0,
                self.settings == settings0,
                self.map.population == old(self).map.population,
                self.map.catalogue == old(self).map.catalogue,
                self.map.locations == old(self).map.locations,
            decreases n - i,
        {
            let hx = self.hylics[i].position.x;
            let hy = self.hylics[i].position.y;
            let hsp = self.hylics[i].species;
            let (np, s2) = step_creature(
                &mut self.map,
                (hx, hy),
                hsp,
                Effect::Move { dx: 0, dy: 0 },
            );
            self.hylics[i].position.x = np.0;
            self.hylics[i].position.y = np.1;
            self.hylics[i].species = s2;
            proof {
                assert(hylic_views(self.hylics@) =~= spec_hylic_phase(m0, hv0, i as int + 1).1);
                assert(psychic_views(self.psychics@) =~= ps0);
            }
            i = i + 1;
        }
    }

    /// Let agent `i` act on its `choice`-th action: log the motion
    /// offset for the diversity bonus, then run the full step.
    pub fn agent_act(&mut self, i: usize, choice: usize)
        requires
            old(self).wf(),
            old(self).settings.current_turn < old(self).settings.max_turn_number,
            i < old(self).psychics@.len(),
            choice < old(self).psychics@[i as int].soul@.action_choices.len(),
        ensures
            final(self).wf(),
            ({
                let p = old(self).psychics@[i as int]@;
                let action = p.soul.action_choices[choice as int];
                let st = spec_step_creature(
                    old(self).map@,
                    (p.position.x, p.position.y),
                    p.species,
                    action,
                );
                &&& final(self).map@ == st.0
                &&& psychic_views(final(self).psychics@) == psychic_views(
                    old(self).psychics@,
                ).update(
                    i as int,
                    PsychicModel {
                        position: Position {
                            x: st.1.0,
                            y: st.1.1,
                            starting_position: p.position.starting_position,
                        },
                        soul: SoulModel {
                            action_choices: p.soul.action_choices,
                            actions_chosen: spec_record_motion(p.soul.actions_chosen, action),
                            fitness: p.soul.fitness,
                        },
                        trace: p.trace,
                        species: st.2,
                    },
                )
            }),
            hylic_views(final(self).hylics@) == hylic_views(old(self).hylics@),
            final(self).settings == old(self).settings,
            final(self).map.population == old(self).map.population,
            final(self).map.catalogue == old(self).map.catalogue,
            final(self).map.locations == old(self).map.locations,
    {
        let action = self.psychics[i].soul.action_choices[choice];
        let (mdx, mdy) = action.act_motion();
        if !motions_contains(&self.psychics[i].soul.actions_chosen, (mdx, mdy)) {
            self.psychics[i].soul.actions_chosen.push((mdx, mdy));
        }
        let px = self.psychics[i].position.x;
        let py = self.psychics[i].position.y;
        let psp = self.psychics[i].species;
        let (np, s2) = step_creature(&mut self.map, (px, py), psp, action);
        self.psychics[i].position.x = np.0;
        self.psychics[i].position.y = np.1;
        self.psychics[i].species = s2;
        proof {
            let p = old(self).psychics@[i as int]@;
            let st = spec_step_creature(
                old(self).map@,
                (p.position.x, p.position.y),
                p.species,
                p.soul.action_choices[choice as int],
            );
            assert(psychic_views(self.psychics@) =~= psychic_views(old(self).psychics@).update(
                i as int,
                PsychicModel {
                    position: Position {
                        x: st.1.0,
                        y: st.1.1,
                        starting_position: p.position.starting_position,
                    },
                    soul: SoulModel {
                        action_choices: p.soul.action_choices,
                        actions_chosen: spec_record_motion(
                            p.soul.actions_chosen,
                            p.soul.action_choices[choice as int],
                        ),
                        fitness: p.soul.fitness,
                    },
                    trace: p.trace,
                    species: st.2,
                },
            ));
            assert(hylic_views(self.hylics@) =~= hylic_views(old(self).hylics@));
        }
    }

    /// Run the second pass of a tick. First every inert tile (a wall or
    /// painted cell, which has no creature record) fires the effect
    /// pending at it, in row-major order; then every creature,
    /// fixed-policy ones first and agents after, fires the effect
    /// pending at its tile and records its resulting position and
    /// species in its trace; finally the turn counter advances by one.
    pub fn effect_phase(&mut self)
        requires
            old(self).wf(),
            old(self).settings.current_turn < old(self).settings.max_turn_number,
        ensures
            final(self).wf(),
            ({
                let mt = spec_tile_effect_pass(
                    old(self).map@,
                    old(self).map@.width * old(self).map@.height,
                );
                let sh = spec_effect_phase_h(
                    mt,
                    hylic_views(old(self).hylics@),
                    old(self).hylics@.len() as int,
                );
                let sp = spec_effect_phase_p(
                    sh.0,
                    psychic_views(old(self).psychics@),
                    old(self).psychics@.len() as int,
                );
                &&& final(self).map@ == sp.0
                &&& hylic_views(final(self).hylics@) == sh.1
                &&& psychic_views(final(self).psychics@) == sp.1
            }),
            final(self).settings.current_turn == old(self).settings.current_turn + 1,
            final(self).settings.max_turn_number == old(self).settings.max_turn_number,
            final(self).settings.current_generation == old(self).settings.current_generation,
            final(self).map.population == old(self).map.population,
            final(self).map.catalogue == old(self).map.catalogue,
            final(self).map.locations == old(self).map.locations,
    {
        let ghost mstart = self.map@;
        let ghost hv0 = hylic_views(self.hylics@);
        let ghost pv0 = psychic_views(self.psychics@);
        let ghost settings0 = self.settings;

        let side: usize = (self.map.width as usize) * (self.map.height as usize);
        let ghost sweep_w = self.map@.width;
        let ghost sweep_h = self.map@.height;
        let mut k: usize = 0;
        while k < side
            invariant
                k <= side,
                sweep_w == mstart.width,
                sweep_h == mstart.height,
                side == sweep_w * sweep_h,
                self.map.wf(),
                self.map@.width == mstart.width,
                self.map@.height == mstart.height,
                self.map@ == spec_tile_effect_pass(mstart, k as int),
                forall|j: int|
                    0 <= j < self.hylics@.len() ==> self.map@.in_bounds(
                        (#[trigger] self.hylics@[j]).position.x as int,
                        self.hylics@[j].position.y as int,
                    ),
                forall|j: int|
                    0 <= j < self.psychics@.len() ==> self.map@.in_bounds(
                        (#[trigger] self.psychics@[j]).position.x as int,
                        self.psychics@[j].position.y as int,
                    ),
                hylic_views(self.hylics@) == hv0,
                psychic_views(self.psychics@) == pv0,
                self.settings == settings0,
                self.map.population == old(self).map.population,
                self.map.catalogue == old(self).map.catalogue,
                self.map.locations == old(self).map.locations,
            decreases side - k,
        {
            proof {
                crate::map::lemma_cell_decompose(sweep_w, sweep_h, k as int);
            }
            let xu = k % (self.map.width as usize);
            let yu = k / (self.map.width as usize);
            let x = xu as u32;
            let y = yu as u32;
            proof {
                assert((k as int) % sweep_w == xu as int && (k as int) / sweep_w == yu as int);
            }
            let tile = self.map.tiles[k];
            if tile == Species::Wall || tile == Species::Painted {
                proof {
                    assert(self.map@.in_bounds(x as int, y as int));
                }
                let _moved = effect_step(&mut self.map, (x, y), tile);
            }
            k = k + 1;
        }

        let ghost m0 = self.map@;
        proof {
            assert(m0 == spec_tile_effect_pass(mstart, (mstart.width * mstart.height) as int));
        }
        let n = self.hylics.len();
        let mut i: usize = 0;
        while i < n
            invariant
                i <= n,
                n == self.hylics@.len(),
                hv0.len() == n,
                self.map.wf(),
                self.map@.width == m0.width,
                self.map@.height == m0.height,
                spec_effect_phase_h(m0, hv0, i as int).0 == self.map@,
                spec_effect_phase_h(m0, hv0, i as int).1 == hylic_views(self.hylics@),
                forall|j: int|
                    0 <= j < self.hylics@.len() ==> self.map@.in_bounds(
                        (#[trigger] self.hylics@[j]).position.x as int,
                        self.hylics@[j].position.y as int,
                    ),
                forall|j: int|
                    0 <= j < self.psychics@.len() ==> self.map@.in_bounds(
                        (#[trigger] self.psychics@[j]).position.x as int,
                        self.psychics@[j].position.y as int,
                    ),
                psychic_views(self.psychics@) == pv0,
                self.settings == settings0,
                self.map.population == old(self).map.population,
                self.map.catalogue == old(self).map.catalogue,
                self.map.locations == old(self).map.locations,
            decreases n - i,
        {
            let hx = self.hylics[i].position.x;
            let hy = self.hylics[i].position.y;
            let hsp = self.hylics[i].species;
            let (np, s2) = effect_step(&mut self.map, (hx, hy), hsp);
            self.hylics[i].position.x = np.0;
            self.hylics[i].position.y = np.1;
            self.hylics[i].species = s2;
            self.hylics[i].trace.positions.push(np);
            self.hylics[i].trace.identity.push(s2);
            proof {
                assert(hylic_views(self.hylics@) =~= spec_effect_phase_h(m0, hv0, i as int + 1).1);
                assert(psychic_views(self.psychics@) =~= pv0);
            }
            i = i + 1;
        }
        let ghost mh = self.map@;
        let np_count = self.psychics.len();
        let mut j: usize = 0;
        while j < np_count
            invariant
                j <= np_count,
                np_count == self.psychics@.len(),
                pv0.len() == np_count,
                self.map.wf(),
                self.map@.width == mh.width,
                self.map@.height == mh.height,
                spec_effect_phase_p(mh, pv0, j as int).0 == self.map@,
                spec_effect_phase_p(mh, pv0, j as int).1 == psychic_views(self.psychics@),
                forall|k: int|
                    0 <= k < self.hylics@.len() ==> self.map@.in_bounds(
                        (#[trigger] self.hylics@[k]).position.x as int,
                        self.hylics@[k].position.y as int,
                    ),
                forall|k: int|
                    0 <= k < self.psychics@.len() ==> self.map@.in_bounds(
                        (#[trigger] self.psychics@[k]).position.x as int,
                        self.psychics@[k].position.y as int,
                    ),
                hylic_views(self.hylics@) == spec_effect_phase_h(m0, hv0, n as int).1,
                n == self.hylics@.len(),
                self.settings == settings0,
                self.map.population == old(self).map.population,
                self.map.catalogue == old(self).map.catalogue,
                self.map.locations == old(self).map.locations,
            decreases np_count - j,
        {
            let px = self.psychics[j].position.x;
            let py = self.psychics[j].position.y;
            let psp = self.psychics[j].species;
            let (np, s2) = effect_step(&mut self.map, (px, py), psp);
            self.psychics[j].position.x = np.0;
            self.psychics[j].position.y = np.1;
            self.psychics[j].species = s2;
            self.psychics[j].trace.positions.push(np);
            self.psychics[j].trace.identity.push(s2);
            proof {
                assert(psychic_views(self.psychics@) =~= spec_effect_phase_p(
                    mh,
                    pv0,
                    j as int + 1,
                ).1);
                assert(hylic_views(self.hylics@) =~= spec_effect_phase_h(m0, hv0, n as int).1);
            }
            j = j + 1;
        }
        self.settings.current_turn = self.settings.current_turn + 1;
    }
}

} // verus!
