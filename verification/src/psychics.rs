//! Creature records: learning agents (psychics), fixed-policy creatures
//! (hylics), their traces, and the builders that assemble them.

use vstd::prelude::*;

use crate::effect::{spec_motion_kit, spec_paint_kit, Effect, AxiomKit};
use crate::map::{copy_coords, copy_species_list, Species, TileMap};

verus! {

/// The actions one kit stands for.
pub open spec fn spec_kit_actions(k: AxiomKit) -> Seq<Effect> {
    match k {
        AxiomKit::Motion => spec_motion_kit(),
        AxiomKit::PaintKit => spec_paint_kit(),
    }
}

/// The actions of the first `n` kits of `ks`, concatenated in kit order.
pub open spec fn spec_kits_actions(ks: Seq<AxiomKit>, n: int) -> Seq<Effect>
    decreases n,
{
    if n <= 0 {
        Seq::empty()
    } else {
        spec_kits_actions(ks, n - 1) + spec_kit_actions(ks[n - 1])
    }
}

/// How many learning agents a standard population holds.
#[derive(Clone, Copy, PartialEq, Eq, Structural, Debug)]
pub struct PsychicSettings {
    pub number_at_start: u32,
}

/// A creature's place on the grid, and where it started this generation.
#[derive(Clone, Copy, PartialEq, Eq, Debug)]
pub struct Position {
    pub x: u32,
    pub y: u32,
    pub starting_position: (u32, u32),
}

/// The per-generation history of one creature: one position and one
/// species entry per recorded step, plus the shipped copy of the previous
/// generation kept for playback, and the species the creature respawns as.
#[derive(Clone, PartialEq, Eq, Debug)]
pub struct Trace {
    pub positions: Vec<(u32, u32)>,
    pub identity: Vec<Species>,
    pub shipped_positions: Vec<(u32, u32)>,
    pub shipped_identity: Vec<Species>,
    pub original_species: Species,
}

/// Ghost model of a trace.
pub struct TraceModel {
    pub positions: Seq<(u32, u32)>,
    pub identity: Seq<Species>,
    pub shipped_positions: Seq<(u32, u32)>,
    pub shipped_identity: Seq<Species>,
    pub original_species: Species,
}

impl View for Trace {
    type V = TraceModel;

    open spec fn view(&self) -> TraceModel {
        TraceModel {
            positions: self.positions@,
            identity: self.identity@,
            shipped_positions: self.shipped_positions@,
            shipped_identity: self.shipped_identity@,
            original_species: self.original_species,
        }
    }
}

/// The previous generation's full trace, as handed to a playback consumer.
#[derive(Clone, PartialEq, Eq, Debug)]
pub struct FinishedTrace {
    pub positions: Vec<(u32, u32)>,
    pub identity: Vec<Species>,
}

/// An agent's decision bookkeeping: its ordered action choices, the
/// distinct motion offsets it has picked this generation, and its score.
/// The fitness is kept in tenths of a point so that the border penalty
/// (one half) and the never-moved floor (three tenths) stay exact.
#[derive(Clone, PartialEq, Eq, Debug)]
pub struct Soul {
    pub action_choices: Vec<Effect>,
    pub actions_chosen: Vec<(i32, i32)>,
    pub fitness: u64,
}

/// Ghost model of a soul.
pub struct SoulModel {
    pub action_choices: Seq<Effect>,
    pub actions_chosen: Seq<(i32, i32)>,
    pub fitness: u64,
}

impl View for Soul {
    type V = SoulModel;

    open spec fn view(&self) -> SoulModel {
        SoulModel {
            action_choices: self.action_choices@,
            actions_chosen: self.actions_chosen@,
            fitness: self.fitness,
        }
    }
}

/// A learning creature: position, decision bookkeeping, trace, and the
/// species it currently writes into its tile.
#[derive(Clone, PartialEq, Eq, Debug)]
pub struct Psychic {
    pub position: Position,
    pub soul: Soul,
    pub trace: Trace,
    pub species: Species,
}

/// Ghost model of a psychic.
pub struct PsychicModel {
    pub position: Position,
    pub soul: SoulModel,
    pub trace: TraceModel,
    pub species: Species,
}

impl View for Psychic {
    type V = PsychicModel;

    open spec fn view(&self) -> PsychicModel {
        PsychicModel {
            position: self.position,
            soul: self.soul@,
            trace: self.trace@,
            species: self.species,
        }
    }
}

/// A creature without a learning policy, such as the beacon: position,
/// trace and species only. Its fixed policy is to stand still.
#[derive(Clone, PartialEq, Eq, Debug)]
pub struct Hylic {
    pub position: Position,
    pub trace: Trace,
    pub species: Species,
}

/// Ghost model of a hylic.
pub struct HylicModel {
    pub position: Position,
    pub trace: TraceModel,
    pub species: Species,
}

impl View for Hylic {
    type V = HylicModel;

    open spec fn view(&self) -> HylicModel {
        HylicModel { position: self.position, trace: self.trace@, species: self.species }
    }
}

/// An empty trace for a creature that respawns as `species`.
pub open spec fn spec_fresh_trace(species: Species) -> TraceModel {
    TraceModel {
        positions: Seq::empty(),
        identity: Seq::empty(),
        shipped_positions: Seq::empty(),
        shipped_identity: Seq::empty(),
        original_species: species,
    }
}

fn fresh_trace(species: Species) -> (r: Trace)
    ensures
        r@ == spec_fresh_trace(species),
{
    let r = Trace {
        positions: Vec::new(),
        identity: Vec::new(),
        shipped_positions: Vec::new(),
        shipped_identity: Vec::new(),
        original_species: species,
    };
    proof {
        assert(r@.positions =~= spec_fresh_trace(species).positions);
        assert(r@.identity =~= spec_fresh_trace(species).identity);
        assert(r@.shipped_positions =~= spec_fresh_trace(species).shipped_positions);
        assert(r@.shipped_identity =~= spec_fresh_trace(species).shipped_identity);
    }
    r
}

/// The ghost models of a hylic list.
pub open spec fn hylic_views(hs: Seq<Hylic>) -> Seq<HylicModel> {
    Seq::new(hs.len(), |i: int| hs[i]@)
}

/// The ghost models of a psychic list.
pub open spec fn psychic_views(ps: Seq<Psychic>) -> Seq<PsychicModel> {
    Seq::new(ps.len(), |i: int| ps[i]@)
}

/// The coordinates of the first `n` grid cells holding species `s`, in
/// row-major order.
pub open spec fn spec_coords_of(tiles: Seq<Species>, w: int, s: Species, n: int) -> Seq<(u32, u32)>
    decreases n,
{
    if n <= 0 {
        Seq::empty()
    } else {
        let rest = spec_coords_of(tiles, w, s, n - 1);
        if tiles[n - 1] == s {
            rest.push((((n - 1) % w) as u32, ((n - 1) / w) as u32))
        } else {
            rest
        }
    }
}

/// The creature a beacon tile spawns: a hylic standing on it.
pub open spec fn spec_spawned_hylic(c: (u32, u32)) -> HylicModel {
    HylicModel {
        position: Position { x: c.0, y: c.1, starting_position: c },
        trace: spec_fresh_trace(Species::Beacon),
        species: Species::Beacon,
    }
}

/// The creature an agent tile spawns: a psychic standing on it, armed
/// with the plain motion kit and no history.
pub open spec fn spec_spawned_psychic(c: (u32, u32)) -> PsychicModel {
    PsychicModel {
        position: Position { x: c.0, y: c.1, starting_position: c },
        soul: SoulModel {
            action_choices: spec_motion_kit(),
            actions_chosen: Seq::empty(),
            fitness: 0,
        },
        trace: spec_fresh_trace(Species::Agent),
        species: Species::Agent,
    }
}

/// Walk the freshly built grid and spawn the creature population: one
/// hylic per beacon tile and one motion-kit agent per agent tile, each
/// standing where its tile is, in row-major order.
pub fn distribute_psychics(map: &TileMap) -> (r: (Vec<Hylic>, Vec<Psychic>))
    requires
        map.wf(),
    ensures
        ({
            let side = map@.width * map@.height;
            let bc = spec_coords_of(map@.tiles, map@.width, Species::Beacon, side);
            let ac = spec_coords_of(map@.tiles, map@.width, Species::Agent, side);
            &&& r.0@.len() == bc.len()
            &&& forall|j: int| 0 <= j < bc.len() ==> (#[trigger] r.0@[j])@ == spec_spawned_hylic(
                bc[j],
            )
            &&& r.1@.len() == ac.len()
            &&& forall|j: int| 0 <= j < ac.len() ==> (#[trigger] r.1@[j])@ == spec_spawned_psychic(
                ac[j],
            )
            &&& forall|j: int|
                0 <= j < bc.len() ==> map@.in_bounds((#[trigger] bc[j]).0 as int, bc[j].1 as int)
            &&& forall|j: int|
                0 <= j < ac.len() ==> map@.in_bounds((#[trigger] ac[j]).0 as int, ac[j].1 as int)
        }),
{
    let ghost w = map@.width;
    let ghost h = map@.height;
    let ghost side_g = w * h;
    let mut hylics: Vec<Hylic> = Vec::new();
    let mut psychics: Vec<Psychic> = Vec::new();
    let side: usize = (map.width as usize) * (map.height as usize);
    let mut k: usize = 0;
    while k < side
        invariant
            k <= side,
            map.wf(),
            w == map@.width,
            h == map@.height,
            side_g == w * h,
            side == side_g,
            hylics@.len() == spec_coords_of(map@.tiles, w, Species::Beacon, k as int).len(),
            psychics@.len() == spec_coords_of(map@.tiles, w, Species::Agent, k as int).len(),
            forall|j: int|
                0 <= j < hylics@.len() ==> (#[trigger] hylics@[j])@ == spec_spawned_hylic(
                    spec_coords_of(map@.tiles, w, Species::Beacon, k as int)[j],
                ),
            forall|j: int|
                0 <= j < psychics@.len() ==> (#[trigger] psychics@[j])@ == spec_spawned_psychic(
                    spec_coords_of(map@.tiles, w, Species::Agent, k as int)[j],
                ),
            forall|j: int|
                0 <= j < hylics@.len() ==> map@.in_bounds(
                    (#[trigger] spec_coords_of(map@.tiles, w, Species::Beacon, k as int)[j]).0
                        as int,
                    spec_coords_of(map@.tiles, w, Species::Beacon, k as int)[j].1 as int,
                ),
            forall|j: int|
                0 <= j < psychics@.len() ==> map@.in_bounds(
                    (#[trigger] spec_coords_of(map@.tiles, w, Species::Agent, k as int)[j]).0
                        as int,
                    spec_coords_of(map@.tiles, w, Species::Agent, k as int)[j].1 as int,
                ),
        decreases side - k,
    {
        proof {
            crate::map::lemma_cell_decompose(w, h, k as int);
        }
        let xu = k % (map.width as usize);
        let yu = k / (map.width as usize);
        let x = xu as u32;
        let y = yu as u32;
        proof {
            assert((k as int) % w == xu as int && (k as int) / w == yu as int);
        }
        let tile = map.tiles[k];
        if tile == Species::Beacon {
            let hy = Hylic::new().with_position(x, y).with_species(Species::Beacon);
            let hy = Hylic { trace: fresh_trace(Species::Beacon), ..hy };
            hylics.push(hy);
        } else if tile == Species::Agent {
            let mut kits: Vec<AxiomKit> = Vec::new();
            kits.push(AxiomKit::Motion);
            let psy = Psychic::new().with_position(x, y).with_effect_kits(kits).with_species(
                Species::Agent,
            );
            let psy = Psychic { trace: fresh_trace(Species::Agent), ..psy };
            proof {
                reveal_with_fuel(spec_kits_actions, 3);
                assert(kits@[0] == AxiomKit::Motion);
                assert(psy.soul@.action_choices =~= spec_motion_kit());
                assert(psy.soul@.actions_chosen =~= Seq::<(i32, i32)>::empty());
                assert(psy@ == spec_spawned_psychic((x, y)));
            }
            psychics.push(psy);
        }
        k = k + 1;
    }
    (hylics, psychics)
}

impl Psychic {
    /// A blank agent at the origin with no actions, no history and no
    /// score yet.
    pub fn new() -> (r: Psychic)
        ensures
            r.position == (Position { x: 0, y: 0, starting_position: (0u32, 0u32) }),
            r.soul@.action_choices.len() == 0,
            r.soul@.actions_chosen.len() == 0,
            r.soul@.fitness == 0,
            r.trace@ == spec_fresh_trace(Species::Wall),
            r.species == Species::Wall,
    {
        Psychic {
            position: Position { x: 0, y: 0, starting_position: (0, 0) },
            soul: Soul { action_choices: Vec::new(), actions_chosen: Vec::new(), fitness: 0 },
            trace: fresh_trace(Species::Wall),
            species: Species::Wall,
        }
    }

    /// The same agent, placed at `(x, y)` with that tile as its start.
    pub fn with_position(self, x: u32, y: u32) -> (r: Psychic)
        ensures
            r.position == (Position { x, y, starting_position: (x, y) }),
            r.soul == self.soul,
            r.trace == self.trace,
            r.species == self.species,
    {
        Psychic { position: Position { x, y, starting_position: (x, y) }, ..self }
    }

    /// The same agent, with the actions of the given kits appended to its
    /// choice list in kit order.
    pub fn with_effect_kits(self, kits: Vec<AxiomKit>) -> (r: Psychic)
        ensures
            r.position == self.position,
            r.trace == self.trace,
            r.species == self.species,
            r.soul@.actions_chosen == self.soul@.actions_chosen,
            r.soul@.fitness == self.soul@.fitness,
            r.soul@.action_choices == self.soul@.action_choices + spec_kits_actions(
                kits@,
                kits@.len() as int,
            ),
    {
        let mut soul = self.soul;
        let mut i: usize = 0;
        while i < kits.len()
            invariant
                i <= kits.len(),
                soul@.actions_chosen == self.soul@.actions_chosen,
                soul@.fitness == self.soul@.fitness,
                soul@.action_choices == self.soul@.action_choices + spec_kits_actions(
                    kits@,
                    i as int,
                ),
            decreases kits.len() - i,
        {
            let mut unpacked = kits[i].unpack();
            soul.action_choices.append(&mut unpacked);
            i = i + 1;
        }
        Psychic { soul, ..self }
    }

    /// The same agent, writing `species` into its tile.
    pub fn with_species(self, species: Species) -> (r: Psychic)
        ensures
            r.position == self.position,
            r.soul == self.soul,
            r.trace == self.trace,
            r.species == species,
    {
        Psychic { species, ..self }
    }

    /// The trace shipped at the last generation boundary, for playback.
    pub fn shipped_trace(&self) -> (r: FinishedTrace)
        ensures
            r.positions@ == self.trace@.shipped_positions,
            r.identity@ == self.trace@.shipped_identity,
    {
        FinishedTrace {
            positions: copy_coords(&self.trace.shipped_positions),
            identity: copy_species_list(&self.trace.shipped_identity),
        }
    }
}

impl Hylic {
    /// A blank fixed-policy creature at the origin.
    pub fn new() -> (r: Hylic)
        ensures
            r.position == (Position { x: 0, y: 0, starting_position: (0u32, 0u32) }),
            r.trace@ == spec_fresh_trace(Species::Wall),
            r.species == Species::Wall,
    {
        Hylic {
            position: Position { x: 0, y: 0, starting_position: (0, 0) },
            trace: fresh_trace(Species::Wall),
            species: Species::Wall,
        }
    }

    /// The same creature, placed at `(x, y)` with that tile as its start.
    pub fn with_position(self, x: u32, y: u32) -> (r: Hylic)
        ensures
            r.position == (Position { x, y, starting_position: (x, y) }),
            r.trace == self.trace,
            r.species == self.species,
    {
        Hylic { position: Position { x, y, starting_position: (x, y) }, ..self }
    }

    /// The same creature, writing `species` into its tile.
    pub fn with_species(self, species: Species) -> (r: Hylic)
        ensures
            r.position == self.position,
            r.trace == self.trace,
            r.species == species,
    {
        Hylic { species, ..self }
    }

    /// The trace shipped at the last generation boundary, for playback.
    pub fn shipped_trace(&self) -> (r: FinishedTrace)
        ensures
            r.positions@ == self.trace@.shipped_positions,
            r.identity@ == self.trace@.shipped_identity,
    {
        FinishedTrace {
            positions: copy_coords(&self.trace.shipped_positions),
            identity: copy_species_list(&self.trace.shipped_identity),
        }
    }
}

} // verus!
