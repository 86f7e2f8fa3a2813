//! The generational loop: fitness scoring, fitness-proportionate parent
//! selection, and the evolution step that rebuilds the map, relocates
//! every creature, ships the traces and resets the turn counter. The
//! caller receives one parent index per agent and breeds the policies
//! outside the engine.

use vstd::prelude::*;

use rand::rngs::StdRng;

use crate::effect::{copy_effects, Effect};
use crate::map::{
    build_map, copy_coords, copy_species_list, count_species, find_species_index, grid_at,
    is_border, lemma_count_species_member, placement_ok, Species, TileMap, WALL_SEED_THRESHOLD,
};
use crate::psychics::{
    hylic_views, psychic_views, Hylic, HylicModel, Position, Psychic, PsychicModel, Soul, Trace,
};
use crate::map::MapModel;
use crate::rng::{pool_new, pool_sample, pool_weights, rng_index, sum_weights, GenePool};
use crate::simulation::{find_beacon_in, spec_abs, spec_beacon_pos, Simulation};

verus! {

/// How many times the evolution step will retry map generation before
/// giving up, should the rolled cave leave too little floor.
pub const BUILD_ATTEMPTS: u32 = 16;

/// Smoothing rounds used when the evolution step rebuilds the map.
pub const SMOOTHING_PASSES: u32 = 15;

/// Why an evolution step can fail. Both leave the world untouched:
/// either no rolled cave offered enough empty floor for the recipe, or
/// the rebuilt catalogue ran out of reserved coordinates for a species
/// that still has live creatures.
#[derive(Clone, Copy, PartialEq, Eq, Structural, Debug)]
pub enum EvolveError {
    MapExhausted,
    CatalogueExhausted,
}

/// The distance band of the fitness score, in tenths of a point: under
/// two tiles away on both axes scores 1000, under five 500, under ten
/// 100, and anything farther 10.
pub open spec fn spec_fitness_band(adx: int, ady: int) -> int {
    if adx < 2 && ady < 2 {
        1000
    } else if adx < 5 && ady < 5 {
        500
    } else if adx < 10 && ady < 10 {
        100
    } else {
        10
    }
}

/// An agent's fitness in tenths of a point: the distance band against
/// the beacon, plus a 10000-tenth bonus for using more than two distinct
/// motions, halved when the agent ends on the border, and floored to 3
/// tenths when it never left its starting tile.
pub open spec fn spec_fitness(
    px: int,
    py: int,
    bx: int,
    by: int,
    distinct_motions: int,
    never_moved: bool,
    w: int,
    h: int,
) -> int {
    let band = spec_fitness_band(spec_abs(px - bx), spec_abs(py - by));
    let boosted = if distinct_motions > 2 {
        band + 10000
    } else {
        band
    };
    let bordered = if px == 0 || py == 0 || px == w - 1 || py == h - 1 {
        boosted / 2
    } else {
        boosted
    };
    if never_moved {
        3
    } else {
        bordered
    }
}

/// Whether an agent never left its starting tile this generation: it
/// stands there now and every entry of its per-turn trace is that tile.
pub open spec fn spec_never_left(p: PsychicModel) -> bool {
    &&& (p.position.x, p.position.y) == p.position.starting_position
    &&& forall|j: int|
        0 <= j < p.trace.positions.len() ==> (#[trigger] p.trace.positions[j])
            == p.position.starting_position
}

/// Whether the agent's recorded history ever leaves its starting tile.
fn never_left(p: &Psychic) -> (r: bool)
    ensures
        r == spec_never_left(p@),
{
    if p.position.x != p.position.starting_position.0 || p.position.y
        != p.position.starting_position.1 {
        proof {
            assert((p@.position.x, p@.position.y) != p@.position.starting_position);
        }
        return false;
    }
    let mut j: usize = 0;
    while j < p.trace.positions.len()
        invariant
            j <= p.trace.positions@.len(),
            forall|j2: int|
                0 <= j2 < j ==> (#[trigger] p.trace.positions@[j2])
                    == p.position.starting_position,
        decreases p.trace.positions@.len() - j,
    {
        let entry = p.trace.positions[j];
        if entry.0 != p.position.starting_position.0 || entry.1 != p.position.starting_position.1 {
            proof {
                assert(p@.trace.positions[j as int] != p@.position.starting_position);
                assert(!spec_never_left(p@));
            }
            return false;
        }
        j = j + 1;
    }
    true
}

/// Fitness is always positive and never exceeds 11000 tenths.
pub proof fn lemma_fitness_bounds(
    px: int,
    py: int,
    bx: int,
    by: int,
    distinct_motions: int,
    never_moved: bool,
    w: int,
    h: int,
)
    ensures
        3 <= spec_fitness(px, py, bx, by, distinct_motions, never_moved, w, h) <= 11000,
{
}

/// Score one agent against the beacon. Kept in tenths of a point so the
/// halving penalty and the 0.3-point floor stay exact in integers.
pub fn compute_fitness(
    px: u32,
    py: u32,
    bx: u32,
    by: u32,
    distinct_motions: usize,
    never_moved: bool,
    width: u32,
    height: u32,
) -> (r: u64)
    requires
        1 <= width,
        1 <= height,
    ensures
        r == spec_fitness(
            px as int,
            py as int,
            bx as int,
            by as int,
            distinct_motions as int,
            never_moved,
            width as int,
            height as int,
        ),
        3 <= r <= 11000,
{
    let adx: u64 = if px >= bx {
        (px - bx) as u64
    } else {
        (bx - px) as u64
    };
    let ady: u64 = if py >= by {
        (py - by) as u64
    } else {
        (by - py) as u64
    };
    let mut f: u64 = if adx < 2 && ady < 2 {
        1000
    } else if adx < 5 && ady < 5 {
        500
    } else if adx < 10 && ady < 10 {
        100
    } else {
        10
    };
    if distinct_motions > 2 {
        f = f + 10000;
    }
    if px == 0 || py == 0 || px == width - 1 || py == height - 1 {
        f = f / 2;
    }
    if never_moved {
        f = 3;
    }
    f
}

/// The largest weight in the list, or zero for an empty list.
pub open spec fn spec_max_weight(s: Seq<u64>) -> int
    decreases s.len(),
{
    if s.len() == 0 {
        0
    } else {
        let rest = spec_max_weight(s.drop_last());
        if s.last() > rest {
            s.last() as int
        } else {
            rest
        }
    }
}

/// Build the fitness-proportionate sampler over the given weights,
/// together with the best weight seen. No sampler comes back when the
/// list is empty or sums to zero; the caller then falls back to uniform
/// selection.
pub fn create_gene_pool(values: &Vec<u64>) -> (r: (u64, Option<GenePool>))
    requires
        sum_weights(values@) <= u64::MAX,
    ensures
        r.0 == spec_max_weight(values@),
        r.1 is Some <==> (values@.len() > 0 && sum_weights(values@) > 0),
        r.1 matches Some(pool) ==> pool_weights(pool) == values@,
{
    let mut max_fitness: u64 = 0;
    let mut i: usize = 0;
    while i < values.len()
        invariant
            i <= values@.len(),
            max_fitness == spec_max_weight(values@.take(i as int)),
        decreases values@.len() - i,
    {
        if values[i] > max_fitness {
            max_fitness = values[i];
        }
        proof {
            assert(values@.take(i + 1).drop_last() =~= values@.take(i as int));
            assert(values@.take(i + 1).last() == values@[i as int]);
        }
        i = i + 1;
    }
    proof {
        assert(values@.take(values@.len() as int) =~= values@);
    }
    (max_fitness, pool_new(values))
}

/// Draw `count` parent indices over the given fitness weights: by
/// fitness-proportionate sampling when some weight is positive, and
/// uniformly otherwise. A drawn parent always has positive fitness when
/// any agent does.
pub fn select_parents(fitnesses: &Vec<u64>, count: usize, rng: &mut StdRng) -> (r: Vec<usize>)
    requires
        fitnesses@.len() > 0,
        sum_weights(fitnesses@) <= u64::MAX,
    ensures
        r@.len() == count,
        forall|i: int| 0 <= i < count ==> (#[trigger] r@[i]) < fitnesses@.len(),
        sum_weights(fitnesses@) > 0 ==> forall|i: int|
            0 <= i < count ==> fitnesses@[#[trigger] r@[i] as int] > 0,
{
    let (_best, pool) = create_gene_pool(fitnesses);
    let mut out: Vec<usize> = Vec::new();
    let mut k: usize = 0;
    while k < count
        invariant
            k <= count,
            out@.len() == k,
            fitnesses@.len() > 0,
            pool is Some <==> sum_weights(fitnesses@) > 0,
            pool matches Some(p) ==> pool_weights(p) == fitnesses@,
            forall|i: int| 0 <= i < k ==> (#[trigger] out@[i]) < fitnesses@.len(),
            sum_weights(fitnesses@) > 0 ==> forall|i: int|
                0 <= i < k ==> fitnesses@[#[trigger] out@[i] as int] > 0,
        decreases count - k,
    {
        match &pool {
            Some(p) => {
                let idx = pool_sample(p, rng);
                out.push(idx);
            },
            None => {
                let idx = rng_index(rng, fitnesses.len());
                out.push(idx);
            },
        }
        k = k + 1;
    }
    out
}

proof fn lemma_sum_push(s: Seq<u64>, v: u64)
    ensures
        sum_weights(s.push(v)) == sum_weights(s) + v,
{
    assert(s.push(v).drop_last() =~= s);
}

/// How many of the listed fixed-policy creatures, from index `from` on,
/// respawn as species `s`.
pub open spec fn spec_count_hylics(hv: Seq<HylicModel>, from: int, s: Species) -> int
    decreases hv.len() - from,
{
    if from < 0 || from >= hv.len() {
        0
    } else {
        (if hv[from].trace.original_species == s {
            1int
        } else {
            0int
        }) + spec_count_hylics(hv, from + 1, s)
    }
}

/// How many of the listed agents, from index `from` on, respawn as
/// species `s`.
pub open spec fn spec_count_psychics(pv: Seq<PsychicModel>, from: int, s: Species) -> int
    decreases pv.len() - from,
{
    if from < 0 || from >= pv.len() {
        0
    } else {
        (if pv[from].trace.original_species == s {
            1int
        } else {
            0int
        }) + spec_count_psychics(pv, from + 1, s)
    }
}

/// Whether the arena fits the population recipe: no species has more
/// live creatures than the recipe reserves coordinates for it.
pub open spec fn spec_arena_fits(
    hv: Seq<HylicModel>,
    pv: Seq<PsychicModel>,
    recipe: Seq<Species>,
) -> bool {
    forall|s: Species|
        spec_count_hylics(hv, 0, s) + spec_count_psychics(pv, 0, s) <= #[trigger] count_species(
            recipe,
            s,
        )
}

proof fn lemma_count_hylics_nonneg(hv: Seq<HylicModel>, from: int, s: Species)
    ensures
        spec_count_hylics(hv, from, s) >= 0,
    decreases hv.len() - from,
{
    if 0 <= from < hv.len() {
        lemma_count_hylics_nonneg(hv, from + 1, s);
    }
}

proof fn lemma_count_psychics_nonneg(pv: Seq<PsychicModel>, from: int, s: Species)
    ensures
        spec_count_psychics(pv, from, s) >= 0,
    decreases pv.len() - from,
{
    if 0 <= from < pv.len() {
        lemma_count_psychics_nonneg(pv, from + 1, s);
    }
}

proof fn lemma_count_hylics_prefix(hv: Seq<HylicModel>, a: int, b: int, s: Species)
    requires
        0 <= a <= b,
    ensures
        spec_count_hylics(hv, a, s) >= spec_count_hylics(hv, b, s),
    decreases b - a,
{
    if a < b {
        lemma_count_hylics_prefix(hv, a + 1, b, s);
        if a < hv.len() {
        } else {
            lemma_count_hylics_nonneg(hv, b, s);
        }
    }
}

proof fn lemma_count_psychics_prefix(pv: Seq<PsychicModel>, a: int, b: int, s: Species)
    requires
        0 <= a <= b,
    ensures
        spec_count_psychics(pv, a, s) >= spec_count_psychics(pv, b, s),
    decreases b - a,
{
    if a < b {
        lemma_count_psychics_prefix(pv, a + 1, b, s);
        if a < pv.len() {
        } else {
            lemma_count_psychics_nonneg(pv, b, s);
        }
    }
}

/// What holds of a fixed-policy creature after the generation boundary:
/// its finished trace is shipped for playback, it respawns as its
/// original species on a reserved coordinate of the new map — a
/// coordinate whose tile holds that species, for every species but the
/// wall bucket — and its live trace restarts with that single entry.
pub open spec fn spec_respawned_hylic(nh: HylicModel, oh: HylicModel, mm: MapModel) -> bool {
    &&& nh.trace.shipped_positions == oh.trace.positions
    &&& nh.trace.shipped_identity == oh.trace.identity
    &&& nh.trace.original_species == oh.trace.original_species
    &&& nh.species == oh.trace.original_species
    &&& nh.position.starting_position == (nh.position.x, nh.position.y)
    &&& nh.trace.positions == seq![(nh.position.x, nh.position.y)]
    &&& nh.trace.identity == seq![nh.species]
    &&& mm.in_bounds(nh.position.x as int, nh.position.y as int)
    &&& nh.species != Species::Wall ==> mm.tile_at(nh.position.x as int, nh.position.y as int)
        == nh.species
}

/// What holds of an agent after the generation boundary: as for a
/// fixed-policy creature, and in addition its fitness is the exact score
/// of where the old generation left it relative to the relocated beacon,
/// its action choices survive, and its motion log restarts empty.
pub open spec fn spec_respawned_psychic(
    np: PsychicModel,
    op: PsychicModel,
    mm: MapModel,
    b: (u32, u32),
) -> bool {
    &&& np.trace.shipped_positions == op.trace.positions
    &&& np.trace.shipped_identity == op.trace.identity
    &&& np.trace.original_species == op.trace.original_species
    &&& np.species == op.trace.original_species
    &&& np.position.starting_position == (np.position.x, np.position.y)
    &&& np.trace.positions == seq![(np.position.x, np.position.y)]
    &&& np.trace.identity == seq![np.species]
    &&& mm.in_bounds(np.position.x as int, np.position.y as int)
    &&& np.species != Species::Wall ==> mm.tile_at(np.position.x as int, np.position.y as int)
        == np.species
    &&& np.soul.action_choices == op.soul.action_choices
    &&& np.soul.actions_chosen.len() == 0
    &&& np.soul.fitness == spec_fitness(
        op.position.x as int,
        op.position.y as int,
        b.0 as int,
        b.1 as int,
        op.soul.actions_chosen.len() as int,
        spec_never_left(op),
        mm.width,
        mm.height,
    )
}

/// The generation boundary. Rebuilds the map from the static recipe
/// (retrying when the rolled cave is too full), relocates every creature
/// onto a reserved coordinate of its species, ships every trace, scores
/// every agent against the relocated beacon, resets the turn counter,
/// and draws one parent index per agent by fitness-proportionate
/// selection. The caller clones and mutates the parents' policies. On
/// failure the world is left exactly as it was.
pub fn evolve_generation(sim: &mut Simulation, rng: &mut StdRng) -> (r: Result<
    Vec<usize>,
    EvolveError,
>)
    requires
        old(sim).wf(),
        old(sim).settings.current_turn == old(sim).settings.max_turn_number,
        old(sim).psychics@.len() <= 0xffff_ffff,
        old(sim).settings.current_generation < usize::MAX,
    ensures
        r is Err ==> ({
            &&& final(sim).map@ == old(sim).map@
            &&& final(sim).map.population@ == old(sim).map.population@
            &&& final(sim).map.catalogue@ == old(sim).map.catalogue@
            &&& final(sim).map.locations@ == old(sim).map.locations@
            &&& hylic_views(final(sim).hylics@) == hylic_views(old(sim).hylics@)
            &&& psychic_views(final(sim).psychics@) == psychic_views(old(sim).psychics@)
            &&& final(sim).settings == old(sim).settings
        }),
        spec_arena_fits(
            hylic_views(old(sim).hylics@),
            psychic_views(old(sim).psychics@),
            old(sim).map.population@,
        ) ==> !(r matches Err(EvolveError::CatalogueExhausted)),
        (old(sim).map.population@.len() == 0 && old(sim).hylics@.len() == 0
            && old(sim).psychics@.len() == 0) ==> r is Ok,
        r matches Ok(parents) ==> ({
            let ohv = hylic_views(old(sim).hylics@);
            let opv = psychic_views(old(sim).psychics@);
            let nhv = hylic_views(final(sim).hylics@);
            let npv = psychic_views(final(sim).psychics@);
            let b = spec_beacon_pos(nhv);
            &&& final(sim).wf()
            &&& final(sim).map.wf_catalogue()
            &&& final(sim).map.width == old(sim).map.width
            &&& final(sim).map.height == old(sim).map.height
            &&& final(sim).map.population@ == old(sim).map.population@
            &&& forall|k: int|
                0 <= k < final(sim).map@.effects.len()
                    ==> (#[trigger] final(sim).map@.effects[k]) == Effect::Void
            &&& forall|x: int, y: int|
                0 <= x < final(sim).map@.width && 0 <= y < final(sim).map@.height && is_border(
                    final(sim).map@.width,
                    final(sim).map@.height,
                    x,
                    y,
                ) ==> #[trigger] final(sim).map@.tile_at(x, y) == Species::Wall
            &&& final(sim).settings.current_turn == 0
            &&& final(sim).settings.current_generation
                == old(sim).settings.current_generation + 1
            &&& final(sim).settings.max_turn_number == old(sim).settings.max_turn_number
            &&& nhv.len() == ohv.len()
            &&& npv.len() == opv.len()
            &&& forall|j: int|
                0 <= j < nhv.len() ==> spec_respawned_hylic(
                    #[trigger] nhv[j],
                    ohv[j],
                    final(sim).map@,
                )
            &&& forall|j: int|
                0 <= j < npv.len() ==> spec_respawned_psychic(
                    #[trigger] npv[j],
                    opv[j],
                    final(sim).map@,
                    b,
                )
            &&& forall|j1: int, j2: int|
                0 <= j1 < j2 < nhv.len() ==> ((#[trigger] nhv[j1]).position.x,
                nhv[j1].position.y) != ((#[trigger] nhv[j2]).position.x, nhv[j2].position.y)
            &&& forall|j1: int, j2: int|
                0 <= j1 < j2 < npv.len() ==> ((#[trigger] npv[j1]).position.x,
                npv[j1].position.y) != ((#[trigger] npv[j2]).position.x, npv[j2].position.y)
            &&& forall|j1: int, j2: int|
                0 <= j1 < nhv.len() && 0 <= j2 < npv.len() ==> ((#[trigger] nhv[j1]).position.x,
                nhv[j1].position.y) != ((#[trigger] npv[j2]).position.x, npv[j2].position.y)
            &&& parents@.len() == opv.len()
            &&& forall|j: int| 0 <= j < parents@.len() ==> (#[trigger] parents@[j]) < opv.len()
        }),
{
    let ghost ohv = hylic_views(old(sim).hylics@);
    let ghost opv = psychic_views(old(sim).psychics@);
    let width = sim.map.width;
    let height = sim.map.height;
    let recipe = copy_species_list(&sim.map.population);

    let mut built: Option<TileMap> = None;
    let mut attempt: u32 = 0;
    while attempt < BUILD_ATTEMPTS && built.is_none()
        invariant
            1 <= width,
            1 <= height,
            width * height <= usize::MAX,
            recipe@ == old(sim).map.population@,
            recipe@.len() == 0 && attempt >= 1 ==> built is Some,
            built matches Some(m) ==> (m.wf() && m.wf_catalogue() && m.width == width && m.height
                == height && m.population@ == recipe@ && placement_ok(
                m.catalogue@,
                m.locations@,
                recipe@,
                m@.tiles,
                width as int,
                height as int,
            ) && m.locations@[0]@.len() >= count_species(recipe@, Species::Wall) && (forall|
                k: int,
            |
                0 <= k < m@.effects.len() ==> (#[trigger] m@.effects[k]) == Effect::Void) && (
            forall|x: int, y: int|
                0 <= x < m@.width && 0 <= y < m@.height && is_border(m@.width, m@.height, x, y)
                    ==> #[trigger] m@.tile_at(x, y) == Species::Wall)),
        decreases BUILD_ATTEMPTS - attempt,
    {
        match build_map(width, height, &recipe, WALL_SEED_THRESHOLD, SMOOTHING_PASSES, rng) {
            Ok(m) => {
                built = Some(m);
            },
            Err(_) => {
            },
        }
        attempt = attempt + 1;
    }
    let mut m = match built {
        None => {
            return Err(EvolveError::MapExhausted);
        },
        Some(m) => m,
    };

    proof {
        if spec_arena_fits(ohv, opv, recipe@) {
            assert forall|ci: int| 0 <= ci < m.catalogue@.len() implies (
            #[trigger] m.locations@[ci])@.len() >= spec_count_hylics(ohv, 0, m.catalogue@[ci])
                + spec_count_psychics(opv, 0, m.catalogue@[ci]) by {
                let s2 = m.catalogue@[ci];
                assert(spec_count_hylics(ohv, 0, s2) + spec_count_psychics(opv, 0, s2)
                    <= count_species(recipe@, s2));
                if ci >= 1 {
                    assert(m.locations@[ci]@.len() == count_species(recipe@, s2));
                }
            }
        }
    }

    let mut new_hylics: Vec<Hylic> = Vec::new();
    let mut i: usize = 0;
    while i < sim.hylics.len()
        invariant
            i <= sim.hylics@.len(),
            ohv == hylic_views(sim.hylics@),
            opv == psychic_views(sim.psychics@),
            sim.map@ == old(sim).map@,
            sim.map.population@ == old(sim).map.population@,
            sim.map.catalogue@ == old(sim).map.catalogue@,
            sim.map.locations@ == old(sim).map.locations@,
            sim.settings == old(sim).settings,
            m.wf(),
            m.wf_catalogue(),
            m.width == width,
            m.height == height,
            m.population@ == recipe@,
            recipe@ == old(sim).map.population@,
            forall|k: int| 0 <= k < m@.effects.len() ==> (#[trigger] m@.effects[k]) == Effect::Void,
            forall|x: int, y: int|
                0 <= x < m@.width && 0 <= y < m@.height && is_border(m@.width, m@.height, x, y)
                    ==> #[trigger] m@.tile_at(x, y) == Species::Wall,
            1 <= width,
            1 <= height,
            m.catalogue@.len() == m.locations@.len(),
            m.catalogue@.len() >= 1,
            m.catalogue@[0] == Species::Wall,
            forall|a: int, b: int|
                0 <= a < b < m.catalogue@.len() ==> m.catalogue@[a] != m.catalogue@[b],
            forall|i2: int, j2: int|
                1 <= i2 < m.locations@.len() && 0 <= j2 < m.locations@[i2]@.len() ==> grid_at(
                    m@.tiles,
                    m@.width,
                    (#[trigger] m.locations@[i2]@[j2]).0 as int,
                    m.locations@[i2]@[j2].1 as int,
                ) == m.catalogue@[i2],
            forall|i1: int, j1: int, i2: int, j2: int|
                0 <= i1 < m.locations@.len() && 0 <= j1 < m.locations@[i1]@.len() && 0 <= i2
                    < m.locations@.len() && 0 <= j2 < m.locations@[i2]@.len() && (i1 != i2 || j1
                    != j2) ==> (#[trigger] m.locations@[i1]@[j1]) != (
                #[trigger] m.locations@[i2]@[j2]),
            forall|k2: int|
                0 <= k2 < recipe@.len() ==> ((#[trigger] recipe@[k2]) == Species::Wall || exists|
                    ci: int,
                |
                    1 <= ci < m.catalogue@.len() && m.catalogue@[ci] == recipe@[k2]),
            spec_arena_fits(ohv, opv, recipe@) ==> forall|ci: int|
                0 <= ci < m.catalogue@.len() ==> (#[trigger] m.locations@[ci])@.len()
                    >= spec_count_hylics(ohv, i as int, m.catalogue@[ci]) + spec_count_psychics(
                    opv,
                    0,
                    m.catalogue@[ci],
                ),
            new_hylics@.len() == i,
            forall|j: int|
                0 <= j < i ==> spec_respawned_hylic((#[trigger] new_hylics@[j])@, ohv[j], m@),
            forall|j1: int, j2: int|
                0 <= j1 < j2 < new_hylics@.len() ==> ((#[trigger] new_hylics@[j1]).position.x,
                new_hylics@[j1].position.y) != ((#[trigger] new_hylics@[j2]).position.x,
                new_hylics@[j2].position.y),
            forall|j1: int, i2: int, j2: int|
                0 <= j1 < new_hylics@.len() && 0 <= i2 < m.locations@.len() && 0 <= j2
                    < m.locations@[i2]@.len() ==> ((#[trigger] new_hylics@[j1]).position.x,
                new_hylics@[j1].position.y) != (#[trigger] m.locations@[i2]@[j2]),
        decreases sim.hylics@.len() - i,
    {
        let osp = sim.hylics[i].trace.original_species;
        proof {
            assert(ohv[i as int] == sim.hylics@[i as int]@);
        }
        let idx = match find_species_index(&m.catalogue, osp) {
            None => {
                proof {
                    if spec_arena_fits(ohv, opv, recipe@) {
                        lemma_count_hylics_prefix(ohv, 0, i as int, osp);
                        lemma_count_hylics_nonneg(ohv, i as int + 1, osp);
                        lemma_count_psychics_nonneg(opv, 0, osp);
                        assert(spec_count_hylics(ohv, i as int, osp) >= 1);
                        assert(count_species(recipe@, osp) >= 1);
                        lemma_count_species_member(recipe@, osp);
                        let k2 = choose|k2: int| 0 <= k2 < recipe@.len() && recipe@[k2] == osp;
                        assert(m.catalogue@[0] != osp);
                        assert(recipe@[k2] != Species::Wall);
                        let ci = choose|ci: int|
                            1 <= ci < m.catalogue@.len() && m.catalogue@[ci] == recipe@[k2];
                        assert(m.catalogue@[ci] != osp);
                        assert(false);
                    }
                }
                return Err(EvolveError::CatalogueExhausted);
            },
            Some(j) => j,
        };
        let ghost loc_before = m.locations@;
        let c = match m.locations[idx].pop() {
            None => {
                proof {
                    if spec_arena_fits(ohv, opv, recipe@) {
                        lemma_count_hylics_nonneg(ohv, i as int + 1, osp);
                        lemma_count_psychics_nonneg(opv, 0, osp);
                        assert(spec_count_hylics(ohv, i as int, osp) >= 1);
                        assert(m.locations@[idx as int]@.len() >= 1);
                        assert(false);
                    }
                }
                return Err(EvolveError::CatalogueExhausted);
            },
            Some(c) => c,
        };
        let ghost last = loc_before[idx as int]@.len() - 1;
        proof {
            assert(c == loc_before[idx as int]@[last]);
            assert forall|i2: int, j2: int|
                0 <= i2 < m.locations@.len() && 0 <= j2 < m.locations@[i2]@.len() implies (
            #[trigger] m.locations@[i2]@[j2]) == loc_before[i2]@[j2] by {}
            assert(m.wf_catalogue()) by {
                assert forall|i2: int, j2: int|
                    0 <= i2 < m.locations@.len() && 0 <= j2 < m.locations@[i2]@.len() implies
                m@.in_bounds(
                    #[trigger] m.locations@[i2]@[j2].0 as int,
                    m.locations@[i2]@[j2].1 as int,
                ) by {
                    assert(m.locations@[i2]@[j2] == loc_before[i2]@[j2]);
                }
            }
            if spec_arena_fits(ohv, opv, recipe@) {
                assert forall|ci: int| 0 <= ci < m.catalogue@.len() implies (
                #[trigger] m.locations@[ci])@.len() >= spec_count_hylics(
                    ohv,
                    i as int + 1,
                    m.catalogue@[ci],
                ) + spec_count_psychics(opv, 0, m.catalogue@[ci]) by {
                    let s2 = m.catalogue@[ci];
                    if ci == idx as int {
                        assert(spec_count_hylics(ohv, i as int, s2) == 1 + spec_count_hylics(
                            ohv,
                            i as int + 1,
                            s2,
                        ));
                    } else {
                        assert(s2 != osp);
                        assert(spec_count_hylics(ohv, i as int, s2) == spec_count_hylics(
                            ohv,
                            i as int + 1,
                            s2,
                        ));
                    }
                }
            }
            assert forall|i2: int, j2: int|
                0 <= i2 < m.locations@.len() && 0 <= j2 < m.locations@[i2]@.len() implies (
            #[trigger] m.locations@[i2]@[j2]) != c by {
                assert(loc_before[i2]@[j2] != loc_before[idx as int]@[last]);
            }
            assert forall|j1: int| 0 <= j1 < new_hylics@.len() implies ((
            #[trigger] new_hylics@[j1]).position.x, new_hylics@[j1].position.y) != c by {
                assert(((new_hylics@[j1]).position.x, new_hylics@[j1].position.y)
                    != loc_before[idx as int]@[last]);
            }
        }
        let shipped_positions = copy_coords(&sim.hylics[i].trace.positions);
        let shipped_identity = copy_species_list(&sim.hylics[i].trace.identity);
        let mut tr_pos: Vec<(u32, u32)> = Vec::new();
        tr_pos.push(c);
        let mut tr_id: Vec<Species> = Vec::new();
        tr_id.push(osp);
        let h = Hylic {
            position: Position { x: c.0, y: c.1, starting_position: c },
            trace: Trace {
                positions: tr_pos,
                identity: tr_id,
                shipped_positions,
                shipped_identity,
                original_species: osp,
            },
            species: osp,
        };
        proof {
            assert(h@.trace.positions =~= seq![(h@.position.x, h@.position.y)]);
            assert(h@.trace.identity =~= seq![h@.species]);
            if osp != Species::Wall {
                assert(m.catalogue@[idx as int] == osp);
                assert(idx as int != 0);
                assert(grid_at(m@.tiles, m@.width, c.0 as int, c.1 as int)
                    == m.catalogue@[idx as int]) by {
                    assert(grid_at(
                        m@.tiles,
                        m@.width,
                        (loc_before[idx as int]@[last]).0 as int,
                        (loc_before[idx as int]@[last]).1 as int,
                    ) == m.catalogue@[idx as int]);
                }
            }
            assert(spec_respawned_hylic(h@, ohv[i as int], m@));
        }
        let ghost placed_before = new_hylics@;
        new_hylics.push(h);
        proof {
            assert forall|j1: int, j2: int| 0 <= j1 < j2 < new_hylics@.len() implies ((
            #[trigger] new_hylics@[j1]).position.x, new_hylics@[j1].position.y) != ((
            #[trigger] new_hylics@[j2]).position.x, new_hylics@[j2].position.y) by {
                if j2 == placed_before.len() {
                    assert(new_hylics@[j2] == h);
                    assert(new_hylics@[j1] == placed_before[j1]);
                } else {
                    assert(new_hylics@[j1] == placed_before[j1] && new_hylics@[j2]
                        == placed_before[j2]);
                }
            }
            assert forall|j1: int, i2: int, j2: int|
                0 <= j1 < new_hylics@.len() && 0 <= i2 < m.locations@.len() && 0 <= j2
                    < m.locations@[i2]@.len() implies ((
            #[trigger] new_hylics@[j1]).position.x, new_hylics@[j1].position.y) != (
            #[trigger] m.locations@[i2]@[j2]) by {
                if j1 == placed_before.len() {
                    assert(new_hylics@[j1] == h);
                } else {
                    assert(new_hylics@[j1] == placed_before[j1]);
                }
            }
        }
        i = i + 1;
    }

    let (bx, by) = find_beacon_in(&new_hylics);
    let ghost beacon = (bx, by);

    proof {
        if spec_arena_fits(ohv, opv, recipe@) {
            assert forall|ci: int| 0 <= ci < m.catalogue@.len() implies (
            #[trigger] m.locations@[ci])@.len() >= spec_count_psychics(
                opv,
                0,
                m.catalogue@[ci],
            ) by {
                assert(spec_count_hylics(ohv, ohv.len() as int, m.catalogue@[ci]) == 0);
            }
        }
    }

    let mut new_psychics: Vec<Psychic> = Vec::new();
    let mut fitnesses: Vec<u64> = Vec::new();
    let mut p: usize = 0;
    while p < sim.psychics.len()
        invariant
            p <= sim.psychics@.len(),
            ohv == hylic_views(sim.hylics@),
            opv == psychic_views(sim.psychics@),
            sim.map@ == old(sim).map@,
            sim.map.population@ == old(sim).map.population@,
            sim.map.catalogue@ == old(sim).map.catalogue@,
            sim.map.locations@ == old(sim).map.locations@,
            sim.settings == old(sim).settings,
            m.wf(),
            m.wf_catalogue(),
            m.width == width,
            m.height == height,
            m.population@ == recipe@,
            recipe@ == old(sim).map.population@,
            forall|k: int| 0 <= k < m@.effects.len() ==> (#[trigger] m@.effects[k]) == Effect::Void,
            forall|x: int, y: int|
                0 <= x < m@.width && 0 <= y < m@.height && is_border(m@.width, m@.height, x, y)
                    ==> #[trigger] m@.tile_at(x, y) == Species::Wall,
            1 <= width,
            1 <= height,
            m.catalogue@.len() == m.locations@.len(),
            m.catalogue@.len() >= 1,
            m.catalogue@[0] == Species::Wall,
            forall|a: int, b: int|
                0 <= a < b < m.catalogue@.len() ==> m.catalogue@[a] != m.catalogue@[b],
            forall|i2: int, j2: int|
                1 <= i2 < m.locations@.len() && 0 <= j2 < m.locations@[i2]@.len() ==> grid_at(
                    m@.tiles,
                    m@.width,
                    (#[trigger] m.locations@[i2]@[j2]).0 as int,
                    m.locations@[i2]@[j2].1 as int,
                ) == m.catalogue@[i2],
            forall|i1: int, j1: int, i2: int, j2: int|
                0 <= i1 < m.locations@.len() && 0 <= j1 < m.locations@[i1]@.len() && 0 <= i2
                    < m.locations@.len() && 0 <= j2 < m.locations@[i2]@.len() && (i1 != i2 || j1
                    != j2) ==> (#[trigger] m.locations@[i1]@[j1]) != (
                #[trigger] m.locations@[i2]@[j2]),
            forall|k2: int|
                0 <= k2 < recipe@.len() ==> ((#[trigger] recipe@[k2]) == Species::Wall || exists|
                    ci: int,
                |
                    1 <= ci < m.catalogue@.len() && m.catalogue@[ci] == recipe@[k2]),
            spec_arena_fits(ohv, opv, recipe@) ==> forall|ci: int|
                0 <= ci < m.catalogue@.len() ==> (#[trigger] m.locations@[ci])@.len()
                    >= spec_count_psychics(opv, p as int, m.catalogue@[ci]),
            new_hylics@.len() == ohv.len(),
            forall|j: int|
                0 <= j < ohv.len() ==> spec_respawned_hylic((#[trigger] new_hylics@[j])@, ohv[j], m@),
            forall|j1: int, j2: int|
                0 <= j1 < j2 < new_hylics@.len() ==> ((#[trigger] new_hylics@[j1]).position.x,
                new_hylics@[j1].position.y) != ((#[trigger] new_hylics@[j2]).position.x,
                new_hylics@[j2].position.y),
            forall|j1: int, i2: int, j2: int|
                0 <= j1 < new_hylics@.len() && 0 <= i2 < m.locations@.len() && 0 <= j2
                    < m.locations@[i2]@.len() ==> ((#[trigger] new_hylics@[j1]).position.x,
                new_hylics@[j1].position.y) != (#[trigger] m.locations@[i2]@[j2]),
            beacon == spec_beacon_pos(hylic_views(new_hylics@)),
            beacon == (bx, by),
            new_psychics@.len() == p,
            fitnesses@.len() == p,
            forall|j: int|
                0 <= j < p ==> spec_respawned_psychic(
                    (#[trigger] new_psychics@[j])@,
                    opv[j],
                    m@,
                    beacon,
                ),
            forall|j: int| 0 <= j < p ==> (#[trigger] fitnesses@[j]) == new_psychics@[j]@.soul.fitness,
            sum_weights(fitnesses@) <= 11000 * (p as int),
            forall|j1: int, j2: int|
                0 <= j1 < j2 < new_psychics@.len() ==> ((#[trigger] new_psychics@[j1]).position.x,
                new_psychics@[j1].position.y) != ((#[trigger] new_psychics@[j2]).position.x,
                new_psychics@[j2].position.y),
            forall|j1: int, i2: int, j2: int|
                0 <= j1 < new_psychics@.len() && 0 <= i2 < m.locations@.len() && 0 <= j2
                    < m.locations@[i2]@.len() ==> ((#[trigger] new_psychics@[j1]).position.x,
                new_psychics@[j1].position.y) != (#[trigger] m.locations@[i2]@[j2]),
            forall|j1: int, j2: int|
                0 <= j1 < new_hylics@.len() && 0 <= j2 < new_psychics@.len() ==> ((
                #[trigger] new_hylics@[j1]).position.x, new_hylics@[j1].position.y) != ((
                #[trigger] new_psychics@[j2]).position.x, new_psychics@[j2].position.y),
        decreases sim.psychics@.len() - p,
    {
        let osp = sim.psychics[p].trace.original_species;
        proof {
            assert(opv[p as int] == sim.psychics@[p as int]@);
        }
        let idx = match find_species_index(&m.catalogue, osp) {
            None => {
                proof {
                    if spec_arena_fits(ohv, opv, recipe@) {
                        lemma_count_psychics_prefix(opv, 0, p as int, osp);
                        lemma_count_psychics_nonneg(opv, p as int + 1, osp);
                        lemma_count_hylics_nonneg(ohv, 0, osp);
                        assert(spec_count_psychics(opv, p as int, osp) >= 1);
                        assert(count_species(recipe@, osp) >= 1);
                        lemma_count_species_member(recipe@, osp);
                        let k2 = choose|k2: int| 0 <= k2 < recipe@.len() && recipe@[k2] == osp;
                        assert(m.catalogue@[0] != osp);
                        assert(recipe@[k2] != Species::Wall);
                        let ci = choose|ci: int|
                            1 <= ci < m.catalogue@.len() && m.catalogue@[ci] == recipe@[k2];
                        assert(m.catalogue@[ci] != osp);
                        assert(false);
                    }
                }
                return Err(EvolveError::CatalogueExhausted);
            },
            Some(j) => j,
        };
        let ghost loc_before = m.locations@;
        let c = match m.locations[idx].pop() {
            None => {
                proof {
                    if spec_arena_fits(ohv, opv, recipe@) {
                        lemma_count_psychics_nonneg(opv, p as int + 1, osp);
                        assert(spec_count_psychics(opv, p as int, osp) >= 1);
                        assert(m.locations@[idx as int]@.len() >= 1);
                        assert(false);
                    }
                }
                return Err(EvolveError::CatalogueExhausted);
            },
            Some(c) => c,
        };
        let ghost last = loc_before[idx as int]@.len() - 1;
        proof {
            assert(c == loc_before[idx as int]@[last]);
            assert forall|i2: int, j2: int|
                0 <= i2 < m.locations@.len() && 0 <= j2 < m.locations@[i2]@.len() implies (
            #[trigger] m.locations@[i2]@[j2]) == loc_before[i2]@[j2] by {}
            assert(m.wf_catalogue()) by {
                assert forall|i2: int, j2: int|
                    0 <= i2 < m.locations@.len() && 0 <= j2 < m.locations@[i2]@.len() implies
                m@.in_bounds(
                    #[trigger] m.locations@[i2]@[j2].0 as int,
                    m.locations@[i2]@[j2].1 as int,
                ) by {
                    assert(m.locations@[i2]@[j2] == loc_before[i2]@[j2]);
                }
            }
            if spec_arena_fits(ohv, opv, recipe@) {
                assert forall|ci: int| 0 <= ci < m.catalogue@.len() implies (
                #[trigger] m.locations@[ci])@.len() >= spec_count_psychics(
                    opv,
                    p as int + 1,
                    m.catalogue@[ci],
                ) by {
                    let s2 = m.catalogue@[ci];
                    if ci == idx as int {
                        assert(spec_count_psychics(opv, p as int, s2) == 1 + spec_count_psychics(
                            opv,
                            p as int + 1,
                            s2,
                        ));
                    } else {
                        assert(s2 != osp);
                        assert(spec_count_psychics(opv, p as int, s2) == spec_count_psychics(
                            opv,
                            p as int + 1,
                            s2,
                        ));
                    }
                }
            }
            assert forall|i2: int, j2: int|
                0 <= i2 < m.locations@.len() && 0 <= j2 < m.locations@[i2]@.len() implies (
            #[trigger] m.locations@[i2]@[j2]) != c by {
                assert(loc_before[i2]@[j2] != loc_before[idx as int]@[last]);
            }
            assert forall|j1: int| 0 <= j1 < new_hylics@.len() implies ((
            #[trigger] new_hylics@[j1]).position.x, new_hylics@[j1].position.y) != c by {
                assert(((new_hylics@[j1]).position.x, new_hylics@[j1].position.y)
                    != loc_before[idx as int]@[last]);
            }
            assert forall|j1: int| 0 <= j1 < new_psychics@.len() implies ((
            #[trigger] new_psychics@[j1]).position.x, new_psychics@[j1].position.y) != c by {
                assert(((new_psychics@[j1]).position.x, new_psychics@[j1].position.y)
                    != loc_before[idx as int]@[last]);
            }
        }
        let opx = sim.psychics[p].position.x;
        let opy = sim.psychics[p].position.y;
        let distinct = sim.psychics[p].soul.actions_chosen.len();
        let stayed = never_left(&sim.psychics[p]);
        let f = compute_fitness(opx, opy, bx, by, distinct, stayed, width, height);
        let shipped_positions = copy_coords(&sim.psychics[p].trace.positions);
        let shipped_identity = copy_species_list(&sim.psychics[p].trace.identity);
        let action_choices = copy_effects(&sim.psychics[p].soul.action_choices);
        let mut tr_pos: Vec<(u32, u32)> = Vec::new();
        tr_pos.push(c);
        let mut tr_id: Vec<Species> = Vec::new();
        tr_id.push(osp);
        let np = Psychic {
            position: Position { x: c.0, y: c.1, starting_position: c },
            soul: Soul { action_choices, actions_chosen: Vec::new(), fitness: f },
            trace: Trace {
                positions: tr_pos,
                identity: tr_id,
                shipped_positions,
                shipped_identity,
                original_species: osp,
            },
            species: osp,
        };
        proof {
            assert(np@.trace.positions =~= seq![(np@.position.x, np@.position.y)]);
            assert(np@.trace.identity =~= seq![np@.species]);
            assert(np@.soul.actions_chosen.len() == 0);
            assert(f == spec_fitness(
                opx as int,
                opy as int,
                bx as int,
                by as int,
                distinct as int,
                stayed,
                width as int,
                height as int,
            ));
            assert(opx == opv[p as int].position.x);
            assert(opy == opv[p as int].position.y);
            assert(stayed == spec_never_left(opv[p as int]));
            assert(distinct == opv[p as int].soul.actions_chosen.len());
            assert(m@.width == width as int && m@.height == height as int);
            assert(beacon == (bx, by));
            assert(np@.soul.fitness == spec_fitness(
                opv[p as int].position.x as int,
                opv[p as int].position.y as int,
                beacon.0 as int,
                beacon.1 as int,
                opv[p as int].soul.actions_chosen.len() as int,
                spec_never_left(opv[p as int]),
                m@.width,
                m@.height,
            ));
            if osp != Species::Wall {
                assert(m.catalogue@[idx as int] == osp);
                assert(idx as int != 0);
                assert(grid_at(m@.tiles, m@.width, c.0 as int, c.1 as int)
                    == m.catalogue@[idx as int]) by {
                    assert(grid_at(
                        m@.tiles,
                        m@.width,
                        (loc_before[idx as int]@[last]).0 as int,
                        (loc_before[idx as int]@[last]).1 as int,
                    ) == m.catalogue@[idx as int]);
                }
            }
            assert(spec_respawned_psychic(np@, opv[p as int], m@, beacon));
            lemma_sum_push(fitnesses@, f);
            assert(11000 * (p as int) + 11000 == 11000 * (p as int + 1)) by (nonlinear_arith);
        }
        let ghost placed_before = new_psychics@;
        new_psychics.push(np);
        fitnesses.push(f);
        proof {
            assert forall|j1: int, j2: int| 0 <= j1 < j2 < new_psychics@.len() implies ((
            #[trigger] new_psychics@[j1]).position.x, new_psychics@[j1].position.y) != ((
            #[trigger] new_psychics@[j2]).position.x, new_psychics@[j2].position.y) by {
                if j2 == placed_before.len() {
                    assert(new_psychics@[j2] == np);
                    assert(new_psychics@[j1] == placed_before[j1]);
                } else {
                    assert(new_psychics@[j1] == placed_before[j1] && new_psychics@[j2]
                        == placed_before[j2]);
                }
            }
            assert forall|j1: int, i2: int, j2: int|
                0 <= j1 < new_psychics@.len() && 0 <= i2 < m.locations@.len() && 0 <= j2
                    < m.locations@[i2]@.len() implies ((
            #[trigger] new_psychics@[j1]).position.x, new_psychics@[j1].position.y) != (
            #[trigger] m.locations@[i2]@[j2]) by {
                if j1 == placed_before.len() {
                    assert(new_psychics@[j1] == np);
                } else {
                    assert(new_psychics@[j1] == placed_before[j1]);
                }
            }
            assert forall|j1: int, j2: int|
                0 <= j1 < new_hylics@.len() && 0 <= j2 < new_psychics@.len() implies ((
            #[trigger] new_hylics@[j1]).position.x, new_hylics@[j1].position.y) != ((
            #[trigger] new_psychics@[j2]).position.x, new_psychics@[j2].position.y) by {
                if j2 == placed_before.len() {
                    assert(new_psychics@[j2] == np);
                } else {
                    assert(new_psychics@[j2] == placed_before[j2]);
                }
            }
        }
        p = p + 1;
    }

    let parents: Vec<usize> = if fitnesses.len() > 0 {
        proof {
            assert(sum_weights(fitnesses@) <= 11000 * 0xffff_ffffint) by (nonlinear_arith)
                requires
                    sum_weights(fitnesses@) <= 11000 * (fitnesses@.len() as int),
                    fitnesses@.len() <= 0xffff_ffff,
                ;
        }
        select_parents(&fitnesses, new_psychics.len(), rng)
    } else {
        Vec::new()
    };

    sim.map = m;
    sim.hylics = new_hylics;
    sim.psychics = new_psychics;
    sim.settings.current_turn = 0;
    sim.settings.current_generation = sim.settings.current_generation + 1;
    proof {
        assert forall|j: int| 0 <= j < hylic_views(sim.hylics@).len() implies spec_respawned_hylic(
            #[trigger] hylic_views(sim.hylics@)[j],
            ohv[j],
            sim.map@,
        ) by {
            assert(hylic_views(sim.hylics@)[j] == sim.hylics@[j]@);
        }
        assert forall|j: int|
            0 <= j < psychic_views(sim.psychics@).len() implies spec_respawned_psychic(
            #[trigger] psychic_views(sim.psychics@)[j],
            opv[j],
            sim.map@,
            spec_beacon_pos(hylic_views(sim.hylics@)),
        ) by {
            assert(psychic_views(sim.psychics@)[j] == sim.psychics@[j]@);
        }
        let nhv = hylic_views(sim.hylics@);
        let npv = psychic_views(sim.psychics@);
        assert forall|j1: int, j2: int| 0 <= j1 < j2 < nhv.len() implies ((
        #[trigger] nhv[j1]).position.x, nhv[j1].position.y) != ((#[trigger] nhv[j2]).position.x,
        nhv[j2].position.y) by {
            assert(nhv[j1] == sim.hylics@[j1]@ && nhv[j2] == sim.hylics@[j2]@);
        }
        assert forall|j1: int, j2: int| 0 <= j1 < j2 < npv.len() implies ((
        #[trigger] npv[j1]).position.x, npv[j1].position.y) != ((#[trigger] npv[j2]).position.x,
        npv[j2].position.y) by {
            assert(npv[j1] == sim.psychics@[j1]@ && npv[j2] == sim.psychics@[j2]@);
        }
        assert forall|j1: int, j2: int|
            0 <= j1 < nhv.len() && 0 <= j2 < npv.len() implies ((#[trigger] nhv[j1]).position.x,
        nhv[j1].position.y) != ((#[trigger] npv[j2]).position.x, npv[j2].position.y) by {
            assert(nhv[j1] == sim.hylics@[j1]@ && npv[j2] == sim.psychics@[j2]@);
        }
    }
    Ok(parents)
}

} // verus!
