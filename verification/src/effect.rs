//! Effects: the tagged effects a creature or a tile can trigger, and the
//! pure interpreter that resolves them against a grid snapshot.

use vstd::prelude::*;

use crate::map::{MapModel, Species, TileMap};
use crate::simulation::{adjacent_coords, spec_adjacent};

verus! {

/// One effect: a motion, an area paint, a species transform, or nothing.
/// Pure data; resolving it never mutates the grid.
#[derive(Clone, Copy, PartialEq, Eq, Structural, Debug)]
pub enum Effect {
    Move { dx: i32, dy: i32 },
    PaintAdjacent { target_species: Species },
    SpeciesTransform { new_species: Species },
    Void,
}

/// The motion offset an effect asks for: its own offset for `Move`,
/// `(0, 0)` for every other kind.
pub open spec fn spec_motion(a: Effect) -> (i32, i32) {
    match a {
        Effect::Move { dx, dy } => (dx, dy),
        _ => (0i32, 0i32),
    }
}

/// The species a creature of `original` has after the effect acts on it:
/// the payload of `SpeciesTransform`, else `original` unchanged.
pub open spec fn spec_transform(a: Effect, original: Species) -> Species {
    match a {
        Effect::SpeciesTransform { new_species } => new_species,
        _ => original,
    }
}

/// The area effects of an effect at `pos`: for `PaintAdjacent`, one
/// `SpeciesTransform` aimed at each of the first `n` clamped orthogonal
/// neighbours whose tile is a wall; nothing for any other kind.
pub open spec fn spec_area_effects_upto(a: Effect, pos: (u32, u32), m: MapModel, n: int) -> Seq<
    (Effect, (u32, u32)),
>
    decreases n,
{
    if n <= 0 {
        Seq::empty()
    } else {
        let rest = spec_area_effects_upto(a, pos, m, n - 1);
        let target = spec_adjacent(pos, m.width, m.height)[n - 1];
        match a {
            Effect::PaintAdjacent { target_species } => {
                if m.tile_at(target.0 as int, target.1 as int) == Species::Wall {
                    rest.push((Effect::SpeciesTransform { new_species: target_species }, target))
                } else {
                    rest
                }
            },
            _ => rest,
        }
    }
}

/// The full area-effect batch of an effect at `pos`, in neighbour order.
pub open spec fn spec_area_effects(a: Effect, pos: (u32, u32), m: MapModel) -> Seq<
    (Effect, (u32, u32)),
> {
    spec_area_effects_upto(a, pos, m, 4)
}

impl Effect {
    /// The directional offset of this effect.
    pub fn act_motion(self) -> (r: (i32, i32))
        ensures
            r == spec_motion(self),
    {
        match self {
            Effect::Move { dx, dy } => (dx, dy),
            _ => (0, 0),
        }
    }

    /// The species left after this effect acts on `original_species`.
    pub fn act_transform(self, original_species: Species) -> (r: Species)
        ensures
            r == spec_transform(self, original_species),
    {
        match self {
            Effect::SpeciesTransform { new_species } => new_species,
            _ => original_species,
        }
    }

    /// The batch of effects this effect emits at `pos`, each paired with
    /// the coordinate it targets. Only `PaintAdjacent` emits anything: a
    /// transform for each orthogonally adjacent wall tile.
    pub fn act_area_effects(self, pos: (u32, u32), map: &TileMap) -> (r: Vec<(Effect, (u32, u32))>)
        requires
            map.wf(),
            map@.in_bounds(pos.0 as int, pos.1 as int),
        ensures
            r@ == spec_area_effects(self, pos, map@),
            forall|k: int|
                0 <= k < r@.len() ==> map@.in_bounds(#[trigger] r@[k].1.0 as int, r@[k].1.1 as int),
    {
        let mut output: Vec<(Effect, (u32, u32))> = Vec::new();
        match self {
            Effect::PaintAdjacent { target_species } => {
                let neighbours = adjacent_coords(pos, map.width, map.height);
                let mut i: usize = 0;
                while i < 4
                    invariant
                        i <= 4,
                        map.wf(),
                        map@.in_bounds(pos.0 as int, pos.1 as int),
                        neighbours@ == spec_adjacent(pos, map@.width, map@.height),
                        neighbours@.len() == 4,
                        forall|k: int|
                            0 <= k < 4
                                ==> map@.in_bounds(#[trigger] neighbours@[k].0 as int,
                                    neighbours@[k].1 as int),
                        output@ == spec_area_effects_upto(
                            Effect::PaintAdjacent { target_species },
                            pos,
                            map@,
                            i as int,
                        ),
                        forall|k: int|
                            0 <= k < output@.len()
                                ==> map@.in_bounds(#[trigger] output@[k].1.0 as int,
                                    output@[k].1.1 as int),
                    decreases 4 - i,
                {
                    let (nx, ny) = neighbours[i];
                    let idx = map.xy_idx(nx, ny);
                    if map.tiles[idx] == Species::Wall {
                        output.push((Effect::SpeciesTransform { new_species: target_species }, (
                            nx,
                            ny,
                        )));
                    }
                    i = i + 1;
                }
            },
            _ => {
                proof {
                    assert(spec_area_effects(self, pos, map@) =~= Seq::empty()) by {
                        reveal_with_fuel(spec_area_effects_upto, 5);
                    }
                }
            },
        }
        output
    }
}

/// A fresh vector holding the same effects.
pub(crate) fn copy_effects(v: &Vec<Effect>) -> (r: Vec<Effect>)
    ensures
        r@ == v@,
{
    let mut r: Vec<Effect> = Vec::new();
    let mut i: usize = 0;
    while i < v.len()
        invariant
            i <= v@.len(),
            r@ == v@.take(i as int),
        decreases v@.len() - i,
    {
        r.push(v[i]);
        proof {
            assert(r@ =~= v@.take(i + 1));
        }
        i = i + 1;
    }
    proof {
        assert(v@.take(v@.len() as int) =~= v@);
    }
    r
}

/// A bundle of action choices handed to an agent when it is created.
#[derive(Clone, Copy, PartialEq, Eq, Structural, Debug)]
pub enum AxiomKit {
    Motion,
    PaintKit,
}

/// The action list of the plain motion kit: the four unit moves and
/// standing still.
pub open spec fn spec_motion_kit() -> Seq<Effect> {
    seq![
        Effect::Move { dx: 0, dy: 1 },
        Effect::Move { dx: 0, dy: -1i32 },
        Effect::Move { dx: -1i32, dy: 0 },
        Effect::Move { dx: 1, dy: 0 },
        Effect::Move { dx: 0, dy: 0 },
    ]
}

/// The action list of the paint kit: the four unit moves and an
/// adjacent-wall paint.
pub open spec fn spec_paint_kit() -> Seq<Effect> {
    seq![
        Effect::Move { dx: 0, dy: 1 },
        Effect::Move { dx: 0, dy: -1i32 },
        Effect::Move { dx: -1i32, dy: 0 },
        Effect::Move { dx: 1, dy: 0 },
        Effect::PaintAdjacent { target_species: Species::Painted },
    ]
}

impl AxiomKit {
    /// The ordered action choices this kit stands for.
    pub fn unpack(self) -> (r: Vec<Effect>)
        ensures
            self is Motion ==> r@ == spec_motion_kit(),
            self is PaintKit ==> r@ == spec_paint_kit(),
            r@.len() == 5,
    {
        match self {
            AxiomKit::Motion => {
                let v = vec![
                    Effect::Move { dx: 0, dy: 1 },
                    Effect::Move { dx: 0, dy: -1i32 },
                    Effect::Move { dx: -1i32, dy: 0 },
                    Effect::Move { dx: 1, dy: 0 },
                    Effect::Move { dx: 0, dy: 0 },
                ];
                proof {
                    assert(v@ =~= spec_motion_kit());
                }
                v
            },
            AxiomKit::PaintKit => {
                let v = vec![
                    Effect::Move { dx: 0, dy: 1 },
                    Effect::Move { dx: 0, dy: -1i32 },
                    Effect::Move { dx: -1i32, dy: 0 },
                    Effect::Move { dx: 1, dy: 0 },
                    Effect::PaintAdjacent { target_species: Species::Painted },
                ];
                proof {
                    assert(v@ =~= spec_paint_kit());
                }
                v
            },
        }
    }
}

} // verus!
