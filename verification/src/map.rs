//! The tile grid: species, the map itself, and its mathematical model.

use vstd::prelude::*;

use rand::rngs::StdRng;

use crate::effect::Effect;
use crate::rng::{rng_index, rng_roll_100};

verus! {

/// What occupies one tile. Every cell of the grid holds exactly one of
/// these at all times; creatures write their own species into the tile
/// they stand on.
#[derive(Clone, Copy, PartialEq, Eq, Structural, Debug)]
pub enum Species {
    Wall,
    Empty,
    Agent,
    Beacon,
    Painted,
}

/// Ghost model of the grid: the tiles and the parallel effect grid as
/// sequences, addressed row-major by `y * width + x`.
pub struct MapModel {
    pub tiles: Seq<Species>,
    pub effects: Seq<Effect>,
    pub width: int,
    pub height: int,
}

impl MapModel {
    /// Row-major index of the cell at `(x, y)`.
    pub open spec fn idx(self, x: int, y: int) -> int {
        y * self.width + x
    }

    pub open spec fn in_bounds(self, x: int, y: int) -> bool {
        0 <= x < self.width && 0 <= y < self.height
    }

    pub open spec fn wf(self) -> bool {
        &&& 1 <= self.width
        &&& 1 <= self.height
        &&& self.width * self.height <= usize::MAX
        &&& self.tiles.len() == self.width * self.height
        &&& self.effects.len() == self.width * self.height
    }

    pub open spec fn tile_at(self, x: int, y: int) -> Species {
        self.tiles[self.idx(x, y)]
    }
}

/// A row-major cell index stays inside the grid.
pub proof fn lemma_idx_in_range(w: int, h: int, x: int, y: int)
    requires
        1 <= w,
        1 <= h,
        0 <= x < w,
        0 <= y < h,
    ensures
        0 <= y * w + x < w * h,
        y * w <= y * w + x,
{
    assert(y * w + x < w * h) by (nonlinear_arith)
        requires
            0 <= x < w,
            0 <= y < h,
        ;
    assert(0 <= y * w) by (nonlinear_arith)
        requires
            0 <= y,
            0 <= w,
        ;
}

/// Two distinct in-bounds cells have distinct row-major indices.
pub proof fn lemma_idx_injective(w: int, h: int, x1: int, y1: int, x2: int, y2: int)
    requires
        1 <= w,
        1 <= h,
        0 <= x1 < w,
        0 <= y1 < h,
        0 <= x2 < w,
        0 <= y2 < h,
        y1 * w + x1 == y2 * w + x2,
    ensures
        x1 == x2 && y1 == y2,
{
    assert(x1 == x2 && y1 == y2) by (nonlinear_arith)
        requires
            0 <= x1 < w,
            0 <= y1 < h,
            0 <= x2 < w,
            0 <= y2 < h,
            y1 * w + x1 == y2 * w + x2,
        ;
}

/// The tile grid, its pending-effect grid, and the placement bookkeeping
/// produced by map generation: a catalogue of species and, parallel to it,
/// the coordinates reserved for each species' instances.
pub struct TileMap {
    pub tiles: Vec<Species>,
    pub effect_map: Vec<Effect>,
    pub population: Vec<Species>,
    pub catalogue: Vec<Species>,
    pub locations: Vec<Vec<(u32, u32)>>,
    pub width: u32,
    pub height: u32,
}

impl View for TileMap {
    type V = MapModel;

    open spec fn view(&self) -> MapModel {
        MapModel {
            tiles: self.tiles@,
            effects: self.effect_map@,
            width: self.width as int,
            height: self.height as int,
        }
    }
}

impl TileMap {
    pub open spec fn wf(self) -> bool {
        self@.wf()
    }

    /// The catalogue and the reserved coordinates are parallel lists and
    /// every reserved coordinate lies on the grid.
    pub open spec fn wf_catalogue(self) -> bool {
        &&& self.catalogue@.len() == self.locations@.len()
        &&& forall|i: int, j: int|
            0 <= i < self.locations@.len() && 0 <= j < self.locations@[i]@.len()
                ==> self@.in_bounds(#[trigger] self.locations@[i]@[j].0 as int,
                    self.locations@[i]@[j].1 as int)
    }

    /// A fresh all-empty grid of the given shape, with a cleared effect
    /// grid and the given population recipe.
    pub fn new(width: u32, height: u32, population: Vec<Species>) -> (r: TileMap)
        requires
            1 <= width,
            1 <= height,
            width * height <= usize::MAX,
        ensures
            r.wf(),
            r.wf_catalogue(),
            r.width == width,
            r.height == height,
            r@.tiles =~= Seq::new((width * height) as nat, |i: int| Species::Empty),
            r@.effects =~= Seq::new((width * height) as nat, |i: int| Effect::Void),
            r.population@ == population@,
            r.catalogue@.len() == 0,
            r.locations@.len() == 0,
    {
        let side: usize = (width as usize) * (height as usize);
        let mut tiles: Vec<Species> = Vec::new();
        let mut effect_map: Vec<Effect> = Vec::new();
        let mut i: usize = 0;
        while i < side
            invariant
                i <= side,
                tiles@.len() == i,
                effect_map@.len() == i,
                forall|k: int| 0 <= k < i ==> tiles@[k] == Species::Empty,
                forall|k: int| 0 <= k < i ==> effect_map@[k] == Effect::Void,
            decreases side - i,
        {
            tiles.push(Species::Empty);
            effect_map.push(Effect::Void);
            i = i + 1;
        }
        TileMap {
            tiles,
            effect_map,
            population,
            catalogue: Vec::new(),
            locations: Vec::new(),
            width,
            height,
        }
    }

    /// Row-major index of `(x, y)` in this map's grids.
    pub fn xy_idx(&self, x: u32, y: u32) -> (r: usize)
        requires
            self.wf(),
            x < self.width,
            y < self.height,
        ensures
            r == self@.idx(x as int, y as int),
            r < self@.tiles.len(),
    {
        proof {
            lemma_idx_in_range(self.width as int, self.height as int, x as int, y as int);
        }
        (y as usize) * (self.width as usize) + (x as usize)
    }
}

/// The standard population recipe: one beacon followed by the given
/// number of learning agents.
pub fn standard_population(number_of_agents: u32) -> (r: Vec<Species>)
    ensures
        r@.len() == number_of_agents + 1,
        r@[0] == Species::Beacon,
        forall|i: int| 1 <= i < r@.len() ==> r@[i] == Species::Agent,
{
    let mut recipe: Vec<Species> = Vec::new();
    recipe.push(Species::Beacon);
    let mut i: u32 = 0;
    while i < number_of_agents
        invariant
            i <= number_of_agents,
            recipe@.len() == i + 1,
            recipe@[0] == Species::Beacon,
            forall|j: int| 1 <= j < recipe@.len() ==> recipe@[j] == Species::Agent,
        decreases number_of_agents - i,
    {
        recipe.push(Species::Agent);
        i = i + 1;
    }
    recipe
}

/// Width of the standard playing field.
pub const PLAY_AREA_WIDTH: u32 = 45;

/// Height of the standard playing field.
pub const PLAY_AREA_HEIGHT: u32 = 45;

/// The species at `(x, y)` in a bare row-major grid of width `w`.
pub open spec fn grid_at(tiles: Seq<Species>, w: int, x: int, y: int) -> Species {
    tiles[y * w + x]
}

/// Whether `(x, y)` lies on the border of a `w` by `h` grid.
pub open spec fn is_border(w: int, h: int, x: int, y: int) -> bool {
    x == 0 || y == 0 || x == w - 1 || y == h - 1
}

/// A row-major index decomposes into in-bounds coordinates.
pub proof fn lemma_cell_decompose(w: int, h: int, k: int)
    requires
        1 <= w,
        1 <= h,
        0 <= k < w * h,
    ensures
        0 <= k % w < w,
        0 <= k / w < h,
        k == (k / w) * w + (k % w),
{
    vstd::arithmetic::div_mod::lemma_fundamental_div_mod(k, w);
    vstd::arithmetic::div_mod::lemma_mod_bound(k, w);
    assert(k == (k / w) * w + (k % w)) by (nonlinear_arith)
        requires
            k == w * (k / w) + k % w,
        ;
    assert(0 <= k / w < h) by (nonlinear_arith)
        requires
            1 <= w,
            1 <= h,
            0 <= k < w * h,
            k == w * (k / w) + k % w,
            0 <= k % w < w,
        ;
}

/// The roll threshold that gives the standard wall fraction of about
/// fifteen percent: an interior cell whose percent roll lands strictly
/// above it is seeded as a wall.
pub const WALL_SEED_THRESHOLD: u32 = 85;

/// The grid a list of per-cell rolls seeds: a border cell is always a
/// wall, and an interior cell is a wall exactly when its roll lands
/// strictly above the threshold.
pub open spec fn spec_seed_grid(rolls: Seq<u32>, w: int, h: int, threshold: int) -> Seq<Species> {
    Seq::new(
        (w * h) as nat,
        |k: int|
            if is_border(w, h, k % w, k / w) || rolls[k] > threshold {
                Species::Wall
            } else {
                Species::Empty
            },
    )
}

/// Draw one percent roll per cell, in row-major order.
fn draw_rolls(count: usize, rng: &mut StdRng) -> (r: Vec<u32>)
    ensures
        r@.len() == count,
        forall|k: int| 0 <= k < count ==> (#[trigger] r@[k]) < 100,
{
    let mut rolls: Vec<u32> = Vec::new();
    let mut k: usize = 0;
    while k < count
        invariant
            k <= count,
            rolls@.len() == k,
            forall|j: int| 0 <= j < k ==> (#[trigger] rolls@[j]) < 100,
        decreases count - k,
    {
        rolls.push(rng_roll_100(rng));
        k = k + 1;
    }
    rolls
}

/// Judge every cell of a fresh grid against its roll: the exact seeding
/// rule as a function of the drawn values.
pub fn seed_from_rolls(width: u32, height: u32, wall_threshold: u32, rolls: &Vec<u32>) -> (r: Vec<
    Species,
>)
    requires
        1 <= width,
        1 <= height,
        width * height <= usize::MAX,
        rolls@.len() == width * height,
    ensures
        r@ == spec_seed_grid(
            rolls@,
            width as int,
            height as int,
            wall_threshold as int,
        ),
        r@.len() == width * height,
{
    let ghost w = width as int;
    let ghost h = height as int;
    let ghost target = spec_seed_grid(rolls@, w, h, wall_threshold as int);
    let side: usize = (width as usize) * (height as usize);
    let mut tiles: Vec<Species> = Vec::new();
    let mut k: usize = 0;
    while k < side
        invariant
            k <= side,
            1 <= width,
            1 <= height,
            w == width as int,
            h == height as int,
            width * height <= usize::MAX,
            side == w * h,
            rolls@.len() == side,
            target == spec_seed_grid(rolls@, w, h, wall_threshold as int),
            tiles@.len() == k,
            forall|j: int| 0 <= j < k ==> (#[trigger] tiles@[j]) == target[j],
        decreases side - k,
    {
        proof {
            lemma_cell_decompose(w, h, k as int);
        }
        let xu = k % (width as usize);
        let yu = k / (width as usize);
        let x = xu as u32;
        let y = yu as u32;
        proof {
            assert((k as int) % w == xu as int && (k as int) / w == yu as int);
        }
        let edge = x == 0 || y == 0 || y == height - 1 || x == width - 1;
        let cell = if edge || rolls[k] > wall_threshold {
            Species::Wall
        } else {
            Species::Empty
        };
        proof {
            assert(edge == is_border(w, h, k as int % w, k as int / w));
            assert(cell == target[k as int]);
        }
        tiles.push(cell);
        k = k + 1;
    }
    proof {
        assert(tiles@ =~= target);
    }
    tiles
}

/// Seed a fresh grid: draw one roll per cell and judge every cell with
/// `seed_from_rolls` — every border cell is a wall, and an interior
/// cell becomes a wall when its roll lands strictly above
/// `wall_threshold` and floor otherwise.
pub fn seed_walls(width: u32, height: u32, wall_threshold: u32, rng: &mut StdRng) -> (r: Vec<
    Species,
>)
    requires
        1 <= width,
        1 <= height,
        width * height <= usize::MAX,
    ensures
        r@.len() == width * height,
        exists|rolls: Seq<u32>|
            rolls.len() == width * height && (forall|k: int|
                0 <= k < rolls.len() ==> (#[trigger] rolls[k]) < 100) && r@ == spec_seed_grid(
                rolls,
                width as int,
                height as int,
                wall_threshold as int,
            ),
        forall|k: int| 0 <= k < r@.len() ==> ((#[trigger] r@[k]) == Species::Wall || r@[k]
            == Species::Empty),
        forall|x: int, y: int|
            0 <= x < width && 0 <= y < height && is_border(width as int, height as int, x, y)
                ==> #[trigger] grid_at(r@, width as int, x, y) == Species::Wall,
{
    let ghost w = width as int;
    let ghost h = height as int;
    let side: usize = (width as usize) * (height as usize);
    let rolls = draw_rolls(side, rng);
    let tiles = seed_from_rolls(width, height, wall_threshold, &rolls);
    proof {
        let target = spec_seed_grid(rolls@, w, h, wall_threshold as int);
        assert forall|x: int, y: int|
            0 <= x < w && 0 <= y < h && is_border(w, h, x, y) implies #[trigger] grid_at(
            tiles@,
            w,
            x,
            y,
        ) == Species::Wall by {
            lemma_idx_in_range(w, h, x, y);
            let k = y * w + x;
            vstd::arithmetic::div_mod::lemma_fundamental_div_mod_converse(k, w, y, x);
            assert(tiles@[k] == target[k]);
        }
    }
    tiles
}

/// How many of the eight cells around the interior cell `(x, y)` are
/// walls.
pub open spec fn spec_neighbor_walls(tiles: Seq<Species>, w: int, x: int, y: int) -> int {
    (if grid_at(tiles, w, x - 1, y) == Species::Wall {
        1int
    } else {
        0int
    }) + (if grid_at(tiles, w, x + 1, y) == Species::Wall {
        1int
    } else {
        0int
    }) + (if grid_at(tiles, w, x, y - 1) == Species::Wall {
        1int
    } else {
        0int
    }) + (if grid_at(tiles, w, x, y + 1) == Species::Wall {
        1int
    } else {
        0int
    }) + (if grid_at(tiles, w, x + 1, y - 1) == Species::Wall {
        1int
    } else {
        0int
    }) + (if grid_at(tiles, w, x - 1, y - 1) == Species::Wall {
        1int
    } else {
        0int
    }) + (if grid_at(tiles, w, x - 1, y + 1) == Species::Wall {
        1int
    } else {
        0int
    }) + (if grid_at(tiles, w, x + 1, y + 1) == Species::Wall {
        1int
    } else {
        0int
    })
}

/// One smoothing step at `(x, y)`: border cells keep their species; an
/// interior cell becomes a wall when more than four or none of its eight
/// neighbours are walls, and floor otherwise. Every cell is judged
/// against the same snapshot.
pub open spec fn spec_smoothed_cell(tiles: Seq<Species>, w: int, h: int, x: int, y: int) -> Species {
    if is_border(w, h, x, y) {
        grid_at(tiles, w, x, y)
    } else {
        let n = spec_neighbor_walls(tiles, w, x, y);
        if n > 4 || n == 0 {
            Species::Wall
        } else {
            Species::Empty
        }
    }
}

/// One whole smoothing pass over the grid.
pub open spec fn spec_smooth_grid(tiles: Seq<Species>, w: int, h: int) -> Seq<Species> {
    Seq::new((w * h) as nat, |k: int| spec_smoothed_cell(tiles, w, h, k % w, k / w))
}

/// `n` smoothing passes over the grid.
pub open spec fn spec_smooth_iter(tiles: Seq<Species>, w: int, h: int, n: nat) -> Seq<Species>
    decreases n,
{
    if n == 0 {
        tiles
    } else {
        spec_smooth_grid(spec_smooth_iter(tiles, w, h, (n - 1) as nat), w, h)
    }
}

/// Read the species at `(x, y)` from a bare row-major grid.
fn grid_read(tiles: &Vec<Species>, width: u32, height: u32, x: u32, y: u32) -> (r: Species)
    requires
        1 <= width,
        1 <= height,
        width * height <= usize::MAX,
        tiles@.len() == width * height,
        x < width,
        y < height,
    ensures
        r == grid_at(tiles@, width as int, x as int, y as int),
{
    proof {
        lemma_idx_in_range(width as int, height as int, x as int, y as int);
    }
    tiles[(y as usize) * (width as usize) + (x as usize)]
}

/// Count the wall neighbours of the interior cell `(x, y)`.
fn neighbor_wall_count(tiles: &Vec<Species>, width: u32, height: u32, x: u32, y: u32) -> (r: u32)
    requires
        3 <= width,
        3 <= height,
        width * height <= usize::MAX,
        tiles@.len() == width * height,
        1 <= x < width - 1,
        1 <= y < height - 1,
    ensures
        r == spec_neighbor_walls(tiles@, width as int, x as int, y as int),
{
    let mut n: u32 = 0;
    if grid_read(tiles, width, height, x - 1, y) == Species::Wall {
        n = n + 1;
    }
    if grid_read(tiles, width, height, x + 1, y) == Species::Wall {
        n = n + 1;
    }
    if grid_read(tiles, width, height, x, y - 1) == Species::Wall {
        n = n + 1;
    }
    if grid_read(tiles, width, height, x, y + 1) == Species::Wall {
        n = n + 1;
    }
    if grid_read(tiles, width, height, x + 1, y - 1) == Species::Wall {
        n = n + 1;
    }
    if grid_read(tiles, width, height, x - 1, y - 1) == Species::Wall {
        n = n + 1;
    }
    if grid_read(tiles, width, height, x - 1, y + 1) == Species::Wall {
        n = n + 1;
    }
    if grid_read(tiles, width, height, x + 1, y + 1) == Species::Wall {
        n = n + 1;
    }
    n
}

/// One cellular-automata smoothing pass: every interior cell is judged
/// against the snapshot `tiles` simultaneously, and the borders are kept.
pub fn smooth_pass(tiles: &Vec<Species>, width: u32, height: u32) -> (r: Vec<Species>)
    requires
        1 <= width,
        1 <= height,
        width * height <= usize::MAX,
        tiles@.len() == width * height,
    ensures
        r@ == spec_smooth_grid(tiles@, width as int, height as int),
        r@.len() == tiles@.len(),
{
    let ghost w = width as int;
    let ghost h = height as int;
    let mut out = copy_species_list(tiles);
    if width >= 3 && height >= 3 {
        let mut y: u32 = 1;
        while y < height - 1
            invariant
                1 <= y < height,
                3 <= width,
                3 <= height,
                w == width as int,
                h == height as int,
                width * height <= usize::MAX,
                tiles@.len() == width * height,
                out@.len() == tiles@.len(),
                forall|x2: int, y2: int|
                    0 <= x2 < w && 0 <= y2 < h ==> #[trigger] grid_at(out@, w, x2, y2) == (if !is_border(
                        w,
                        h,
                        x2,
                        y2,
                    ) && y2 < y {
                        spec_smoothed_cell(tiles@, w, h, x2, y2)
                    } else {
                        grid_at(tiles@, w, x2, y2)
                    }),
            decreases height - y,
        {
            let mut x: u32 = 1;
            while x < width - 1
                invariant
                    1 <= x < width,
                    1 <= y < height - 1,
                    3 <= width,
                    3 <= height,
                    w == width as int,
                    h == height as int,
                    width * height <= usize::MAX,
                    tiles@.len() == width * height,
                    out@.len() == tiles@.len(),
                    forall|x2: int, y2: int|
                        0 <= x2 < w && 0 <= y2 < h ==> #[trigger] grid_at(out@, w, x2, y2) == (
                        if !is_border(w, h, x2, y2) && (y2 < y || (y2 == y && x2 < x)) {
                            spec_smoothed_cell(tiles@, w, h, x2, y2)
                        } else {
                            grid_at(tiles@, w, x2, y2)
                        }),
                decreases width - x,
            {
                let n = neighbor_wall_count(tiles, width, height, x, y);
                let cell = if n > 4 || n == 0 {
                    Species::Wall
                } else {
                    Species::Empty
                };
                proof {
                    lemma_idx_in_range(w, h, x as int, y as int);
                }
                let idx = (y as usize) * (width as usize) + (x as usize);
                let ghost before = out@;
                out[idx] = cell;
                proof {
                    assert forall|x2: int, y2: int| 0 <= x2 < w && 0 <= y2 < h implies #[trigger]
                    grid_at(out@, w, x2, y2) == (if !is_border(w, h, x2, y2) && (y2 < y || (y2 == y
                        && x2 < x + 1)) {
                        spec_smoothed_cell(tiles@, w, h, x2, y2)
                    } else {
                        grid_at(tiles@, w, x2, y2)
                    }) by {
                        lemma_idx_in_range(w, h, x2, y2);
                        if y2 * w + x2 == y * w + x {
                            lemma_idx_injective(w, h, x2, y2, x as int, y as int);
                        } else {
                            assert(grid_at(out@, w, x2, y2) == grid_at(before, w, x2, y2));
                        }
                    }
                }
                x = x + 1;
            }
            y = y + 1;
        }
    }
    proof {
        let sm = spec_smooth_grid(tiles@, w, h);
        assert forall|k: int| 0 <= k < out@.len() implies out@[k] == sm[k] by {
            lemma_cell_decompose(w, h, k);
            let x2 = k % w;
            let y2 = k / w;
            assert(grid_at(out@, w, x2, y2) == out@[k]);
            if width >= 3 && height >= 3 {
                assert(grid_at(out@, w, x2, y2) == spec_smoothed_cell(tiles@, w, h, x2, y2));
            } else {
                assert(is_border(w, h, x2, y2));
            }
        }
        assert(out@ =~= sm);
    }
    out
}

/// Repeated smoothing: `passes` rounds of `smooth_pass`.
pub fn smooth(tiles: Vec<Species>, width: u32, height: u32, passes: u32) -> (r: Vec<Species>)
    requires
        1 <= width,
        1 <= height,
        width * height <= usize::MAX,
        tiles@.len() == width * height,
    ensures
        r@ == spec_smooth_iter(tiles@, width as int, height as int, passes as nat),
        r@.len() == tiles@.len(),
{
    let mut out = tiles;
    let ghost start = out@;
    let mut i: u32 = 0;
    while i < passes
        invariant
            i <= passes,
            1 <= width,
            1 <= height,
            width * height <= usize::MAX,
            start.len() == width * height,
            out@.len() == start.len(),
            out@ == spec_smooth_iter(start, width as int, height as int, i as nat),
        decreases passes - i,
    {
        out = smooth_pass(&out, width, height);
        i = i + 1;
    }
    out
}

/// Smoothing stability: one smoothing pass over an all-wall grid gives
/// back the same all-wall grid — every interior cell sees eight wall
/// neighbours, so the wall rule keeps it, and borders are kept as they
/// are.
pub proof fn lemma_smooth_all_wall(tiles: Seq<Species>, w: int, h: int)
    requires
        1 <= w,
        1 <= h,
        w * h <= usize::MAX,
        tiles.len() == w * h,
        forall|k: int| 0 <= k < tiles.len() ==> (#[trigger] tiles[k]) == Species::Wall,
    ensures
        spec_smooth_grid(tiles, w, h) == tiles,
{
    let sm = spec_smooth_grid(tiles, w, h);
    assert forall|k: int| 0 <= k < tiles.len() implies sm[k] == tiles[k] by {
        lemma_cell_decompose(w, h, k);
        let x = k % w;
        let y = k / w;
        if !is_border(w, h, x, y) {
            lemma_idx_in_range(w, h, x - 1, y);
            lemma_idx_in_range(w, h, x + 1, y);
            lemma_idx_in_range(w, h, x, y - 1);
            lemma_idx_in_range(w, h, x, y + 1);
            lemma_idx_in_range(w, h, x - 1, y - 1);
            lemma_idx_in_range(w, h, x + 1, y - 1);
            lemma_idx_in_range(w, h, x - 1, y + 1);
            lemma_idx_in_range(w, h, x + 1, y + 1);
            assert(spec_neighbor_walls(tiles, w, x, y) == 8);
        } else {
            assert(grid_at(tiles, w, x, y) == tiles[k]);
        }
    }
    assert(sm =~= tiles);
}

/// Why map generation can fail: the recipe asked for more creatures than
/// there are empty tiles to hold them.
#[derive(Clone, Copy, PartialEq, Eq, Structural, Debug)]
pub enum MapError {
    PlacementExhausted,
}

/// How many cells of the grid are empty floor.
pub open spec fn count_empty(tiles: Seq<Species>) -> int
    decreases tiles.len(),
{
    if tiles.len() == 0 {
        0
    } else {
        count_empty(tiles.drop_last()) + (if tiles.last() == Species::Empty {
            1int
        } else {
            0int
        })
    }
}

/// How many entries of `s` are the species `target`.
pub open spec fn count_species(s: Seq<Species>, target: Species) -> int
    decreases s.len(),
{
    if s.len() == 0 {
        0
    } else {
        count_species(s.drop_last(), target) + (if s.last() == target {
            1int
        } else {
            0int
        })
    }
}

proof fn lemma_count_empty_nonneg(s: Seq<Species>)
    ensures
        count_empty(s) >= 0,
    decreases s.len(),
{
    if s.len() > 0 {
        lemma_count_empty_nonneg(s.drop_last());
    }
}

proof fn lemma_count_empty_step(s: Seq<Species>, n: int)
    requires
        0 <= n < s.len(),
    ensures
        count_empty(s.take(n + 1)) == count_empty(s.take(n)) + (if s[n] == Species::Empty {
            1int
        } else {
            0int
        }),
{
    assert(s.take(n + 1).drop_last() =~= s.take(n));
    assert(s.take(n + 1).last() == s[n]);
}

proof fn lemma_count_species_step(s: Seq<Species>, target: Species, n: int)
    requires
        0 <= n < s.len(),
    ensures
        count_species(s.take(n + 1), target) == count_species(s.take(n), target) + (if s[n]
            == target {
            1int
        } else {
            0int
        }),
{
    assert(s.take(n + 1).drop_last() =~= s.take(n));
    assert(s.take(n + 1).last() == s[n]);
}

proof fn lemma_count_take_all<T>(s: Seq<T>)
    ensures
        s.take(s.len() as int) =~= s,
{
}

pub(crate) proof fn lemma_count_species_nonneg(s: Seq<Species>, target: Species)
    ensures
        count_species(s, target) >= 0,
    decreases s.len(),
{
    if s.len() > 0 {
        lemma_count_species_nonneg(s.drop_last(), target);
    }
}

/// A species counted at least once in a list appears in it.
pub(crate) proof fn lemma_count_species_member(s: Seq<Species>, target: Species)
    requires
        count_species(s, target) >= 1,
    ensures
        exists|k: int| 0 <= k < s.len() && s[k] == target,
    decreases s.len(),
{
    if s.len() > 0 {
        if s.last() == target {
            assert(s[s.len() - 1] == target);
        } else {
            lemma_count_species_member(s.drop_last(), target);
            let k = choose|k: int| 0 <= k < s.drop_last().len() && s.drop_last()[k] == target;
            assert(s[k] == target);
        }
    }
}

proof fn lemma_count_species_zero(s: Seq<Species>, target: Species)
    requires
        forall|k: int| 0 <= k < s.len() ==> s[k] != target,
    ensures
        count_species(s, target) == 0,
    decreases s.len(),
{
    if s.len() > 0 {
        lemma_count_species_zero(s.drop_last(), target);
    }
}

/// Write `species` at `(x, y)` into a bare row-major grid.
fn grid_write(tiles: &mut Vec<Species>, width: u32, height: u32, x: u32, y: u32, species: Species)
    requires
        1 <= width,
        1 <= height,
        width * height <= usize::MAX,
        old(tiles)@.len() == width * height,
        x < width,
        y < height,
    ensures
        final(tiles)@ == old(tiles)@.update((y as int) * (width as int) + (x as int), species),
{
    proof {
        lemma_idx_in_range(width as int, height as int, x as int, y as int);
    }
    let idx = (y as usize) * (width as usize) + (x as usize);
    tiles[idx] = species;
}

/// The index of `s` in the catalogue, if it is there.
pub(crate) fn find_species_index(catalogue: &Vec<Species>, s: Species) -> (r: Option<usize>)
    ensures
        r matches Some(i) ==> i < catalogue@.len() && catalogue@[i as int] == s,
        r is None ==> forall|i: int| 0 <= i < catalogue@.len() ==> catalogue@[i] != s,
{
    let mut i: usize = 0;
    while i < catalogue.len()
        invariant
            i <= catalogue@.len(),
            forall|k: int| 0 <= k < i ==> catalogue@[k] != s,
        decreases catalogue@.len() - i,
    {
        if catalogue[i] == s {
            return Some(i);
        }
        i = i + 1;
    }
    None
}

/// The coordinates of the first `n` grid cells that are not empty
/// floor, in row-major order.
pub open spec fn spec_nonempty_coords(tiles: Seq<Species>, w: int, n: int) -> Seq<(u32, u32)>
    decreases n,
{
    if n <= 0 {
        Seq::empty()
    } else {
        let rest = spec_nonempty_coords(tiles, w, n - 1);
        if tiles[n - 1] != Species::Empty {
            rest.push((((n - 1) % w) as u32, ((n - 1) / w) as u32))
        } else {
            rest
        }
    }
}

/// What a finished placement guarantees: the catalogue and the reserved
/// coordinates are parallel and duplicate-free with the wall bucket
/// first; every reserved coordinate lies on the grid; every coordinate
/// reserved for a creature species holds that species on the grid, was
/// reserved exactly as often as the recipe asks for the species and at
/// least once; every reserved coordinate, the wall bucket included, is
/// reserved only once; and every creature species of the recipe has a
/// catalogue entry.
pub open spec fn placement_ok(
    catalogue: Seq<Species>,
    locations: Seq<Vec<(u32, u32)>>,
    recipe: Seq<Species>,
    tiles: Seq<Species>,
    w: int,
    h: int,
) -> bool {
    &&& catalogue.len() == locations.len()
    &&& catalogue.len() >= 1
    &&& catalogue[0] == Species::Wall
    &&& forall|i: int, j: int| 0 <= i < j < catalogue.len() ==> catalogue[i] != catalogue[j]
    &&& forall|i: int, j: int|
        0 <= i < locations.len() && 0 <= j < locations[i]@.len() ==> ((
        #[trigger] locations[i]@[j]).0 as int) < w && (locations[i]@[j].1 as int) < h
    &&& forall|i: int, j: int|
        1 <= i < locations.len() && 0 <= j < locations[i]@.len() ==> grid_at(
            tiles,
            w,
            (#[trigger] locations[i]@[j]).0 as int,
            locations[i]@[j].1 as int,
        ) == catalogue[i]
    &&& forall|i: int|
        1 <= i < catalogue.len() ==> locations[i]@.len() == count_species(
            recipe,
            #[trigger] catalogue[i],
        )
    &&& forall|i: int| 1 <= i < locations.len() ==> (#[trigger] locations[i]@.len()) >= 1
    &&& forall|k: int|
        0 <= k < recipe.len() ==> ((#[trigger] recipe[k]) == Species::Wall || exists|i: int|
            1 <= i < catalogue.len() && catalogue[i] == recipe[k])
    &&& forall|i1: int, j1: int, i2: int, j2: int|
        0 <= i1 < locations.len() && 0 <= j1 < locations[i1]@.len() && 0 <= i2 < locations.len()
            && 0 <= j2 < locations[i2]@.len() && (i1 != i2 || j1 != j2) ==> (
        #[trigger] locations[i1]@[j1]) != (#[trigger] locations[i2]@[j2])
}

/// Assign every recipe entry a uniformly chosen, still-unused empty tile:
/// write its species there, and record the coordinate under that species
/// in the returned catalogue. The first catalogue entry is the wall
/// bucket: it starts as exactly the cells that were not empty when
/// placement began, in row-major order, followed by one entry per wall
/// recipe entry placed on an empty tile. Every changed cell is a
/// reserved coordinate. Fails, before touching anything, when the
/// recipe asks for more entries than there are empty tiles.
pub fn place_species(
    tiles: &mut Vec<Species>,
    width: u32,
    height: u32,
    recipe: &Vec<Species>,
    rng: &mut StdRng,
) -> (r: Result<(Vec<Species>, Vec<Vec<(u32, u32)>>), MapError>)
    requires
        1 <= width,
        1 <= height,
        width * height <= usize::MAX,
        old(tiles)@.len() == width * height,
    ensures
        final(tiles)@.len() == old(tiles)@.len(),
        r is Ok <==> recipe@.len() <= count_empty(old(tiles)@),
        r is Err ==> final(tiles)@ == old(tiles)@,
        forall|k: int|
            0 <= k < final(tiles)@.len() && final(tiles)@[k] != old(tiles)@[k] ==> (#[trigger] old(
                tiles,
            )@[k]) == Species::Empty,
        r matches Ok((catalogue, locations)) ==> placement_ok(
            catalogue@,
            locations@,
            recipe@,
            final(tiles)@,
            width as int,
            height as int,
        ),
        r matches Ok((catalogue, locations)) ==> ({
            let wl = spec_nonempty_coords(
                old(tiles)@,
                width as int,
                (width * height) as int,
            );
            &&& locations@[0]@.len() == wl.len() + count_species(recipe@, Species::Wall)
            &&& forall|j: int| 0 <= j < wl.len() ==> locations@[0]@[j] == wl[j]
            &&& forall|j: int|
                wl.len() <= j < locations@[0]@.len() ==> old(tiles)@[((
                #[trigger] locations@[0]@[j]).1 as int) * (width as int) + (
                locations@[0]@[j].0 as int)] == Species::Empty && grid_at(
                    final(tiles)@,
                    width as int,
                    locations@[0]@[j].0 as int,
                    locations@[0]@[j].1 as int,
                ) == Species::Wall
            &&& forall|i: int, j: int|
                1 <= i < locations@.len() && 0 <= j < locations@[i]@.len() ==> old(tiles)@[((
                #[trigger] locations@[i]@[j]).1 as int) * (width as int) + (
                locations@[i]@[j].0 as int)] == Species::Empty
            &&& forall|k: int|
                0 <= k < final(tiles)@.len() && final(tiles)@[k] != old(tiles)@[k]
                    ==> exists|i: int, j: int|
                    0 <= i < locations@.len() && 0 <= j < locations@[i]@.len() && ((
                    #[trigger] locations@[i]@[j]).1 as int) * (width as int) + (
                    locations@[i]@[j].0 as int) == k
        }),
{
    let ghost w = width as int;
    let ghost h = height as int;
    let ghost t0 = tiles@;
    let side: usize = (width as usize) * (height as usize);
    let ghost wl = spec_nonempty_coords(t0, w, (width * height) as int);

    let mut eligible: Vec<(u32, u32)> = Vec::new();
    let mut walls: Vec<(u32, u32)> = Vec::new();
    let mut k: usize = 0;
    while k < side
        invariant
            k <= side,
            1 <= width,
            1 <= height,
            w == width as int,
            h == height as int,
            width * height <= usize::MAX,
            side == w * h,
            tiles@ == t0,
            t0.len() == side,
            eligible@.len() == count_empty(t0.take(k as int)),
            forall|a: int|
                0 <= a < eligible@.len() ==> {
                    let c = #[trigger] eligible@[a];
                    &&& c.0 < width
                    &&& c.1 < height
                    &&& (c.1 as int) * w + (c.0 as int) < k
                    &&& t0[(c.1 as int) * w + (c.0 as int)] == Species::Empty
                },
            forall|a: int, b: int|
                0 <= a < b < eligible@.len() ==> (eligible@[a].1 as int) * w + (
                eligible@[a].0 as int) < (eligible@[b].1 as int) * w + (eligible@[b].0 as int),
            forall|a: int|
                0 <= a < walls@.len() ==> {
                    let c = #[trigger] walls@[a];
                    &&& c.0 < width
                    &&& c.1 < height
                    &&& (c.1 as int) * w + (c.0 as int) < k
                    &&& t0[(c.1 as int) * w + (c.0 as int)] != Species::Empty
                },
            walls@ == spec_nonempty_coords(t0, w, k as int),
            forall|a: int, b: int|
                0 <= a < b < walls@.len() ==> (#[trigger] walls@[a]) != (#[trigger] walls@[b]),
            forall|a: int, b: int|
                0 <= a < walls@.len() && 0 <= b < eligible@.len() ==> (#[trigger] walls@[a]) != (
                #[trigger] eligible@[b]),
        decreases side - k,
    {
        proof {
            lemma_cell_decompose(w, h, k as int);
        }
        let xu = k % (width as usize);
        let yu = k / (width as usize);
        let x = xu as u32;
        let y = yu as u32;
        proof {
            assert((k as int) % w == xu as int && (k as int) / w == yu as int);
            assert((y as int) * w + (x as int) == k as int);
        }
        let ghost walls_b = walls@;
        let ghost elig_b = eligible@;
        if tiles[k] == Species::Empty {
            eligible.push((x, y));
        } else {
            walls.push((x, y));
        }
        proof {
            lemma_count_empty_step(t0, k as int);
            if t0[k as int] == Species::Empty {
                assert forall|a: int, b: int|
                    0 <= a < walls@.len() && 0 <= b < eligible@.len() implies (
                #[trigger] walls@[a]) != (#[trigger] eligible@[b]) by {
                    if b == elig_b.len() {
                        assert(eligible@[b] == (x, y));
                        if walls@[a] == (x, y) {
                            assert(t0[(walls@[a].1 as int) * w + (walls@[a].0 as int)]
                                != Species::Empty);
                        }
                    } else {
                        assert(eligible@[b] == elig_b[b]);
                    }
                }
            } else {
                assert(walls@ == walls_b.push((x, y)));
                assert forall|a: int, b: int| 0 <= a < b < walls@.len() implies (
                #[trigger] walls@[a]) != (#[trigger] walls@[b]) by {
                    if b == walls_b.len() {
                        assert(walls@[a] == walls_b[a] && walls@[b] == (x, y));
                        if walls@[a] == (x, y) {
                            assert((walls_b[a].1 as int) * w + (walls_b[a].0 as int) < k as int);
                        }
                    } else {
                        assert(walls@[a] == walls_b[a] && walls@[b] == walls_b[b]);
                    }
                }
                assert forall|a: int, b: int|
                    0 <= a < walls@.len() && 0 <= b < eligible@.len() implies (
                #[trigger] walls@[a]) != (#[trigger] eligible@[b]) by {
                    if a == walls_b.len() {
                        assert(walls@[a] == (x, y));
                        if walls@[a] == eligible@[b] {
                            assert(t0[(eligible@[b].1 as int) * w + (eligible@[b].0 as int)]
                                == Species::Empty);
                            assert(t0[k as int] != Species::Empty);
                        }
                    } else {
                        assert(walls@[a] == walls_b[a]);
                    }
                }
            }
        }
        k = k + 1;
    }
    proof {
        lemma_count_take_all(t0);
        assert(walls@ == wl);
    }

    if recipe.len() > eligible.len() {
        return Err(MapError::PlacementExhausted);
    }

    let ghost elig0_len = eligible@.len() as int;
    let mut catalogue: Vec<Species> = Vec::new();
    let mut locations: Vec<Vec<(u32, u32)>> = Vec::new();
    catalogue.push(Species::Wall);
    locations.push(walls);
    proof {
        assert(locations@[0]@ == wl);
        assert(recipe@.take(0int) =~= Seq::<Species>::empty());
        assert(count_species(recipe@.take(0int), Species::Wall) == 0);
    }

    let mut si: usize = 0;
    while si < recipe.len()
        invariant
            si <= recipe@.len(),
            1 <= width,
            1 <= height,
            w == width as int,
            h == height as int,
            width * height <= usize::MAX,
            t0.len() == width * height,
            tiles@.len() == t0.len(),
            recipe@.len() <= elig0_len,
            eligible@.len() == elig0_len - si,
            forall|a: int|
                0 <= a < eligible@.len() ==> {
                    let c = #[trigger] eligible@[a];
                    &&& c.0 < width
                    &&& c.1 < height
                    &&& t0[(c.1 as int) * w + (c.0 as int)] == Species::Empty
                    &&& tiles@[(c.1 as int) * w + (c.0 as int)] == Species::Empty
                },
            forall|a: int, b: int|
                0 <= a < b < eligible@.len() ==> (#[trigger] eligible@[a]) != (
                #[trigger] eligible@[b]),
            forall|k2: int|
                0 <= k2 < tiles@.len() && tiles@[k2] != t0[k2] ==> (#[trigger] t0[k2])
                    == Species::Empty,
            placement_ok(catalogue@, locations@, recipe@.take(si as int), tiles@, w, h),
            forall|i: int, j: int, a: int|
                0 <= i < locations@.len() && 0 <= j < locations@[i]@.len() && 0 <= a
                    < eligible@.len() ==> (#[trigger] locations@[i]@[j]) != (#[trigger] eligible@[a]),
            wl == spec_nonempty_coords(t0, w, side as int),
            side == w * h,
            forall|j: int|
                0 <= j < wl.len() ==> {
                    let c = #[trigger] wl[j];
                    &&& c.0 < width
                    &&& c.1 < height
                    &&& t0[(c.1 as int) * w + (c.0 as int)] != Species::Empty
                },
            locations@[0]@.len() == wl.len() + count_species(
                recipe@.take(si as int),
                Species::Wall,
            ),
            forall|j: int| 0 <= j < wl.len() ==> locations@[0]@[j] == wl[j],
            forall|j: int|
                wl.len() <= j < locations@[0]@.len() ==> t0[((
                #[trigger] locations@[0]@[j]).1 as int) * w + (locations@[0]@[j].0 as int)]
                    == Species::Empty && tiles@[((locations@[0]@[j]).1 as int) * w + (
                locations@[0]@[j].0 as int)] == Species::Wall,
            forall|i: int, j: int|
                1 <= i < locations@.len() && 0 <= j < locations@[i]@.len() ==> t0[((
                #[trigger] locations@[i]@[j]).1 as int) * w + (locations@[i]@[j].0 as int)]
                    == Species::Empty,
            forall|k2: int|
                0 <= k2 < tiles@.len() && tiles@[k2] != t0[k2] ==> exists|i: int, j: int|
                    #![auto]
                    0 <= i < locations@.len() && 0 <= j < locations@[i]@.len() && ((
                    locations@[i]@[j]).1 as int) * w + (locations@[i]@[j].0 as int) == k2,
        decreases recipe@.len() - si,
    {
        let ghost tiles_before = tiles@;
        let ghost cat_before = catalogue@;
        let ghost loc_before = locations@;
        let ghost elig_before = eligible@;
        let s = recipe[si];
        let pick = rng_index(rng, eligible.len());
        let t = eligible.remove(pick);
        let ghost ti = (t.1 as int) * w + (t.0 as int);
        proof {
            elig_before.remove_ensures(pick as int);
            assert(t == elig_before[pick as int]);
            lemma_idx_in_range(w, h, t.0 as int, t.1 as int);
            // Every remaining entry is one of the old entries, other than
            // the picked one, so the element facts and distinctness carry.
            assert forall|a: int| 0 <= a < eligible@.len() implies exists|b: int|
                0 <= b < elig_before.len() && b != pick && #[trigger] eligible@[a]
                    == elig_before[b] by {
                if a < pick {
                    assert(eligible@[a] == elig_before[a]);
                } else {
                    assert(eligible@[a] == elig_before[a + 1]);
                }
            }
            assert forall|a: int, b: int| 0 <= a < b < eligible@.len() implies (
            #[trigger] eligible@[a]) != (#[trigger] eligible@[b]) by {
                if b < pick {
                    assert(eligible@[a] == elig_before[a] && eligible@[b] == elig_before[b]);
                } else if a < pick {
                    assert(eligible@[a] == elig_before[a] && eligible@[b] == elig_before[b + 1]);
                } else {
                    assert(eligible@[a] == elig_before[a + 1] && eligible@[b] == elig_before[b
                        + 1]);
                }
            }
            // No remaining entry is the picked coordinate or shares its index.
            assert forall|a: int| 0 <= a < eligible@.len() implies (#[trigger] eligible@[a]) != t
                && (eligible@[a].1 as int) * w + (eligible@[a].0 as int) != ti by {
                let b = choose|b: int|
                    0 <= b < elig_before.len() && b != pick && eligible@[a] == elig_before[b];
                assert(eligible@[a] != t);
                if (eligible@[a].1 as int) * w + (eligible@[a].0 as int) == ti {
                    lemma_idx_injective(
                        w,
                        h,
                        eligible@[a].0 as int,
                        eligible@[a].1 as int,
                        t.0 as int,
                        t.1 as int,
                    );
                }
            }
            // No already reserved coordinate is the picked one either.
            assert forall|i: int, j: int|
                0 <= i < loc_before.len() && 0 <= j < loc_before[i]@.len() implies (
            #[trigger] loc_before[i]@[j]) != t && (loc_before[i]@[j].1 as int) * w + (
            loc_before[i]@[j].0 as int) != ti by {
                assert(loc_before[i]@[j] != elig_before[pick as int]);
                if (loc_before[i]@[j].1 as int) * w + (loc_before[i]@[j].0 as int) == ti {
                    lemma_idx_injective(
                        w,
                        h,
                        loc_before[i]@[j].0 as int,
                        loc_before[i]@[j].1 as int,
                        t.0 as int,
                        t.1 as int,
                    );
                }
            }
        }
        grid_write(tiles, width, height, t.0, t.1, s);
        proof {
            assert(grid_at(tiles@, w, t.0 as int, t.1 as int) == s);
            assert forall|a: int| 0 <= a < eligible@.len() implies ((#[trigger] eligible@[a]).0
                < width && eligible@[a].1 < height && t0[(eligible@[a].1 as int) * w + (
            eligible@[a].0 as int)] == Species::Empty && tiles@[(eligible@[a].1 as int) * w + (
            eligible@[a].0 as int)] == Species::Empty) by {
                let b = choose|b: int|
                    0 <= b < elig_before.len() && b != pick && eligible@[a] == elig_before[b];
                assert(elig_before[b].0 < width && elig_before[b].1 < height);
                lemma_idx_in_range(w, h, elig_before[b].0 as int, elig_before[b].1 as int);
                assert(t0[(elig_before[b].1 as int) * w + (elig_before[b].0 as int)]
                    == Species::Empty);
                assert(tiles_before[(elig_before[b].1 as int) * w + (elig_before[b].0 as int)]
                    == Species::Empty);
            }
            assert forall|k2: int|
                0 <= k2 < tiles@.len() && tiles@[k2] != t0[k2] implies (#[trigger] t0[k2])
                    == Species::Empty by {
                if k2 != ti {
                    assert(tiles@[k2] == tiles_before[k2]);
                }
            }
            // Tiles under already reserved coordinates are untouched.
            assert forall|i: int, j: int|
                1 <= i < loc_before.len() && 0 <= j < loc_before[i]@.len() implies grid_at(
                tiles@,
                w,
                (#[trigger] loc_before[i]@[j]).0 as int,
                loc_before[i]@[j].1 as int,
            ) == cat_before[i] by {
                let c = loc_before[i]@[j];
                lemma_idx_in_range(w, h, c.0 as int, c.1 as int);
                assert((c.1 as int) * w + (c.0 as int) != ti);
                assert(tiles@[(c.1 as int) * w + (c.0 as int)] == tiles_before[(c.1 as int) * w + (
                c.0 as int)]);
            }
            assert forall|j: int|
                wl.len() <= j < loc_before[0]@.len() implies tiles@[((
            #[trigger] loc_before[0]@[j]).1 as int) * w + (loc_before[0]@[j].0 as int)]
                == Species::Wall by {
                let c = loc_before[0]@[j];
                lemma_idx_in_range(w, h, c.0 as int, c.1 as int);
                assert((c.1 as int) * w + (c.0 as int) != ti);
                assert(tiles@[(c.1 as int) * w + (c.0 as int)] == tiles_before[(c.1 as int) * w + (
                c.0 as int)]);
            }
            assert(recipe@.take(si as int + 1)[si as int] == s);
            assert forall|k2: int| 0 <= k2 < si as int implies recipe@.take(si as int + 1)[k2]
                == recipe@.take(si as int)[k2] by {}
        }
        match find_species_index(&catalogue, s) {
            None => {
                catalogue.push(s);
                let mut fresh: Vec<(u32, u32)> = Vec::new();
                fresh.push(t);
                locations.push(fresh);
                proof {
                    let cat1 = catalogue@;
                    let loc1 = locations@;
                    let rec1 = recipe@.take(si as int + 1);
                    let last = cat1.len() - 1;
                    assert(s != Species::Wall);
                    assert(cat1[last] == s && loc1[last]@ =~= seq![t]);
                    assert forall|k2: int| 0 <= k2 < si as int implies recipe@.take(si as int)[k2]
                        != s by {
                        assert(recipe@.take(si as int)[k2] == recipe@[k2]);
                        if recipe@[k2] != Species::Wall {
                            let i = choose|i: int|
                                1 <= i < cat_before.len() && cat_before[i] == recipe@[k2];
                            assert(cat_before[i] != s);
                        }
                    }
                    lemma_count_species_zero(recipe@.take(si as int), s);
                    lemma_count_species_step(recipe@, s, si as int);
                    assert forall|c: Species| c != s implies count_species(rec1, c)
                        == count_species(recipe@.take(si as int), c) by {
                        lemma_count_species_step(recipe@, c, si as int);
                    }
                    assert forall|i: int, j2: int| 0 <= i < j2 < cat1.len() implies cat1[i]
                        != cat1[j2] by {
                        if j2 == last {
                            assert(cat_before[i] != s);
                        }
                    }
                    assert forall|i: int, j2: int|
                        0 <= i < loc1.len() && 0 <= j2 < loc1[i]@.len() implies ((
                    #[trigger] loc1[i]@[j2]).0 as int) < w && (loc1[i]@[j2].1 as int) < h by {
                        if i < loc_before.len() as int {
                            assert(loc1[i]@[j2] == loc_before[i]@[j2]);
                        } else {
                            assert(loc1[i]@[j2] == t);
                        }
                    }
                    assert forall|i: int, j2: int|
                        1 <= i < loc1.len() && 0 <= j2 < loc1[i]@.len() implies grid_at(
                        tiles@,
                        w,
                        (#[trigger] loc1[i]@[j2]).0 as int,
                        loc1[i]@[j2].1 as int,
                    ) == cat1[i] by {
                        if i < loc_before.len() as int {
                            assert(loc1[i]@[j2] == loc_before[i]@[j2]);
                        } else {
                            assert(loc1[i]@[j2] == t);
                        }
                    }
                    assert forall|i: int| 1 <= i < cat1.len() implies loc1[i]@.len()
                        == count_species(rec1, #[trigger] cat1[i]) by {
                        if i < cat_before.len() as int {
                            assert(cat1[i] == cat_before[i] && cat1[i] != s);
                            assert(loc1[i]@ == loc_before[i]@);
                        } else {
                            assert(loc1[i]@.len() == 1);
                            assert(count_species(rec1, s) == 1);
                        }
                    }
                    assert forall|k2: int| 0 <= k2 < rec1.len() implies ((#[trigger] rec1[k2])
                        == Species::Wall || exists|i: int|
                        1 <= i < cat1.len() && cat1[i] == rec1[k2]) by {
                        if k2 < si as int {
                            if recipe@[k2] != Species::Wall {
                                let i0 = choose|i0: int|
                                    1 <= i0 < cat_before.len() && cat_before[i0] == recipe@[k2];
                                assert(cat1[i0] == rec1[k2]);
                            }
                        } else {
                            assert(cat1[last] == rec1[k2]);
                        }
                    }
                    assert forall|i1: int, j1: int, i2: int, j2: int|
                        0 <= i1 < loc1.len() && 0 <= j1 < loc1[i1]@.len() && 0 <= i2 < loc1.len()
                            && 0 <= j2 < loc1[i2]@.len() && (i1 != i2 || j1 != j2) implies (
                    #[trigger] loc1[i1]@[j1]) != (#[trigger] loc1[i2]@[j2]) by {
                        if i1 < loc_before.len() as int && i2 < loc_before.len() as int {
                            assert(loc1[i1]@[j1] == loc_before[i1]@[j1] && loc1[i2]@[j2]
                                == loc_before[i2]@[j2]);
                        } else if i1 < loc_before.len() as int {
                            assert(loc1[i2]@[j2] == t && loc1[i1]@[j1] == loc_before[i1]@[j1]);
                        } else if i2 < loc_before.len() as int {
                            assert(loc1[i1]@[j1] == t && loc1[i2]@[j2] == loc_before[i2]@[j2]);
                        }
                    }
                    assert(placement_ok(cat1, loc1, rec1, tiles@, w, h));
                    lemma_count_species_nonneg(recipe@.take(si as int), Species::Wall);
                    assert(loc1[0]@ == loc_before[0]@);
                    assert(count_species(rec1, Species::Wall) == count_species(
                        recipe@.take(si as int),
                        Species::Wall,
                    ));
                    assert forall|j2: int| wl.len() <= j2 < loc1[0]@.len() implies t0[((
                    #[trigger] loc1[0]@[j2]).1 as int) * w + (loc1[0]@[j2].0 as int)]
                        == Species::Empty && tiles@[((loc1[0]@[j2]).1 as int) * w + (
                    loc1[0]@[j2].0 as int)] == Species::Wall by {
                        assert(loc1[0]@[j2] == loc_before[0]@[j2]);
                    }
                    assert forall|i: int, j2: int|
                        1 <= i < loc1.len() && 0 <= j2 < loc1[i]@.len() implies t0[((
                    #[trigger] loc1[i]@[j2]).1 as int) * w + (loc1[i]@[j2].0 as int)]
                        == Species::Empty by {
                        if i < loc_before.len() as int {
                            assert(loc1[i]@[j2] == loc_before[i]@[j2]);
                        } else {
                            assert(loc1[i]@[j2] == t);
                        }
                    }
                    assert forall|k2: int|
                        0 <= k2 < tiles@.len() && tiles@[k2] != t0[k2] implies exists|
                        i: int,
                        j2: int,
                    |
                        #![auto]
                        0 <= i < loc1.len() && 0 <= j2 < loc1[i]@.len() && ((
                        loc1[i]@[j2]).1 as int) * w + (loc1[i]@[j2].0 as int) == k2 by {
                        if k2 == ti {
                            assert(loc1[loc1.len() - 1]@[0] == t);
                        } else {
                            assert(tiles@[k2] == tiles_before[k2]);
                            let (i, j2) = choose|i: int, j2: int|
                                0 <= i < loc_before.len() && 0 <= j2 < loc_before[i]@.len() && ((
                                loc_before[i]@[j2]).1 as int) * w + (loc_before[i]@[j2].0 as int)
                                    == k2;
                            assert(loc1[i]@[j2] == loc_before[i]@[j2]);
                        }
                    }
                    assert forall|i: int, j2: int, a: int|
                        0 <= i < loc1.len() && 0 <= j2 < loc1[i]@.len() && 0 <= a
                            < eligible@.len() implies (#[trigger] loc1[i]@[j2]) != (
                    #[trigger] eligible@[a]) by {
                        if i < loc_before.len() as int {
                            assert(loc1[i]@[j2] == loc_before[i]@[j2]);
                            let b = choose|b: int|
                                0 <= b < elig_before.len() && b != pick && eligible@[a]
                                    == elig_before[b];
                            assert(loc_before[i]@[j2] != elig_before[b]);
                        } else {
                            assert(loc1[i]@[j2] == t);
                            assert(eligible@[a] != t);
                        }
                    }
                }
            },
            Some(j) => {
                locations[j].push(t);
                proof {
                    let cat1 = catalogue@;
                    let loc1 = locations@;
                    let rec1 = recipe@.take(si as int + 1);
                    let jj = j as int;
                    assert(cat_before[jj] == s);
                    assert(loc1[jj]@ == loc_before[jj]@.push(t));
                    assert forall|i: int| 0 <= i < loc1.len() && i != jj implies loc1[i]@
                        == loc_before[i]@ by {}
                    lemma_count_species_step(recipe@, s, si as int);
                    assert forall|c: Species| c != s implies count_species(rec1, c)
                        == count_species(recipe@.take(si as int), c) by {
                        lemma_count_species_step(recipe@, c, si as int);
                    }
                    assert forall|i: int, j2: int|
                        0 <= i < loc1.len() && 0 <= j2 < loc1[i]@.len() implies ((
                    #[trigger] loc1[i]@[j2]).0 as int) < w && (loc1[i]@[j2].1 as int) < h by {
                        if i != jj || j2 < loc_before[i]@.len() {
                            assert(loc1[i]@[j2] == loc_before[i]@[j2]);
                        } else {
                            assert(loc1[i]@[j2] == t);
                        }
                    }
                    assert forall|i: int, j2: int|
                        1 <= i < loc1.len() && 0 <= j2 < loc1[i]@.len() implies grid_at(
                        tiles@,
                        w,
                        (#[trigger] loc1[i]@[j2]).0 as int,
                        loc1[i]@[j2].1 as int,
                    ) == cat1[i] by {
                        if i != jj || j2 < loc_before[i]@.len() {
                            assert(loc1[i]@[j2] == loc_before[i]@[j2]);
                        } else {
                            assert(loc1[i]@[j2] == t && cat1[i] == s);
                        }
                    }
                    assert forall|i: int| 1 <= i < cat1.len() implies loc1[i]@.len()
                        == count_species(rec1, #[trigger] cat1[i]) by {
                        if i == jj {
                            assert(loc1[i]@.len() == loc_before[i]@.len() + 1);
                        } else {
                            assert(loc1[i]@ == loc_before[i]@ && cat1[i] != s);
                        }
                    }
                    assert forall|k2: int| 0 <= k2 < rec1.len() implies ((#[trigger] rec1[k2])
                        == Species::Wall || exists|i: int|
                        1 <= i < cat1.len() && cat1[i] == rec1[k2]) by {
                        if k2 < si as int {
                            if recipe@[k2] != Species::Wall {
                                let i0 = choose|i0: int|
                                    1 <= i0 < cat_before.len() && cat_before[i0] == recipe@[k2];
                                assert(cat1[i0] == rec1[k2]);
                            }
                        } else {
                            assert(rec1[k2] == s);
                            if jj >= 1 {
                                assert(cat1[jj] == s);
                            } else {
                                assert(s == Species::Wall);
                            }
                        }
                    }
                    assert forall|i1: int, j1: int, i2: int, j2: int|
                        0 <= i1 < loc1.len() && 0 <= j1 < loc1[i1]@.len() && 0 <= i2 < loc1.len()
                            && 0 <= j2 < loc1[i2]@.len() && (i1 != i2 || j1 != j2) implies (
                    #[trigger] loc1[i1]@[j1]) != (#[trigger] loc1[i2]@[j2]) by {
                        let new1 = i1 == jj && j1 == loc_before[i1]@.len();
                        let new2 = i2 == jj && j2 == loc_before[i2]@.len();
                        if !new1 && !new2 {
                            assert(loc1[i1]@[j1] == loc_before[i1]@[j1] && loc1[i2]@[j2]
                                == loc_before[i2]@[j2]);
                        } else if new1 && !new2 {
                            assert(loc1[i1]@[j1] == t && loc1[i2]@[j2] == loc_before[i2]@[j2]);
                        } else if !new1 && new2 {
                            assert(loc1[i2]@[j2] == t && loc1[i1]@[j1] == loc_before[i1]@[j1]);
                        }
                    }
                    assert(placement_ok(cat1, loc1, rec1, tiles@, w, h));
                    lemma_count_species_nonneg(recipe@.take(si as int), Species::Wall);
                    if jj == 0 {
                        assert(s == Species::Wall);
                        assert(loc1[0]@.len() == loc_before[0]@.len() + 1);
                    } else {
                        assert(loc1[0]@ == loc_before[0]@);
                        assert(s != Species::Wall);
                    }
                    assert(loc1[0]@.len() == wl.len() + count_species(rec1, Species::Wall));
                    assert forall|j2: int| 0 <= j2 < wl.len() implies loc1[0]@[j2] == wl[j2] by {
                        assert(loc1[0]@[j2] == loc_before[0]@[j2]);
                    }
                    assert forall|j2: int| wl.len() <= j2 < loc1[0]@.len() implies t0[((
                    #[trigger] loc1[0]@[j2]).1 as int) * w + (loc1[0]@[j2].0 as int)]
                        == Species::Empty && tiles@[((loc1[0]@[j2]).1 as int) * w + (
                    loc1[0]@[j2].0 as int)] == Species::Wall by {
                        if jj == 0 && j2 == loc_before[0]@.len() {
                            assert(loc1[0]@[j2] == t);
                            assert(tiles@[ti] == s);
                        } else {
                            assert(loc1[0]@[j2] == loc_before[0]@[j2]);
                        }
                    }
                    assert forall|i: int, j2: int|
                        1 <= i < loc1.len() && 0 <= j2 < loc1[i]@.len() implies t0[((
                    #[trigger] loc1[i]@[j2]).1 as int) * w + (loc1[i]@[j2].0 as int)]
                        == Species::Empty by {
                        if i == jj && j2 == loc_before[i]@.len() {
                            assert(loc1[i]@[j2] == t);
                        } else {
                            assert(loc1[i]@[j2] == loc_before[i]@[j2]);
                        }
                    }
                    assert forall|k2: int|
                        0 <= k2 < tiles@.len() && tiles@[k2] != t0[k2] implies exists|
                        i: int,
                        j2: int,
                    |
                        #![auto]
                        0 <= i < loc1.len() && 0 <= j2 < loc1[i]@.len() && ((
                        loc1[i]@[j2]).1 as int) * w + (loc1[i]@[j2].0 as int) == k2 by {
                        if k2 == ti {
                            assert(loc1[jj]@[loc_before[jj]@.len() as int] == t);
                        } else {
                            assert(tiles@[k2] == tiles_before[k2]);
                            let (i, j2) = choose|i: int, j2: int|
                                0 <= i < loc_before.len() && 0 <= j2 < loc_before[i]@.len() && ((
                                loc_before[i]@[j2]).1 as int) * w + (loc_before[i]@[j2].0 as int)
                                    == k2;
                            assert(loc1[i]@[j2] == loc_before[i]@[j2]);
                        }
                    }
                    assert forall|i: int, j2: int, a: int|
                        0 <= i < loc1.len() && 0 <= j2 < loc1[i]@.len() && 0 <= a
                            < eligible@.len() implies (#[trigger] loc1[i]@[j2]) != (
                    #[trigger] eligible@[a]) by {
                        if i != jj || j2 < loc_before[i]@.len() {
                            assert(loc1[i]@[j2] == loc_before[i]@[j2]);
                            let b = choose|b: int|
                                0 <= b < elig_before.len() && b != pick && eligible@[a]
                                    == elig_before[b];
                            assert(loc_before[i]@[j2] != elig_before[b]);
                        } else {
                            assert(loc1[i]@[j2] == t);
                            assert(eligible@[a] != t);
                        }
                    }
                }
            },
        }
        si = si + 1;
    }
    proof {
        lemma_count_take_all(recipe@);
    }
    Ok((catalogue, locations))
}

/// Smoothing keeps the seed's alphabet: after any number of passes every
/// cell is still either a wall or empty floor.
pub proof fn lemma_smooth_iter_alphabet(tiles: Seq<Species>, w: int, h: int, n: nat)
    requires
        1 <= w,
        1 <= h,
        w * h <= usize::MAX,
        tiles.len() == w * h,
        forall|k: int| 0 <= k < tiles.len() ==> ((#[trigger] tiles[k]) == Species::Wall || tiles[k]
            == Species::Empty),
    ensures
        spec_smooth_iter(tiles, w, h, n).len() == w * h,
        forall|k: int|
            0 <= k < w * h ==> ((#[trigger] spec_smooth_iter(tiles, w, h, n)[k]) == Species::Wall
                || spec_smooth_iter(tiles, w, h, n)[k] == Species::Empty),
    decreases n,
{
    if n != 0 {
        let prev = spec_smooth_iter(tiles, w, h, (n - 1) as nat);
        lemma_smooth_iter_alphabet(tiles, w, h, (n - 1) as nat);
        let cur = spec_smooth_grid(prev, w, h);
        assert forall|k: int|
            0 <= k < w * h implies ((#[trigger] cur[k]) == Species::Wall || cur[k]
            == Species::Empty) by {
            lemma_cell_decompose(w, h, k);
            assert(cur[k] == spec_smoothed_cell(prev, w, h, k % w, k / w));
        }
    }
}

/// Every recorded non-empty coordinate lies on the grid and indeed
/// holds something other than empty floor.
pub proof fn lemma_nonempty_coords_elems(tiles: Seq<Species>, w: int, h: int, n: int)
    requires
        1 <= w <= u32::MAX,
        1 <= h <= u32::MAX,
        0 <= n <= w * h,
        tiles.len() == w * h,
    ensures
        forall|j: int|
            0 <= j < spec_nonempty_coords(tiles, w, n).len() ==> {
                let c = #[trigger] spec_nonempty_coords(tiles, w, n)[j];
                &&& (c.0 as int) < w
                &&& (c.1 as int) < h
                &&& tiles[(c.1 as int) * w + (c.0 as int)] != Species::Empty
            },
    decreases n,
{
    if n > 0 {
        lemma_nonempty_coords_elems(tiles, w, h, n - 1);
        lemma_cell_decompose(w, h, n - 1);
        let prev = spec_nonempty_coords(tiles, w, n - 1);
        let cur = spec_nonempty_coords(tiles, w, n);
        assert forall|j: int|
            0 <= j < cur.len() implies {
            let c = #[trigger] cur[j];
            &&& (c.0 as int) < w
            &&& (c.1 as int) < h
            &&& tiles[(c.1 as int) * w + (c.0 as int)] != Species::Empty
        } by {
            if j < prev.len() {
                assert(cur[j] == prev[j]);
            } else {
                assert(cur[j] == ((((n - 1) % w) as u32, ((n - 1) / w) as u32)));
                assert(0 <= (n - 1) % w < w && 0 <= (n - 1) / w < h);
            }
        }
    }
}

/// Smoothing never touches the border: after any number of passes every
/// border cell still holds what the seed put there.
pub proof fn lemma_smooth_iter_border(tiles: Seq<Species>, w: int, h: int, n: nat)
    requires
        1 <= w,
        1 <= h,
        w * h <= usize::MAX,
        tiles.len() == w * h,
    ensures
        spec_smooth_iter(tiles, w, h, n).len() == w * h,
        forall|x: int, y: int|
            0 <= x < w && 0 <= y < h && is_border(w, h, x, y) ==> #[trigger] grid_at(
                spec_smooth_iter(tiles, w, h, n),
                w,
                x,
                y,
            ) == grid_at(tiles, w, x, y),
    decreases n,
{
    if n != 0 {
        let prev = spec_smooth_iter(tiles, w, h, (n - 1) as nat);
        lemma_smooth_iter_border(tiles, w, h, (n - 1) as nat);
        let cur = spec_smooth_grid(prev, w, h);
        assert forall|x: int, y: int|
            0 <= x < w && 0 <= y < h && is_border(w, h, x, y) implies #[trigger] grid_at(
            cur,
            w,
            x,
            y,
        ) == grid_at(tiles, w, x, y) by {
            lemma_idx_in_range(w, h, x, y);
            let k = y * w + x;
            vstd::arithmetic::div_mod::lemma_fundamental_div_mod_converse(k, w, y, x);
            assert(cur[k] == spec_smoothed_cell(prev, w, h, k % w, k / w));
            assert(k % w == x && k / w == y);
        }
    }
}

/// Build a fresh map: seed walls with the borders closed, smooth the
/// cave, place every recipe entry on its own empty tile, and start with
/// a cleared effect grid. Fails when the recipe asks for more entries
/// than the smoothed cave has empty tiles.
pub fn build_map(
    width: u32,
    height: u32,
    recipe: &Vec<Species>,
    wall_threshold: u32,
    smoothing_passes: u32,
    rng: &mut StdRng,
) -> (r: Result<TileMap, MapError>)
    requires
        1 <= width,
        1 <= height,
        width * height <= usize::MAX,
    ensures
        recipe@.len() == 0 ==> r is Ok,
        r matches Ok(m) ==> {
            &&& m.wf()
            &&& m.wf_catalogue()
            &&& m.width == width
            &&& m.height == height
            &&& m.population@ == recipe@
            &&& forall|k: int|
                0 <= k < m@.effects.len() ==> (#[trigger] m@.effects[k]) == Effect::Void
            &&& placement_ok(
                m.catalogue@,
                m.locations@,
                recipe@,
                m@.tiles,
                width as int,
                height as int,
            )
            &&& forall|x: int, y: int|
                0 <= x < width && 0 <= y < height && is_border(width as int, height as int, x, y)
                    ==> #[trigger] m@.tile_at(x, y) == Species::Wall
            &&& forall|k: int|
                0 <= k < m@.tiles.len() ==> ((#[trigger] m@.tiles[k]) == Species::Empty || exists|
                    i: int,
                |
                    #![auto]
                    0 <= i < m.catalogue@.len() && m@.tiles[k] == m.catalogue@[i])
            &&& forall|j: int|
                0 <= j < m.locations@[0]@.len() ==> grid_at(
                    m@.tiles,
                    width as int,
                    (#[trigger] m.locations@[0]@[j]).0 as int,
                    m.locations@[0]@[j].1 as int,
                ) == Species::Wall
            &&& m.locations@[0]@.len() >= count_species(recipe@, Species::Wall)
        },
{
    let ghost w = width as int;
    let ghost h = height as int;
    let seeded = seed_walls(width, height, wall_threshold, rng);
    let ghost sd = seeded@;
    let mut tiles = smooth(seeded, width, height, smoothing_passes);
    let ghost smoothed = tiles@;
    proof {
        lemma_smooth_iter_border(sd, w, h, smoothing_passes as nat);
    }
    match place_species(&mut tiles, width, height, recipe, rng) {
        Err(e) => {
            proof {
                lemma_count_empty_nonneg(smoothed);
            }
            Err(e)
        },
        Ok((catalogue, locations)) => {
            let side: usize = (width as usize) * (height as usize);
            let mut effect_map: Vec<Effect> = Vec::new();
            let mut i: usize = 0;
            while i < side
                invariant
                    i <= side,
                    effect_map@.len() == i,
                    forall|k: int| 0 <= k < i ==> (#[trigger] effect_map@[k]) == Effect::Void,
                decreases side - i,
            {
                effect_map.push(Effect::Void);
                i = i + 1;
            }
            let population = copy_species_list(recipe);
            let m = TileMap { tiles, effect_map, population, catalogue, locations, width, height };
            proof {
                assert forall|x: int, y: int|
                    0 <= x < w && 0 <= y < h && is_border(w, h, x, y) implies #[trigger] m@.tile_at(
                    x,
                    y,
                ) == Species::Wall by {
                    lemma_idx_in_range(w, h, x, y);
                    let k = y * w + x;
                    assert(grid_at(smoothed, w, x, y) == grid_at(sd, w, x, y));
                    assert(grid_at(sd, w, x, y) == Species::Wall);
                    if m@.tiles[k] != smoothed[k] {
                        assert(smoothed[k] == Species::Empty);
                    }
                }
                lemma_smooth_iter_alphabet(sd, w, h, smoothing_passes as nat);
                let wl = spec_nonempty_coords(smoothed, w, (width * height) as int);
                lemma_nonempty_coords_elems(smoothed, w, h, (width * height) as int);
                assert forall|k: int|
                    0 <= k < m@.tiles.len() implies ((#[trigger] m@.tiles[k]) == Species::Empty
                    || exists|i: int|
                    #![auto]
                    0 <= i < m.catalogue@.len() && m@.tiles[k] == m.catalogue@[i]) by {
                    if m@.tiles[k] != smoothed[k] {
                        let (i, j) = choose|i: int, j: int|
                            0 <= i < m.locations@.len() && 0 <= j < m.locations@[i]@.len() && ((
                            m.locations@[i]@[j]).1 as int) * w + (m.locations@[i]@[j].0 as int)
                                == k;
                        let c = m.locations@[i]@[j];
                        if i >= 1 {
                            assert(grid_at(m@.tiles, w, c.0 as int, c.1 as int)
                                == m.catalogue@[i]);
                        } else {
                            if j < wl.len() {
                                assert(c == wl[j]);
                                assert(smoothed[k] != Species::Empty);
                                assert(smoothed[k] == Species::Empty);
                            } else {
                                assert(grid_at(m@.tiles, w, c.0 as int, c.1 as int)
                                    == Species::Wall);
                                assert(m.catalogue@[0] == Species::Wall);
                            }
                        }
                    } else {
                        assert(smoothed[k] == Species::Wall || smoothed[k] == Species::Empty);
                        assert(m.catalogue@[0] == Species::Wall);
                    }
                }
                assert forall|j: int| 0 <= j < m.locations@[0]@.len() implies grid_at(
                    m@.tiles,
                    w,
                    (#[trigger] m.locations@[0]@[j]).0 as int,
                    m.locations@[0]@[j].1 as int,
                ) == Species::Wall by {
                    if j < wl.len() {
                        assert(m.locations@[0]@[j] == wl[j]);
                        let c = wl[j];
                        lemma_idx_in_range(w, h, c.0 as int, c.1 as int);
                        let kk = (c.1 as int) * w + (c.0 as int);
                        assert(smoothed[kk] != Species::Empty);
                        assert(smoothed[kk] == Species::Wall);
                        if m@.tiles[kk] != smoothed[kk] {
                            assert(smoothed[kk] == Species::Empty);
                        }
                    }
                }
            }
            Ok(m)
        },
    }
}

/// A fresh vector holding the same coordinates.
pub(crate) fn copy_coords(v: &Vec<(u32, u32)>) -> (r: Vec<(u32, u32)>)
    ensures
        r@ == v@,
{
    let mut r: Vec<(u32, u32)> = Vec::new();
    let mut i: usize = 0;
    while i < v.len()
        invariant
            i <= v@.len(),
            r@ == v@.take(i as int),
        decreases v@.len() - i,
    {
        r.push(v[i]);
        proof {
            assert(r@ =~= v@.take(i + 1));
        }
        i = i + 1;
    }
    proof {
        assert(v@.take(v@.len() as int) =~= v@);
    }
    r
}

/// A fresh vector holding the same species.
pub(crate) fn copy_species_list(v: &Vec<Species>) -> (r: Vec<Species>)
    ensures
        r@ == v@,
{
    let mut r: Vec<Species> = Vec::new();
    let mut i: usize = 0;
    while i < v.len()
        invariant
            i <= v@.len(),
            r@ == v@.take(i as int),
        decreases v@.len() - i,
    {
        r.push(v[i]);
        proof {
            assert(r@ =~= v@.take(i + 1));
        }
        i = i + 1;
    }
    proof {
        assert(v@.take(v@.len() as int) =~= v@);
    }
    r
}

/// Row-major index into a grid of the standard width.
pub fn xy_idx(x: u32, y: u32) -> (r: usize)
    requires
        x < PLAY_AREA_WIDTH,
        y < PLAY_AREA_HEIGHT,
    ensures
        r == y * PLAY_AREA_WIDTH + x,
        r < PLAY_AREA_WIDTH * PLAY_AREA_HEIGHT,
{
    proof {
        lemma_idx_in_range(PLAY_AREA_WIDTH as int, PLAY_AREA_HEIGHT as int, x as int, y as int);
    }
    (y as usize) * (PLAY_AREA_WIDTH as usize) + (x as usize)
}

} // verus!
