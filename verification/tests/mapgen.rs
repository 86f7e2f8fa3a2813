//! Map generation: smoothing stability, placement, and the recoverable
//! exhaustion error.

use beacon_evolution::map::{
    build_map, place_species, smooth_pass, standard_population, MapError, Species, TileMap,
};
use rand::rngs::StdRng;
use rand::SeedableRng;

fn all_wall(width: u32, height: u32) -> Vec<Species> {
    let mut v = Vec::new();
    for _ in 0..width * height {
        v.push(Species::Wall);
    }
    v
}

#[test]
fn smoothing_an_all_wall_grid_keeps_every_wall() {
    let tiles = all_wall(45, 45);
    let out = smooth_pass(&tiles, 45, 45);
    assert_eq!(out.len(), tiles.len());
    assert!(out.iter().all(|s| *s == Species::Wall));
}

#[test]
fn smoothing_a_small_all_wall_grid_keeps_every_wall() {
    let tiles = all_wall(5, 7);
    let out = smooth_pass(&tiles, 5, 7);
    assert!(out.iter().all(|s| *s == Species::Wall));
}

#[test]
fn smoothing_fills_a_lone_open_cell() {
    // A single empty interior cell has eight wall neighbours, so the
    // rule turns it back into a wall.
    let mut tiles = all_wall(5, 5);
    tiles[2 * 5 + 2] = Species::Empty;
    let out = smooth_pass(&tiles, 5, 5);
    assert!(out.iter().all(|s| *s == Species::Wall));
}

#[test]
fn smoothing_keeps_an_open_room_open() {
    // A 3-by-3 open room: its centre has zero wall neighbours, so the
    // zero-neighbour clause of the rule turns the centre into a wall,
    // while the ring cells keep enough open neighbours to stay floor.
    let mut tiles = all_wall(7, 7);
    for y in 2..5u32 {
        for x in 2..5u32 {
            tiles[(y * 7 + x) as usize] = Species::Empty;
        }
    }
    let out = smooth_pass(&tiles, 7, 7);
    assert_eq!(out[(3 * 7 + 3) as usize], Species::Wall);
    assert_eq!(out[(2 * 7 + 3) as usize], Species::Empty);
}

#[test]
fn placement_assigns_each_recipe_entry_an_empty_tile() {
    let mut rng = StdRng::seed_from_u64(11);
    let mut map = TileMap::new(9, 9, Vec::new());
    let recipe = standard_population(4);
    let placed = place_species(&mut map.tiles, 9, 9, &recipe, &mut rng);
    let (catalogue, locations) = placed.expect("an empty grid has room for five creatures");
    assert_eq!(catalogue[0], Species::Wall);
    assert_eq!(catalogue.len(), locations.len());
    let beacon_at = catalogue.iter().position(|s| *s == Species::Beacon).unwrap();
    let agent_at = catalogue.iter().position(|s| *s == Species::Agent).unwrap();
    assert_eq!(locations[beacon_at].len(), 1);
    assert_eq!(locations[agent_at].len(), 4);
    for &(x, y) in locations[agent_at].iter() {
        assert_eq!(map.tiles[(y * 9 + x) as usize], Species::Agent);
    }
    let (bx, by) = locations[beacon_at][0];
    assert_eq!(map.tiles[(by * 9 + bx) as usize], Species::Beacon);
}

#[test]
fn placement_fails_before_touching_an_overfull_grid() {
    let mut rng = StdRng::seed_from_u64(3);
    let mut tiles = all_wall(5, 5);
    tiles[2 * 5 + 2] = Species::Empty;
    let snapshot = tiles.clone();
    let recipe = standard_population(4);
    let placed = place_species(&mut tiles, 5, 5, &recipe, &mut rng);
    assert_eq!(placed.unwrap_err(), MapError::PlacementExhausted);
    assert_eq!(tiles, snapshot);
}

#[test]
fn build_map_produces_a_walled_populated_cave() {
    let mut rng = StdRng::seed_from_u64(20);
    let recipe = standard_population(16);
    let map = build_map(45, 45, &recipe, 85, 15, &mut rng).expect("a 45-by-45 cave has room");
    assert_eq!(map.tiles.len(), 45 * 45);
    assert_eq!(map.effect_map.len(), 45 * 45);
    for x in 0..45u32 {
        assert_eq!(map.tiles[x as usize], Species::Wall);
        assert_eq!(map.tiles[(44 * 45 + x) as usize], Species::Wall);
        assert_eq!(map.tiles[(x * 45) as usize], Species::Wall);
        assert_eq!(map.tiles[(x * 45 + 44) as usize], Species::Wall);
    }
    let agents = map.tiles.iter().filter(|s| **s == Species::Agent).count();
    let beacons = map.tiles.iter().filter(|s| **s == Species::Beacon).count();
    assert_eq!(agents, 16);
    assert_eq!(beacons, 1);
}

#[test]
fn build_map_reports_exhaustion_on_a_tiny_grid() {
    let mut rng = StdRng::seed_from_u64(5);
    let recipe = standard_population(10);
    // A 3-by-3 grid has a single interior cell: eleven creatures can
    // never fit, whatever the rolls.
    let built = build_map(3, 3, &recipe, 85, 15, &mut rng);
    match built {
        Err(e) => assert_eq!(e, MapError::PlacementExhausted),
        Ok(_) => panic!("a 3-by-3 grid cannot hold eleven creatures"),
    }
}
