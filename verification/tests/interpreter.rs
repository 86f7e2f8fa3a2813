//! The effect interpreter: motion offsets, transforms, border clamping
//! and collision rejection.

use beacon_evolution::effect::{Effect, AxiomKit};
use beacon_evolution::map::{Species, TileMap};
use beacon_evolution::simulation::{
    clamp_axis, enter_tile, get_adjacent_coords, process_motion, process_x, process_y,
    target_is_empty,
};
use rand::rngs::StdRng;
use rand::{Rng, SeedableRng};

fn empty_map(width: u32, height: u32) -> TileMap {
    TileMap::new(width, height, Vec::new())
}

#[test]
fn motion_of_move_is_its_offset() {
    assert_eq!(Effect::Move { dx: 3, dy: -2 }.act_motion(), (3, -2));
    assert_eq!(Effect::Move { dx: 0, dy: 0 }.act_motion(), (0, 0));
    assert_eq!(Effect::Move { dx: -7, dy: 7 }.act_motion(), (-7, 7));
}

#[test]
fn motion_of_non_move_is_zero() {
    assert_eq!(Effect::Void.act_motion(), (0, 0));
    assert_eq!(
        Effect::PaintAdjacent { target_species: Species::Painted }.act_motion(),
        (0, 0)
    );
    assert_eq!(
        Effect::SpeciesTransform { new_species: Species::Wall }.act_motion(),
        (0, 0)
    );
}

#[test]
fn transform_changes_species_only_for_transform() {
    let t = Effect::SpeciesTransform { new_species: Species::Painted };
    assert_eq!(t.act_transform(Species::Agent), Species::Painted);
    assert_eq!(Effect::Void.act_transform(Species::Agent), Species::Agent);
    assert_eq!(
        Effect::Move { dx: 1, dy: 0 }.act_transform(Species::Beacon),
        Species::Beacon
    );
}

#[test]
fn clamp_keeps_coordinates_on_the_grid() {
    assert_eq!(process_x(-5), 0);
    assert_eq!(process_x(0), 0);
    assert_eq!(process_x(44), 44);
    assert_eq!(process_x(45), 44);
    assert_eq!(process_x(1000), 44);
    assert_eq!(process_y(-1), 0);
    assert_eq!(process_y(44), 44);
    assert_eq!(process_y(46), 44);
    assert_eq!(clamp_axis(-3, 10), 0);
    assert_eq!(clamp_axis(9, 10), 9);
    assert_eq!(clamp_axis(10, 10), 9);
}

#[test]
fn motion_never_leaves_the_grid() {
    let map = empty_map(45, 45);
    let offsets = [(0i32, 1i32), (1, 0), (-1, 0), (0, -1), (0, 0)];
    let starts = [(0u32, 0u32), (44, 44), (0, 44), (44, 0), (22, 22), (0, 13), (44, 7)];
    for &(sx, sy) in starts.iter() {
        for &(dx, dy) in offsets.iter() {
            let (nx, ny) = process_motion(sx, sy, Effect::Move { dx, dy }, &map);
            assert!(nx < 45 && ny < 45);
        }
    }
}

#[test]
fn motion_into_occupied_tile_is_rejected() {
    let blockers = [
        Species::Wall,
        Species::Agent,
        Species::Beacon,
        Species::Painted,
    ];
    for (i, &blocker) in blockers.iter().enumerate() {
        let mut map = empty_map(45, 45);
        let tx = 10 + i as u32;
        enter_tile(&mut map, tx, 20, blocker);
        let (nx, ny) = process_motion(tx - 1, 20, Effect::Move { dx: 1, dy: 0 }, &map);
        assert_eq!((nx, ny), (tx - 1, 20));
    }
}

#[test]
fn motion_into_empty_tile_succeeds() {
    let map = empty_map(45, 45);
    let (nx, ny) = process_motion(10, 20, Effect::Move { dx: 1, dy: 0 }, &map);
    assert_eq!((nx, ny), (11, 20));
    assert!(target_is_empty((11, 20), &map));
}

#[test]
fn adjacent_coords_are_clamped_in_scan_order() {
    assert_eq!(get_adjacent_coords((5, 5)), vec![(5, 6), (6, 5), (4, 5), (5, 4)]);
    // At the origin the out-of-range neighbours clamp onto the border.
    assert_eq!(get_adjacent_coords((0, 0)), vec![(0, 1), (1, 0), (0, 0), (0, 0)]);
    assert_eq!(
        get_adjacent_coords((44, 44)),
        vec![(44, 44), (44, 44), (43, 44), (44, 43)]
    );
}

#[test]
fn paint_adjacent_emits_transforms_for_wall_neighbours() {
    let mut map = empty_map(9, 9);
    enter_tile(&mut map, 4, 5, Species::Wall);
    enter_tile(&mut map, 3, 4, Species::Wall);
    let effects = Effect::PaintAdjacent { target_species: Species::Painted }
        .act_area_effects((4, 4), &map);
    assert_eq!(effects.len(), 2);
    assert_eq!(
        effects[0],
        (Effect::SpeciesTransform { new_species: Species::Painted }, (4, 5))
    );
    assert_eq!(
        effects[1],
        (Effect::SpeciesTransform { new_species: Species::Painted }, (3, 4))
    );
}

#[test]
fn non_paint_effects_emit_nothing() {
    let map = empty_map(9, 9);
    assert!(Effect::Void.act_area_effects((4, 4), &map).is_empty());
    assert!(Effect::Move { dx: 1, dy: 0 }
        .act_area_effects((4, 4), &map)
        .is_empty());
}

#[test]
fn kits_unpack_to_their_action_lists() {
    let motion = AxiomKit::Motion.unpack();
    assert_eq!(
        motion,
        vec![
            Effect::Move { dx: 0, dy: 1 },
            Effect::Move { dx: 0, dy: -1 },
            Effect::Move { dx: -1, dy: 0 },
            Effect::Move { dx: 1, dy: 0 },
            Effect::Move { dx: 0, dy: 0 },
        ]
    );
    let paint = AxiomKit::PaintKit.unpack();
    assert_eq!(paint.len(), 5);
    assert_eq!(
        paint[4],
        Effect::PaintAdjacent { target_species: Species::Painted }
    );
}

#[test]
fn collision_holds_over_randomized_occupancy() {
    let mut rng = StdRng::seed_from_u64(31);
    let mut map = empty_map(45, 45);
    // Scatter walls over roughly a third of the grid.
    for y in 0..45u32 {
        for x in 0..45u32 {
            if rng.gen_range(0..3) == 0 {
                enter_tile(&mut map, x, y, Species::Wall);
            }
        }
    }
    let offsets = [(0i32, 1i32), (1, 0), (-1, 0), (0, -1), (0, 0)];
    for _ in 0..500 {
        let sx = rng.gen_range(0..45u32);
        let sy = rng.gen_range(0..45u32);
        for &(dx, dy) in offsets.iter() {
            let tx = (sx as i64 + dx as i64).clamp(0, 44) as u32;
            let ty = (sy as i64 + dy as i64).clamp(0, 44) as u32;
            let occupied = !target_is_empty((tx, ty), &map);
            let (nx, ny) = process_motion(sx, sy, Effect::Move { dx, dy }, &map);
            assert!(nx < 45 && ny < 45);
            if occupied {
                assert_eq!((nx, ny), (sx, sy));
            } else {
                assert_eq!((nx, ny), (tx, ty));
            }
        }
    }
}
