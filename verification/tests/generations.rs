//! The generational loop: fitness bands, parent selection, the
//! evolution step, and determinism under a fixed seed.

use beacon_evolution::effect::Effect;
use beacon_evolution::evolution::{
    compute_fitness, create_gene_pool, evolve_generation, select_parents, EvolveError,
};
use beacon_evolution::map::{build_map, standard_population, Species, TileMap};
use beacon_evolution::psychics::{Hylic, Psychic};
use beacon_evolution::simulation::{enter_tile, Simulation, SimulationSettings};
use rand::rngs::StdRng;
use rand::SeedableRng;

// Fitness is kept in tenths of a point, so a score of 100 points reads
// as 1000 here, and the 0.3-point floor as 3.

#[test]
fn fitness_band_one_tile_away() {
    // Started elsewhere, ended one tile from the beacon, off the border.
    let f = compute_fitness(21, 22, 22, 22, 0, false, 45, 45);
    assert_eq!(f, 1000);
}

#[test]
fn fitness_band_six_tiles_away() {
    // Six tiles away as three per axis: inside the five-tile band.
    let f = compute_fitness(19, 19, 22, 22, 0, false, 45, 45);
    assert_eq!(f, 500);
}

#[test]
fn fitness_band_eleven_tiles_away() {
    // Eleven tiles away as six plus five: inside the ten-tile band.
    let f = compute_fitness(16, 17, 22, 22, 0, false, 45, 45);
    assert_eq!(f, 100);
}

#[test]
fn fitness_band_far_away() {
    let f = compute_fitness(7, 7, 22, 22, 0, false, 45, 45);
    assert_eq!(f, 10);
}

#[test]
fn fitness_halved_on_the_border() {
    let f = compute_fitness(0, 21, 0, 22, 0, false, 45, 45);
    assert_eq!(f, 500);
    let far = compute_fitness(44, 44, 10, 10, 0, false, 45, 45);
    assert_eq!(far, 5);
}

#[test]
fn fitness_floored_when_never_moved() {
    // Never leaving the starting tile floors the score whatever the band.
    let f = compute_fitness(21, 22, 22, 22, 0, true, 45, 45);
    assert_eq!(f, 3);
}

#[test]
fn fitness_not_floored_after_a_round_trip() {
    // An agent that wandered and returned to its starting tile is not
    // floored: only never having left counts.
    let f = compute_fitness(21, 22, 22, 22, 0, false, 45, 45);
    assert_eq!(f, 1000);
}

#[test]
fn fitness_diversity_bonus() {
    let f = compute_fitness(21, 22, 22, 22, 3, false, 45, 45);
    assert_eq!(f, 11000);
    let two_only = compute_fitness(21, 22, 22, 22, 2, false, 45, 45);
    assert_eq!(two_only, 1000);
}

#[test]
fn gene_pool_reports_the_best_weight() {
    let (best, pool) = create_gene_pool(&vec![3, 1000, 500]);
    assert_eq!(best, 1000);
    assert!(pool.is_some());
}

#[test]
fn gene_pool_refuses_zero_weights() {
    let (best, pool) = create_gene_pool(&vec![0, 0, 0]);
    assert_eq!(best, 0);
    assert!(pool.is_none());
    let (_, empty_pool) = create_gene_pool(&Vec::new());
    assert!(empty_pool.is_none());
}

#[test]
fn selection_draws_only_positive_weights() {
    let mut rng = StdRng::seed_from_u64(9);
    let weights = vec![0, 7, 0, 3, 0];
    let parents = select_parents(&weights, 64, &mut rng);
    assert_eq!(parents.len(), 64);
    for &p in parents.iter() {
        assert!(p == 1 || p == 3);
    }
}

#[test]
fn selection_falls_back_to_uniform_on_all_zero_weights() {
    let mut rng = StdRng::seed_from_u64(9);
    let weights = vec![0, 0, 0];
    let parents = select_parents(&weights, 32, &mut rng);
    assert_eq!(parents.len(), 32);
    for &p in parents.iter() {
        assert!(p < 3);
    }
}

fn run_one_generation(seed: u64) -> (Vec<u64>, Vec<(u32, u32)>, Vec<usize>) {
    let mut rng = StdRng::seed_from_u64(seed);
    let recipe = standard_population(8);
    let map = build_map(45, 45, &recipe, 85, 15, &mut rng).expect("the cave has room");
    let mut sim = Simulation::new(map, 5);
    for _turn in 0..5 {
        sim.hylic_phase();
        for i in 0..sim.psychics.len() {
            // A fixed stand-in policy: everyone marches toward positive x.
            sim.agent_act(i, 3);
        }
        sim.effect_phase();
    }
    let parents = evolve_generation(&mut sim, &mut rng).expect("evolution succeeds");
    let fitnesses = sim.psychics.iter().map(|p| p.soul.fitness).collect();
    let positions = sim.psychics.iter().map(|p| (p.position.x, p.position.y)).collect();
    (fitnesses, positions, parents)
}

#[test]
fn identical_seeds_give_identical_generations() {
    let a = run_one_generation(1234);
    let b = run_one_generation(1234);
    assert_eq!(a.0, b.0);
    assert_eq!(a.1, b.1);
    assert_eq!(a.2, b.2);
}

#[test]
fn evolution_ships_traces_and_resets_the_clock() {
    let mut rng = StdRng::seed_from_u64(77);
    let recipe = standard_population(4);
    let map = build_map(45, 45, &recipe, 85, 15, &mut rng).expect("the cave has room");
    let mut sim = Simulation::new(map, 2);
    for _turn in 0..2 {
        sim.hylic_phase();
        for i in 0..sim.psychics.len() {
            sim.agent_act(i, 0);
        }
        sim.effect_phase();
    }
    let live: Vec<Vec<(u32, u32)>> = sim.psychics.iter().map(|p| p.trace.positions.clone()).collect();
    let parents = evolve_generation(&mut sim, &mut rng).expect("evolution succeeds");
    assert_eq!(parents.len(), 4);
    assert_eq!(sim.settings.current_turn, 0);
    assert_eq!(sim.settings.current_generation, 1);
    for (i, p) in sim.psychics.iter().enumerate() {
        assert_eq!(p.trace.shipped_positions, live[i]);
        assert_eq!(p.trace.positions, vec![(p.position.x, p.position.y)]);
        assert_eq!(p.position.starting_position, (p.position.x, p.position.y));
        assert_eq!(p.species, Species::Agent);
        assert!(p.soul.fitness >= 3);
        assert!(p.soul.actions_chosen.is_empty());
    }
    assert_eq!(sim.hylics.len(), 1);
    assert_eq!(sim.hylics[0].species, Species::Beacon);
}

#[test]
fn evolution_reports_a_dry_catalogue() {
    let mut rng = StdRng::seed_from_u64(5);
    // The world holds five agents, but the recipe only reserves one
    // agent coordinate per rebuild.
    let recipe = standard_population(5);
    let map = build_map(45, 45, &recipe, 85, 15, &mut rng).expect("the cave has room");
    let mut sim = Simulation::new(map, 0);
    sim.map.population = standard_population(1);
    let turn_before = sim.settings.current_turn;
    let err = evolve_generation(&mut sim, &mut rng).unwrap_err();
    assert_eq!(err, EvolveError::CatalogueExhausted);
    assert_eq!(sim.settings.current_turn, turn_before);
    assert_eq!(sim.psychics.len(), 5);
}

#[test]
fn evolution_reports_an_impossible_map() {
    let mut rng = StdRng::seed_from_u64(8);
    // Ten creatures can never fit a 3-by-3 grid, so every rebuild fails
    // and the world is left untouched.
    let map = TileMap::new(3, 3, standard_population(9));
    let mut sim = Simulation::new(map, 0);
    let err = evolve_generation(&mut sim, &mut rng).unwrap_err();
    assert_eq!(err, EvolveError::MapExhausted);
    assert_eq!(sim.settings.current_generation, 0);
}

#[test]
fn evolution_floor_tracks_the_whole_history() {
    let mut rng = StdRng::seed_from_u64(21);
    let mut map = TileMap::new(45, 45, standard_population(2));
    enter_tile(&mut map, 40, 40, Species::Beacon);
    enter_tile(&mut map, 10, 10, Species::Agent);
    enter_tile(&mut map, 10, 30, Species::Agent);
    let mut beacon = Hylic::new().with_position(40, 40).with_species(Species::Beacon);
    beacon.trace.original_species = Species::Beacon;
    let mut wanderer = Psychic::new().with_position(10, 10).with_species(Species::Agent);
    wanderer.trace.original_species = Species::Agent;
    wanderer.soul.action_choices =
        vec![Effect::Move { dx: 1, dy: 0 }, Effect::Move { dx: -1, dy: 0 }];
    let mut sitter = Psychic::new().with_position(10, 30).with_species(Species::Agent);
    sitter.trace.original_species = Species::Agent;
    sitter.soul.action_choices = vec![Effect::Move { dx: 0, dy: 0 }];
    let mut sim = Simulation {
        map,
        hylics: vec![beacon],
        psychics: vec![wanderer, sitter],
        settings: SimulationSettings { max_turn_number: 2, current_turn: 0, current_generation: 0 },
    };
    // Turn one: the wanderer steps right, the sitter stands still.
    sim.hylic_phase();
    sim.agent_act(0, 0);
    sim.agent_act(1, 0);
    sim.effect_phase();
    // Turn two: the wanderer steps back onto its starting tile.
    sim.hylic_phase();
    sim.agent_act(0, 1);
    sim.agent_act(1, 0);
    sim.effect_phase();
    assert_eq!((sim.psychics[0].position.x, sim.psychics[0].position.y), (10, 10));
    evolve_generation(&mut sim, &mut rng).expect("evolution succeeds");
    // The wanderer left and returned: no floor. The sitter never left: floored.
    assert_ne!(sim.psychics[0].soul.fitness, 3);
    assert_eq!(sim.psychics[1].soul.fitness, 3);
}
