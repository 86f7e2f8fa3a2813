//! The turn engine: the tick scenario at the beacon, effect firing on
//! the second pass, sensing, and creature spawning.

use beacon_evolution::effect::{Effect, AxiomKit};
use beacon_evolution::map::{Species, TileMap};
use beacon_evolution::psychics::{Hylic, Psychic};
use beacon_evolution::simulation::{enter_tile, Simulation, SimulationSettings};

fn world_with(beacon: (u32, u32), agent: (u32, u32), max_turns: usize) -> Simulation {
    let mut map = TileMap::new(45, 45, Vec::new());
    enter_tile(&mut map, beacon.0, beacon.1, Species::Beacon);
    enter_tile(&mut map, agent.0, agent.1, Species::Agent);
    let hylic = Hylic::new().with_position(beacon.0, beacon.1).with_species(Species::Beacon);
    let mut kits = Vec::new();
    kits.push(AxiomKit::Motion);
    let psychic = Psychic::new()
        .with_position(agent.0, agent.1)
        .with_effect_kits(kits)
        .with_species(Species::Agent);
    Simulation {
        map,
        hylics: vec![hylic],
        psychics: vec![psychic],
        settings: SimulationSettings {
            max_turn_number: max_turns,
            current_turn: 0,
            current_generation: 0,
        },
    }
}

#[test]
fn agent_blocked_by_the_beacon_stays_put() {
    // Turn budget one; the policy always moves toward positive x and y.
    let mut sim = world_with((22, 22), (21, 21), 1);
    sim.psychics[0].soul.action_choices = vec![Effect::Move { dx: 1, dy: 1 }];
    sim.hylic_phase();
    sim.agent_act(0, 0);
    sim.effect_phase();
    // (22, 22) is occupied by the beacon, so the motion is rejected.
    assert_eq!((sim.psychics[0].position.x, sim.psychics[0].position.y), (21, 21));
    assert_eq!(sim.settings.current_turn, 1);
}

#[test]
fn agent_moves_onto_an_empty_diagonal_tile() {
    // Same setup, but the beacon stands elsewhere: (22, 22) is free.
    let mut sim = world_with((30, 30), (21, 21), 1);
    sim.psychics[0].soul.action_choices = vec![Effect::Move { dx: 1, dy: 1 }];
    sim.hylic_phase();
    sim.agent_act(0, 0);
    sim.effect_phase();
    assert_eq!((sim.psychics[0].position.x, sim.psychics[0].position.y), (22, 22));
}

#[test]
fn second_pass_fires_the_pending_effect_on_the_creature() {
    let mut sim = world_with((30, 30), (21, 21), 1);
    sim.hylic_phase();
    // The agent stands still this turn.
    sim.agent_act(0, 4);
    // Paint the agent's own tile with a pending transform, as a
    // neighbour's area effect would.
    let idx = sim.map.xy_idx(21, 21);
    sim.map.effect_map[idx] = Effect::SpeciesTransform { new_species: Species::Painted };
    sim.effect_phase();
    assert_eq!(sim.psychics[0].species, Species::Painted);
    // The slot was consumed.
    assert_eq!(sim.map.effect_map[idx], Effect::Void);
    // The trace recorded the second-pass outcome.
    assert_eq!(sim.psychics[0].trace.positions, vec![(21, 21)]);
    assert_eq!(sim.psychics[0].trace.identity, vec![Species::Painted]);
}

#[test]
fn motion_log_collects_distinct_offsets_only() {
    let mut sim = world_with((30, 30), (21, 21), 10);
    sim.hylic_phase();
    sim.agent_act(0, 3);
    sim.agent_act(0, 3);
    sim.agent_act(0, 0);
    assert_eq!(sim.psychics[0].soul.actions_chosen, vec![(1, 0), (0, 1)]);
}

#[test]
fn sensing_reports_beacon_offset_and_occupancy() {
    let mut sim = world_with((22, 22), (21, 21), 1);
    sim.hylic_phase();
    let sense = sim.agent_sense(0);
    assert_eq!(sense.dx, 1);
    assert_eq!(sense.dy, 1);
    assert_eq!(sense.manhattan, 2);
    // Neighbours of (21, 21) in scan order: all empty here.
    assert_eq!(sense.adjacent_empty, vec![true, true, true, true]);
    assert_eq!(sim.find_beacon(), (22, 22));
}

#[test]
fn sensing_sees_occupied_neighbours() {
    let mut sim = world_with((21, 22), (21, 21), 1);
    sim.hylic_phase();
    let sense = sim.agent_sense(0);
    // The tile above holds the beacon.
    assert_eq!(sense.adjacent_empty, vec![false, true, true, true]);
    assert_eq!(sense.manhattan, 1);
}

#[test]
fn hylic_phase_leaves_a_standing_beacon_in_place() {
    let mut sim = world_with((22, 22), (21, 21), 1);
    sim.hylic_phase();
    assert_eq!((sim.hylics[0].position.x, sim.hylics[0].position.y), (22, 22));
    assert_eq!(sim.hylics[0].species, Species::Beacon);
    let idx = sim.map.xy_idx(22, 22);
    assert_eq!(sim.map.tiles[idx], Species::Beacon);
}

#[test]
fn spawning_puts_one_creature_on_each_creature_tile() {
    let mut map = TileMap::new(7, 7, Vec::new());
    enter_tile(&mut map, 2, 3, Species::Beacon);
    enter_tile(&mut map, 4, 5, Species::Agent);
    enter_tile(&mut map, 1, 1, Species::Agent);
    let sim = Simulation::new(map, 10);
    assert_eq!(sim.hylics.len(), 1);
    assert_eq!((sim.hylics[0].position.x, sim.hylics[0].position.y), (2, 3));
    assert_eq!(sim.hylics[0].trace.original_species, Species::Beacon);
    assert_eq!(sim.psychics.len(), 2);
    // Row-major spawning order: (1, 1) comes before (4, 5).
    assert_eq!((sim.psychics[0].position.x, sim.psychics[0].position.y), (1, 1));
    assert_eq!((sim.psychics[1].position.x, sim.psychics[1].position.y), (4, 5));
    assert_eq!(sim.psychics[0].soul.action_choices.len(), 5);
    assert_eq!(sim.settings.current_turn, 0);
}

#[test]
fn shipped_trace_is_exposed_for_playback() {
    let mut psychic = Psychic::new().with_position(3, 3);
    psychic.trace.shipped_positions = vec![(3, 3), (4, 3)];
    psychic.trace.shipped_identity = vec![Species::Agent, Species::Agent];
    let shipped = psychic.shipped_trace();
    assert_eq!(shipped.positions, vec![(3, 3), (4, 3)]);
    assert_eq!(shipped.identity, vec![Species::Agent, Species::Agent]);
}

#[test]
fn painting_reaches_the_wall_on_the_next_second_pass() {
    // An agent with the paint kit stands next to two walls: its paint
    // action writes pending transforms onto them, and the inert-tile
    // sweep of the following second pass turns them painted.
    let mut sim = world_with((40, 40), (10, 10), 2);
    enter_tile(&mut sim.map, 10, 11, Species::Wall);
    enter_tile(&mut sim.map, 9, 10, Species::Wall);
    sim.psychics[0].soul.action_choices = AxiomKit::PaintKit.unpack();
    sim.hylic_phase();
    // Index four of the paint kit is the adjacent-wall paint.
    sim.agent_act(0, 4);
    // The transforms are pending on the two wall tiles.
    let up = sim.map.xy_idx(10, 11);
    let left = sim.map.xy_idx(9, 10);
    assert_eq!(
        sim.map.effect_map[up],
        Effect::SpeciesTransform { new_species: Species::Painted }
    );
    assert_eq!(
        sim.map.effect_map[left],
        Effect::SpeciesTransform { new_species: Species::Painted }
    );
    sim.effect_phase();
    assert_eq!(sim.map.tiles[up], Species::Painted);
    assert_eq!(sim.map.tiles[left], Species::Painted);
    assert_eq!(sim.map.effect_map[up], Effect::Void);
    assert_eq!(sim.map.effect_map[left], Effect::Void);
}

#[test]
fn painted_tiles_keep_consuming_effects() {
    // A painted cell stays inert but alive: a later pending transform
    // at it still fires on the second pass.
    let mut sim = world_with((40, 40), (10, 10), 3);
    enter_tile(&mut sim.map, 20, 20, Species::Painted);
    let idx = sim.map.xy_idx(20, 20);
    sim.map.effect_map[idx] = Effect::SpeciesTransform { new_species: Species::Wall };
    sim.hylic_phase();
    sim.agent_act(0, 4);
    sim.effect_phase();
    assert_eq!(sim.map.tiles[idx], Species::Wall);
    assert_eq!(sim.map.effect_map[idx], Effect::Void);
}
