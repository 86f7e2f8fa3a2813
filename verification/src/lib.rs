//! A turn-stepped evolution playground: a procedurally carved tile grid,
//! creatures that move over it, a small effect interpreter that lets actions
//! repaint and transform tiles, and a generational loop that scores each
//! agent by how close it ended to the beacon and breeds the next population
//! by fitness-weighted selection.
//!
//! The neural policies that pick each agent's action are real-valued and live
//! outside this crate; the engine here takes the chosen action index and does
//! everything else: motion clamping, collision, effect propagation, trace
//! recording, fitness scoring and parent selection.

pub mod effect;
pub mod evolution;
pub mod map;
pub mod psychics;
pub mod rng;
pub mod simulation;
