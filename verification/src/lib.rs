//! A one-dimensional elastic-collision kernel over exact integer arithmetic.
//!
//! Bodies slide without friction along a track closed at one end by a fixed
//! wall. Time advances in fixed quanta; each quantum moves every body, lets
//! every overlapping pair exchange momentum elastically, reflects every body
//! that reached the wall, and counts each such event once.
//!
//! All quantities are integers in units the caller chooses: a position unit is
//! one velocity unit times one time unit. Post-collision velocities are
//! rounded toward zero, so kinetic energy never grows; the finer the velocity
//! unit, the less each collision loses.
//!
//! Overlap is tested at the end of each step only. A pair that passes through
//! each other within one step is never seen and never counted: the step
//! duration trades precision against the number of steps.
pub mod body;
pub mod conservation;
pub mod detection;
pub mod elastic;
pub mod energy;
pub mod laws;
pub mod model;
pub mod scheduler;
pub mod simulation;
pub mod world;

pub use body::{Body, WallSide};
pub use elastic::{elastic_velocities, ENERGY_LIMIT, SPEED_LIMIT};
pub use model::StepError;
pub use scheduler::FixedStepScheduler;
pub use simulation::Simulation;
pub use world::{ConstructionError, WorldState};
