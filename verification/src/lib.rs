//! Fiber bundle timing for concurrent agent scheduling.
//!
//! Concurrent agent scheduling is modelled as a fiber bundle (E, B, π, F):
//! the base space B is a timeline of execution slots, the fiber F the agent
//! state space of dimension `fiber_dim`, and a connection defines parallel
//! transport of agent state along the timeline.
//!
//! The structures here are generic over the scalar type `T` of time points
//! and fiber states; they store, validate and move scalars, and leave the
//! arithmetic on them (the transport kernel, drift magnitudes) to the caller.

pub mod bundle;
pub mod connection;
pub mod curvature;
pub mod drift;
pub mod error;
pub mod gauge_fix;
pub mod holonomy;
pub mod schedule;
pub mod section_lifter;

pub use bundle::{AgentClock, FiberBundle, TimingBundle};
pub use connection::{Connection, ConnectionForm, Transport};
pub use curvature::CurvatureForm;
pub use drift::DriftMonitor;
pub use error::FiberError;
pub use gauge_fix::{GaugeChoice, GaugeFixer};
pub use holonomy::{HolonomyGroup, HolonomyReport};
pub use schedule::{AgentSchedule, ScheduleBuilder};
pub use section_lifter::SectionLifter;
