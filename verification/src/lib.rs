//! A deterministic virtual-time timer core.
//!
//! Virtual time is a simulation-controlled clock: it never tracks the wall
//! clock and is advanced explicitly by a driver. Timers register an absolute
//! deadline; when the driver advances the clock, every timer whose deadline
//! has been reached fires, in deadline order with ties broken by registration
//! order, so that a simulation run is exactly reproducible.

pub mod clock;
pub mod delay;
pub mod errors;
pub mod registry;
pub mod scheduler;
