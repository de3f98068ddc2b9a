use vstd::prelude::*;

verus! {

/// Errors reported by the virtual-time timer core.
#[derive(Clone, Copy, Debug, PartialEq, Eq, Structural)]
pub enum TimerError {
    /// The driver tried to move virtual time backward: fatal to a
    /// simulation run, since it indicates a driver bug.
    InvalidAdvance,
    /// A reset referred to a timer id that is not pending in the registry.
    UnknownTimer,
    /// A reset was attempted on a delay that was already cancelled.
    AlreadyCancelled,
}

} // verus!
