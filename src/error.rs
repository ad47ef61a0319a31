use vstd::prelude::*;

verus! {

/// Configuration errors, reported before any time step runs.
#[derive(Debug, Clone, Copy, PartialEq, Eq, Structural)]
pub enum ConfigError {
    /// The velocities, weights and weight denominator do not form a lattice model.
    InvalidVelocitySet,
    /// A grid extent is zero.
    ZeroExtent,
    /// The population array would not fit in memory addresses.
    GridTooLarge,
    /// A boundary condition with this label is already registered.
    DuplicateLabel,
    /// An inflow profile does not hold one population per direction.
    InvalidInflowProfile,
    /// The relaxation rate lies outside the open interval (0, 2).
    UnstableRelaxation,
    /// A node is matched both by an inflow condition and by another condition.
    OverlappingBoundary { node: usize },
}

} // verus!
