//! Exact sampling of the two-dimensional ferromagnetic Ising model on a
//! periodic square lattice by coupling from the past.
//!
//! Two bounding chains, one started all-up and one all-down, consume the
//! same stream of single-site heat-bath draws.  The stream is extended
//! further into the past until both chains agree at time zero; the common
//! configuration is then an exact sample of the stationary distribution.

pub mod chain;
pub mod draw;
pub mod dynamics;
pub mod generator;
pub mod ising;
pub mod observable;
pub mod propp_wilson;
pub mod snapshot;
pub mod stream;
pub mod topology;
pub mod transition;
