//! Velvet noise: sparse trains of signed unit impulses, and the
//! integer state machines that consume them.
//!
//! Amplitudes are carried as `i8` signs (`1`, `-1`, and `0` for silence);
//! scaling by a real-valued gain is left to the caller.
//!
//! Every generator owns a random source, which a seed given at construction
//! fixes; where the seed comes from is the caller's matter.

pub mod error;
pub mod entropy;
pub mod locations;
pub mod chunked;
pub mod choice;
pub mod kernel;
pub mod noise;
pub mod delay;
pub mod taps;

pub use crate::error::{BoundaryError, ConfigError};
pub use crate::locations::OVNImpulseLocations;
pub use crate::chunked::ChunkedOVNImpulseLocations;
pub use crate::choice::Choice;
pub use crate::kernel::VelvetNoiseKernel;
pub use crate::noise::{CrushedOriginalVelvetNoise, VelvetNoise};
pub use crate::delay::DelayBuffer;
pub use crate::taps::{Tap, TapSet};
