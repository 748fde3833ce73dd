//! Hypervectors and the architectures that operate on them.

pub mod architectures;
pub mod model;
mod size;
mod vector;

pub use self::size::{Dynamic, Fixed, FixedSize, Size};
pub use self::vector::{Normalized, NotNormalized, Vector, VectorType};
