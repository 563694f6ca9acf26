//! Minimum Steiner trees, Euclidean and rectilinear, over points in the plane.
//!
//! The search itself is done by an external engine that works on flat buffers.
//! This library prepares the engine's input and buffer sizes, checks what the
//! engine hands back and rebuilds a typed tree from it.

pub mod engine;
pub mod point;
pub mod topology;
pub mod tree;

pub use engine::{EngineOutput, EngineRequest, Metric, SteinerError};
pub use point::{Coord, FromSteiner, Positioned};
pub use tree::{EuclideanTree, Gst, SteinerTree};
