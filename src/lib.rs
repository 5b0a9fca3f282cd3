//! A real-time audio graph engine: nodes joined into directed acyclic graphs,
//! processed one fixed-size block at a time, with a lock-free parameter
//! channel per node and automatic bridging of nodes whose native sample rate
//! differs from the output rate.
//!
//! This crate holds the engine's decisions: graph topology and processing
//! order, routing between graphs, block pacing, the resampler's read
//! position, and channel mapping. Sample processing itself is done by the
//! nodes, outside it.
pub mod node;
pub mod graph;
pub mod channel;
pub mod pacing;
pub mod resampler;
pub mod mixer;
pub mod klingt;

pub use graph::{AudioGraph, GraphError, NodeHandle};
pub use klingt::{Added, Bridge, EngineError, Handle, Klingt, SubGraph, SubGraphRun};
pub use mixer::{source_channel, Mixer};
pub use node::{NodeId, ProcessContext, BLOCK_SIZE};
pub use resampler::{ResampleCursor, ResamplePlan, ResamplingSourceMessage};
