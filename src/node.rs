//! Identifiers and per-block context shared by every part of the engine.
use vstd::prelude::*;

verus! {

/// Number of frames in one processing block.
pub const BLOCK_SIZE: usize = 64;

/// Information available to a node while it processes one block.
#[derive(Clone, Copy, Debug)]
pub struct ProcessContext {
    /// Sample rate of the graph in Hz.
    pub sample_rate: u32,
    /// Number of frames per block.
    pub buffer_size: usize,
}

impl ProcessContext {
    /// The context of a graph running at `sample_rate`, with the standard block size.
    pub fn new(sample_rate: u32) -> (r: ProcessContext)
        ensures
            r.sample_rate == sample_rate,
            r.buffer_size == BLOCK_SIZE,
    {
        ProcessContext { sample_rate, buffer_size: BLOCK_SIZE }
    }
}

/// Identifier of a node within one graph: its slot, allocated densely from zero.
#[derive(Clone, Copy, PartialEq, Eq, Hash, Debug, Structural)]
pub struct NodeId(pub u32);

impl NodeId {
    /// The slot number of this node within its graph.
    pub fn index(&self) -> (r: u32)
        ensures
            r == self.0,
    {
        self.0
    }
}

} // verus!
