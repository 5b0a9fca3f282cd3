//! The engine: one primary graph at the output rate, and one sub-graph for
//! each other rate at which a node was added. A sub-graph ends in a sink
//! node that writes into a ring buffer; a resampling source node in the
//! primary graph reads that buffer at the output rate.
use vstd::prelude::*;

use crate::channel::push;
use crate::graph::{acyclic, AudioGraph, GraphError};
use crate::node::NodeId;
use crate::pacing::{
    blocks_needed, bridge_capacity, bridge_capacity_spec, min_nat, sub_blocks_needed,
    MAX_BRIDGE_CHANNELS,
};
use crate::resampler::ResamplingSourceMessage;

verus! {

/// Why the engine refused an operation.
#[derive(Clone, Copy, Debug, PartialEq, Eq, Structural)]
pub enum EngineError {
    /// A handle does not name a node of this engine.
    UnknownNode,
    /// The connection would close a directed cycle.
    Cycle,
    /// A graph already holds as many nodes as node ids can number.
    Full,
    /// A connection from the primary graph into a sub-graph, or between two
    /// different sub-graphs.
    Unsupported,
    /// No output sink is configured.
    NoOutput,
}

/// The engine error for a graph error.
pub open spec fn engine_error(e: GraphError) -> EngineError {
    match e {
        GraphError::UnknownNode => EngineError::UnknownNode,
        GraphError::Cycle => EngineError::Cycle,
        GraphError::Full => EngineError::Full,
    }
}

fn to_engine_error(e: GraphError) -> (r: EngineError)
    ensures
        r == engine_error(e),
{
    match e {
        GraphError::UnknownNode => EngineError::UnknownNode,
        GraphError::Cycle => EngineError::Cycle,
        GraphError::Full => EngineError::Full,
    }
}

/// `g2` has the same nodes, edges, terminal and rate as `g1`.
pub open spec fn same_graph(g1: AudioGraph, g2: AudioGraph) -> bool {
    &&& g2.spec_node_count() == g1.spec_node_count()
    &&& g2.spec_edges() == g1.spec_edges()
    &&& g2.spec_terminal() == g1.spec_terminal()
    &&& g2.spec_sample_rate() == g1.spec_sample_rate()
}

/// `g2` is `g1` with one more node and no new edge.
pub open spec fn with_node(g1: AudioGraph, g2: AudioGraph) -> bool {
    &&& g2.spec_node_count() == g1.spec_node_count() + 1
    &&& g2.spec_edges() == g1.spec_edges()
    &&& g2.spec_terminal() == g1.spec_terminal()
    &&& g2.spec_sample_rate() == g1.spec_sample_rate()
}

/// `g2` is `g1` with the edge `(a, b)` added.
pub open spec fn with_edge(g1: AudioGraph, g2: AudioGraph, a: u32, b: u32) -> bool {
    &&& g2.spec_node_count() == g1.spec_node_count()
    &&& g2.spec_edges() == g1.spec_edges().push((a, b))
    &&& g2.spec_terminal() == g1.spec_terminal()
    &&& g2.spec_sample_rate() == g1.spec_sample_rate()
}

/// Graph `g` accepts the edge `(a, b)`: both nodes exist and no cycle closes.
pub open spec fn accepts(g: AudioGraph, a: u32, b: u32) -> bool {
    a < g.spec_node_count() && b < g.spec_node_count() && acyclic(
        g.spec_node_count(),
        g.spec_edges().push((a, b)),
    )
}

/// A sub-graph running at a rate other than the output rate, with its bridge.
pub struct SubGraph {
    graph: AudioGraph,
    sample_rate: u32,
    /// The sink node in the sub-graph that writes into the ring buffer.
    sink_node: NodeId,
    /// The resampling source node in the primary graph that reads it.
    resampler_node: NodeId,
    /// Interleaved channels carried by the bridge.
    channels: usize,
    /// Blocks the sub-graph has computed.
    blocks_processed: u64,
}

impl SubGraph {
    pub closed spec fn spec_graph(&self) -> AudioGraph {
        self.graph
    }

    pub closed spec fn spec_rate(&self) -> u32 {
        self.sample_rate
    }

    pub closed spec fn spec_sink(&self) -> NodeId {
        self.sink_node
    }

    pub closed spec fn spec_resampler(&self) -> NodeId {
        self.resampler_node
    }

    pub closed spec fn spec_channels(&self) -> usize {
        self.channels
    }

    pub closed spec fn spec_blocks(&self) -> u64 {
        self.blocks_processed
    }

    /// The sub-graph's topology.
    pub fn graph(&self) -> (r: &AudioGraph)
        ensures
            *r == self.spec_graph(),
    {
        &self.graph
    }

    /// The sink node of the sub-graph.
    pub fn sink_node(&self) -> (r: NodeId)
        ensures
            r == self.spec_sink(),
    {
        self.sink_node
    }

    /// The resampling source node in the primary graph.
    pub fn resampler_node(&self) -> (r: NodeId)
        ensures
            r == self.spec_resampler(),
    {
        self.resampler_node
    }

    /// Blocks the sub-graph has computed.
    pub fn blocks_processed(&self) -> (r: u64)
        ensures
            r == self.spec_blocks(),
    {
        self.blocks_processed
    }
}

/// The sub-graphs of an engine, keyed by sample rate.
#[verifier::external_body]
pub struct SubGraphTable {
    map: hashbrown::HashMap<u32, SubGraph>,
}

/// No sub-graph at any rate.
pub open spec fn no_sub_graphs() -> Map<u32, SubGraph> {
    Map::empty()
}

/// The sub-graphs a table holds, by sample rate.
pub uninterp spec fn table_entries(t: SubGraphTable) -> Map<u32, SubGraph>;

impl SubGraphTable {
    /// Relies on hashbrown::HashMap::new: a new map is empty.
    #[verifier::external_body]
    fn new() -> (table: SubGraphTable)
        ensures
            table_entries(table) == no_sub_graphs(),
    {
        SubGraphTable { map: hashbrown::HashMap::new() }
    }

    /// Relies on hashbrown::HashMap::contains_key: whether the key is present.
    #[verifier::external_body]
    fn contains(&self, rate: u32) -> (r: bool)
        ensures
            r == table_entries(*self).dom().contains(rate),
    {
        self.map.contains_key(&rate)
    }

    /// Relies on hashbrown::HashMap::get: the value stored under the key, if any.
    #[verifier::external_body]
    fn get(&self, rate: u32) -> (r: Option<&SubGraph>)
        ensures
            r matches Some(e) ==> table_entries(*self).dom().contains(rate) && *e == table_entries(
                *self,
            )[rate],
            r is None ==> !table_entries(*self).dom().contains(rate),
    {
        self.map.get(&rate)
    }

    /// Relies on hashbrown::HashMap::remove: takes out and returns the value
    /// stored under the key, if any.
    #[verifier::external_body]
    fn take(&mut self, rate: u32) -> (r: Option<SubGraph>)
        ensures
            table_entries(*old(self)).dom().contains(rate) ==> r == Some(
                table_entries(*old(self))[rate],
            ),
            !table_entries(*old(self)).dom().contains(rate) ==> r is None,
            table_entries(*final(self)) == table_entries(*old(self)).remove(rate),
    {
        self.map.remove(&rate)
    }

    /// Relies on hashbrown::HashMap::insert: stores the value under the key,
    /// replacing any value stored there.
    #[verifier::external_body]
    fn put(&mut self, rate: u32, entry: SubGraph)
        ensures
            table_entries(*final(self)) == table_entries(*old(self)).insert(rate, entry),
    {
        self.map.insert(rate, entry);
    }

    /// Relies on hashbrown::HashMap::keys: every key once, in no particular order.
    #[verifier::external_body]
    fn rates(&self) -> (r: Vec<u32>)
        ensures
            r@.no_duplicates(),
            forall|k: u32| #[trigger] r@.contains(k) <==> table_entries(*self).dom().contains(k),
    {
        self.map.keys().copied().collect()
    }
}

/// A handle to a node of the engine: where the node lives, and the producing
/// end of its parameter channel.
#[verifier::reject_recursive_types(M)]
pub struct Handle<M> {
    node_id: NodeId,
    /// `None` for the primary graph, else the rate of the node's sub-graph.
    graph: Option<u32>,
    sender: rtrb::Producer<M>,
}

impl<M> Handle<M> {
    pub closed spec fn spec_id(&self) -> NodeId {
        self.node_id
    }

    pub closed spec fn spec_graph(&self) -> Option<u32> {
        self.graph
    }

    /// Queues a message for the node, to be applied at the start of its next
    /// block. Never blocks: when the queue is full the message is handed back.
    pub fn send(&mut self, msg: M) -> (r: Result<(), M>)
        ensures
            r matches Err(m) ==> m == msg,
            final(self).spec_id() == old(self).spec_id(),
            final(self).spec_graph() == old(self).spec_graph(),
    {
        push(&mut self.sender, msg)
    }

    /// The node's id within its graph.
    pub fn id(&self) -> (r: NodeId)
        ensures
            r == self.spec_id(),
    {
        self.node_id
    }

    /// `None` when the node is in the primary graph, else the rate of its sub-graph.
    pub fn graph(&self) -> (r: Option<u32>)
        ensures
            r == self.spec_graph(),
    {
        self.graph
    }
}

/// The bridge of a sub-graph created by `Klingt::add`: the caller provides a
/// sink node writing into a ring buffer of `capacity` samples, at
/// `sink_node` of the sub-graph, and a resampling source reading it, at
/// `resampler_node` of the primary graph.
pub struct Bridge {
    pub rate: u32,
    pub channels: usize,
    pub capacity: u64,
    pub sink_node: NodeId,
    pub resampler_node: NodeId,
    /// The receiving end of the resampling source's parameter channel.
    pub resampler_messages: rtrb::Consumer<ResamplingSourceMessage>,
}

/// What `Klingt::add` hands back: the node's handle, the receiving end of its
/// parameter channel, and the bridge when a new sub-graph was created.
#[verifier::reject_recursive_types(M)]
pub struct Added<M> {
    pub handle: Handle<M>,
    pub messages: rtrb::Consumer<M>,
    pub bridge: Option<Bridge>,
}

/// The sub-graph a node belongs in: `None` for the primary graph, else the
/// node's own rate, when it has one that differs from the output rate.
pub open spec fn placement(native_rate: Option<u32>, main_rate: u32) -> Option<u32> {
    match native_rate {
        Some(rate) => if rate != main_rate {
            Some(rate)
        } else {
            None
        },
        None => None,
    }
}

/// Channels carried by a new bridge: the node's outputs or the engine's
/// channel count, whichever is larger, kept within `1..=MAX_BRIDGE_CHANNELS`.
pub open spec fn bridge_channels_spec(num_outputs: nat, channels: nat) -> nat {
    let c = if num_outputs >= channels {
        num_outputs
    } else {
        channels
    };
    if c < 1 {
        1
    } else if c > MAX_BRIDGE_CHANNELS {
        MAX_BRIDGE_CHANNELS as nat
    } else {
        c
    }
}

fn bridge_channels(num_outputs: usize, channels: usize) -> (r: usize)
    ensures
        r == bridge_channels_spec(num_outputs as nat, channels as nat),
{
    let c = if num_outputs >= channels {
        num_outputs
    } else {
        channels
    };
    if c < 1 {
        1
    } else if c > MAX_BRIDGE_CHANNELS {
        MAX_BRIDGE_CHANNELS
    } else {
        c
    }
}

/// Sub-graph `e`, stored under `rate`, is consistent with an engine whose
/// primary graph runs at `main_rate` and has `main_n` nodes.
pub open spec fn sub_ok(e: SubGraph, rate: u32, main_rate: u32, main_n: nat) -> bool {
    &&& e.spec_graph().wf()
    &&& e.spec_graph().spec_sample_rate() == rate
    &&& e.spec_rate() == rate
    &&& rate != main_rate
    &&& e.spec_sink().0 < e.spec_graph().spec_node_count()
    &&& e.spec_graph().spec_terminal() == Some(e.spec_sink())
    &&& e.spec_resampler().0 < main_n
    &&& 1 <= e.spec_channels() <= MAX_BRIDGE_CHANNELS
}

/// Nothing but the graph changed in the sub-graph entry.
pub open spec fn same_bridge(e1: SubGraph, e2: SubGraph) -> bool {
    &&& e2.spec_rate() == e1.spec_rate()
    &&& e2.spec_sink() == e1.spec_sink()
    &&& e2.spec_resampler() == e1.spec_resampler()
    &&& e2.spec_channels() == e1.spec_channels()
    &&& e2.spec_blocks() == e1.spec_blocks()
}

/// The engine's graphs are as they were.
pub open spec fn unchanged(k1: Klingt, k2: Klingt) -> bool {
    same_graph(k1.spec_main(), k2.spec_main()) && k2.spec_subs() == k1.spec_subs()
}

/// The outcome of adding the edge `(a, b)` to the primary graph.
pub open spec fn main_connected(k1: Klingt, k2: Klingt, a: u32, b: u32, r: Result<(), EngineError>) -> bool {
    let g = k1.spec_main();
    &&& k2.spec_subs() == k1.spec_subs()
    &&& !(a < g.spec_node_count() && b < g.spec_node_count()) ==> r == Err::<(), EngineError>(
        EngineError::UnknownNode,
    ) && same_graph(g, k2.spec_main())
    &&& a < g.spec_node_count() && b < g.spec_node_count() && !acyclic(
        g.spec_node_count(),
        g.spec_edges().push((a, b)),
    ) ==> r == Err::<(), EngineError>(EngineError::Cycle) && same_graph(g, k2.spec_main())
    &&& accepts(g, a, b) ==> r is Ok && with_edge(g, k2.spec_main(), a, b)
}

/// The outcome of adding the edge `(a, b)` inside the sub-graph at `rate`.
pub open spec fn sub_connected(
    k1: Klingt,
    k2: Klingt,
    rate: u32,
    a: u32,
    b: u32,
    r: Result<(), EngineError>,
) -> bool {
    let subs = k1.spec_subs();
    &&& same_graph(k1.spec_main(), k2.spec_main())
    &&& !subs.dom().contains(rate) ==> r == Err::<(), EngineError>(EngineError::UnknownNode)
        && k2.spec_subs() == subs
    &&& subs.dom().contains(rate) ==> {
        let g = subs[rate].spec_graph();
        &&& !(a < g.spec_node_count() && b < g.spec_node_count()) ==> r == Err::<(), EngineError>(
            EngineError::UnknownNode,
        ) && k2.spec_subs() == subs
        &&& a < g.spec_node_count() && b < g.spec_node_count() && !acyclic(
            g.spec_node_count(),
            g.spec_edges().push((a, b)),
        ) ==> r == Err::<(), EngineError>(EngineError::Cycle) && k2.spec_subs() == subs
        &&& accepts(g, a, b) ==> r is Ok && k2.spec_subs() == subs.insert(rate, k2.spec_subs()[rate])
            && with_edge(g, k2.spec_subs()[rate].spec_graph(), a, b) && same_bridge(
            subs[rate],
            k2.spec_subs()[rate],
        )
    }
}

/// The outcome of connecting node `a` of the sub-graph at `rate` to node `b`
/// of the primary graph: `a` feeds the sub-graph's sink, and the bridge's
/// resampling source feeds `b`.
pub open spec fn bridged(
    k1: Klingt,
    k2: Klingt,
    rate: u32,
    a: u32,
    b: u32,
    r: Result<(), EngineError>,
) -> bool {
    let subs = k1.spec_subs();
    let main = k1.spec_main();
    &&& !subs.dom().contains(rate) ==> r == Err::<(), EngineError>(EngineError::UnknownNode)
        && unchanged(k1, k2)
    &&& subs.dom().contains(rate) ==> {
        let e = subs[rate];
        let g = e.spec_graph();
        let sink = e.spec_sink().0;
        let res = e.spec_resampler().0;
        &&& !(a < g.spec_node_count() && b < main.spec_node_count()) ==> r == Err::<
            (),
            EngineError,
        >(EngineError::UnknownNode) && unchanged(k1, k2)
        &&& a < g.spec_node_count() && b < main.spec_node_count() && !(acyclic(
            g.spec_node_count(),
            g.spec_edges().push((a, sink)),
        ) && acyclic(main.spec_node_count(), main.spec_edges().push((res, b))))
            ==> r == Err::<(), EngineError>(EngineError::Cycle) && unchanged(k1, k2)
        &&& accepts(g, a, sink) && accepts(main, res, b) ==> r is Ok && k2.spec_subs()
            == subs.insert(rate, k2.spec_subs()[rate]) && with_edge(
            g,
            k2.spec_subs()[rate].spec_graph(),
            a,
            sink,
        ) && same_bridge(e, k2.spec_subs()[rate]) && with_edge(main, k2.spec_main(), res, b)
    }
}

/// The larger of two numbers.
pub open spec fn max_nat(a: nat, b: nat) -> nat {
    if a >= b {
        a
    } else {
        b
    }
}

/// Sub-graph `e2` is `e1` brought up to the blocks needed before the primary
/// graph, at `main_rate`, computes its block number `main_blocks`.
pub open spec fn paced(e1: SubGraph, e2: SubGraph, main_blocks: nat, main_rate: nat) -> bool {
    &&& same_graph(e1.spec_graph(), e2.spec_graph())
    &&& e2.spec_rate() == e1.spec_rate()
    &&& e2.spec_sink() == e1.spec_sink()
    &&& e2.spec_resampler() == e1.spec_resampler()
    &&& e2.spec_channels() == e1.spec_channels()
    &&& e2.spec_blocks() == max_nat(
        e1.spec_blocks() as nat,
        min_nat(
            blocks_needed(main_blocks, e1.spec_rate() as nat, main_rate),
            u64::MAX as nat,
        ),
    )
}

/// A sub-graph's share of one engine block: the blocks it computes before
/// the primary graph computes its block.
#[derive(Clone, Copy, Debug, PartialEq, Eq, Structural)]
pub struct SubGraphRun {
    pub rate: u32,
    pub blocks: u64,
}

/// The audio engine.
pub struct Klingt {
    main_graph: AudioGraph,
    sample_rate: u32,
    channels: usize,
    sub_graphs: SubGraphTable,
    sink_node: Option<NodeId>,
    main_blocks_processed: u64,
}

impl Klingt {
    pub closed spec fn spec_main(&self) -> AudioGraph {
        self.main_graph
    }

    pub closed spec fn spec_subs(&self) -> Map<u32, SubGraph> {
        table_entries(self.sub_graphs)
    }

    pub closed spec fn spec_rate(&self) -> u32 {
        self.sample_rate
    }

    pub closed spec fn spec_channels(&self) -> usize {
        self.channels
    }

    pub closed spec fn spec_output(&self) -> Option<NodeId> {
        self.sink_node
    }

    pub closed spec fn spec_main_blocks(&self) -> u64 {
        self.main_blocks_processed
    }

    /// The engine is consistent: its graphs are, the output sink is the
    /// primary graph's terminal, and each sub-graph is stored under its rate.
    pub closed spec fn wf(&self) -> bool {
        &&& self.main_graph.wf()
        &&& self.sample_rate > 0
        &&& self.main_graph.spec_sample_rate() == self.sample_rate
        &&& (self.sink_node matches Some(s) ==> s.0 < self.main_graph.spec_node_count()
            && self.main_graph.spec_terminal() == Some(s))
        &&& forall|rate: u32| #[trigger]
            table_entries(self.sub_graphs).dom().contains(rate) ==> sub_ok(
                table_entries(self.sub_graphs)[rate],
                rate,
                self.sample_rate,
                self.main_graph.spec_node_count(),
            )
    }

    /// An engine producing audio at `sample_rate`, with two channels, no
    /// output sink and no nodes.
    pub fn new(sample_rate: u32) -> (r: Klingt)
        requires
            sample_rate > 0,
        ensures
            r.wf(),
            r.spec_rate() == sample_rate,
            r.spec_channels() == 2,
            r.spec_output() is None,
            r.spec_subs() == no_sub_graphs(),
            r.spec_main().spec_node_count() == 0,
            r.spec_main().spec_edges().len() == 0,
            r.spec_main_blocks() == 0,
    {
        Klingt {
            main_graph: AudioGraph::new(sample_rate),
            sample_rate,
            channels: 2,
            sub_graphs: SubGraphTable::new(),
            sink_node: None,
            main_blocks_processed: 0,
        }
    }

    /// The output sample rate in Hz.
    pub fn sample_rate(&self) -> (r: u32)
        ensures
            r == self.spec_rate(),
    {
        self.sample_rate
    }

    /// Sets the number of output channels, which new bridges carry at least.
    pub fn with_channels(self, channels: usize) -> (r: Klingt)
        requires
            self.wf(),
        ensures
            r.wf(),
            r.spec_channels() == channels,
            r.spec_rate() == self.spec_rate(),
            r.spec_output() == self.spec_output(),
            r.spec_subs() == self.spec_subs(),
            r.spec_main() == self.spec_main(),
            r.spec_main_blocks() == self.spec_main_blocks(),
    {
        let mut k = self;
        k.channels = channels;
        k
    }

    /// Adds an output sink node to the primary graph and makes it the node
    /// whose output each block computes. Left as it was when the primary
    /// graph is full.
    pub fn with_output(self) -> (r: Klingt)
        requires
            self.wf(),
        ensures
            r.wf(),
            r.spec_channels() == self.spec_channels(),
            r.spec_rate() == self.spec_rate(),
            r.spec_subs() == self.spec_subs(),
            r.spec_main_blocks() == self.spec_main_blocks(),
            r.spec_main().spec_edges() == self.spec_main().spec_edges(),
            self.spec_main().spec_node_count() < u32::MAX ==> r.spec_output() == Some(
                NodeId(self.spec_main().spec_node_count() as u32),
            ) && r.spec_main().spec_node_count() == self.spec_main().spec_node_count() + 1,
            self.spec_main().spec_node_count() == u32::MAX ==> r.spec_output() == self.spec_output()
                && r.spec_main().spec_node_count() == self.spec_main().spec_node_count(),
    {
        let mut k = self;
        let ghost old_n = k.main_graph.spec_node_count();
        match k.main_graph.add::<()>() {
            Ok((h, _messages)) => {
                let id = h.id();
                let _ = k.main_graph.set_terminal(id);
                k.sink_node = Some(id);
                assert forall|rate: u32| #[trigger]
                    table_entries(k.sub_graphs).dom().contains(rate) implies sub_ok(
                    table_entries(k.sub_graphs)[rate],
                    rate,
                    k.sample_rate,
                    k.main_graph.spec_node_count(),
                ) by {
                    assert(sub_ok(table_entries(k.sub_graphs)[rate], rate, k.sample_rate, old_n));
                }
                k
            },
            Err(_) => {
                assert(k.main_graph.spec_node_count() == old_n);
                k
            },
        }
    }

    /// The output sink node, once one is configured.
    pub fn output_node(&self) -> (r: Option<NodeId>)
        ensures
            r == self.spec_output(),
    {
        self.sink_node
    }

    /// The primary graph.
    pub fn main_graph(&self) -> (r: &AudioGraph)
        ensures
            *r == self.spec_main(),
    {
        &self.main_graph
    }

    /// The sub-graph running at `rate`, if there is one.
    pub fn sub_graph(&self, rate: u32) -> (r: Option<&SubGraph>)
        ensures
            r matches Some(e) ==> self.spec_subs().dom().contains(rate) && *e == self.spec_subs()[rate],
            r is None ==> !self.spec_subs().dom().contains(rate),
    {
        self.sub_graphs.get(rate)
    }

    /// Adds a node that has `num_outputs` output channels and, optionally, a
    /// native sample rate. A node without one, or with the output rate, goes
    /// into the primary graph. Any other node goes into the sub-graph at its
    /// rate, which is created, with its bridge, on the first such node.
    pub fn add<M>(&mut self, native_rate: Option<u32>, num_outputs: usize) -> (r: Result<
        Added<M>,
        EngineError,
    >)
        requires
            old(self).wf(),
        ensures
            final(self).wf(),
            final(self).spec_rate() == old(self).spec_rate(),
            final(self).spec_channels() == old(self).spec_channels(),
            final(self).spec_output() == old(self).spec_output(),
            final(self).spec_main_blocks() == old(self).spec_main_blocks(),
            ({
                let main = old(self).spec_main();
                let subs = old(self).spec_subs();
                match placement(native_rate, old(self).spec_rate()) {
                    None => {
                        &&& main.spec_node_count() < u32::MAX ==> r is Ok
                        &&& r matches Ok(a) ==> {
                            &&& a.handle.spec_graph() is None
                            &&& a.handle.spec_id() == NodeId(main.spec_node_count() as u32)
                            &&& a.bridge is None
                            &&& with_node(main, final(self).spec_main())
                            &&& final(self).spec_subs() == subs
                        }
                        &&& r is Err ==> r == Err::<Added<M>, EngineError>(EngineError::Full)
                            && same_graph(main, final(self).spec_main()) && final(self).spec_subs()
                            == subs
                    },
                    Some(rate) => if subs.dom().contains(rate) {
                        let g = subs[rate].spec_graph();
                        &&& g.spec_node_count() < u32::MAX ==> r is Ok
                        &&& r matches Ok(a) ==> {
                            &&& a.handle.spec_graph() == Some(rate)
                            &&& a.handle.spec_id() == NodeId(g.spec_node_count() as u32)
                            &&& a.bridge is None
                            &&& same_graph(main, final(self).spec_main())
                            &&& final(self).spec_subs() == subs.insert(
                                rate,
                                final(self).spec_subs()[rate],
                            )
                            &&& with_node(g, final(self).spec_subs()[rate].spec_graph())
                            &&& final(self).spec_subs()[rate].spec_sink() == subs[rate].spec_sink()
                            &&& final(self).spec_subs()[rate].spec_resampler()
                                == subs[rate].spec_resampler()
                            &&& final(self).spec_subs()[rate].spec_channels()
                                == subs[rate].spec_channels()
                            &&& final(self).spec_subs()[rate].spec_blocks()
                                == subs[rate].spec_blocks()
                        }
                        &&& r is Err ==> r == Err::<Added<M>, EngineError>(EngineError::Full)
                            && same_graph(main, final(self).spec_main()) && final(self).spec_subs()
                            == subs
                    } else {
                        &&& main.spec_node_count() < u32::MAX ==> r is Ok
                        &&& r matches Ok(a) ==> {
                            let e = final(self).spec_subs()[rate];
                            &&& a.handle.spec_graph() == Some(rate)
                            &&& a.handle.spec_id() == NodeId(1)
                            &&& with_node(main, final(self).spec_main())
                            &&& final(self).spec_subs() == subs.insert(rate, e)
                            &&& e.spec_graph().spec_node_count() == 2
                            &&& e.spec_graph().spec_edges().len() == 0
                            &&& e.spec_sink() == NodeId(0)
                            &&& e.spec_resampler() == NodeId(main.spec_node_count() as u32)
                            &&& e.spec_channels() == bridge_channels_spec(
                                num_outputs as nat,
                                old(self).spec_channels() as nat,
                            )
                            &&& e.spec_blocks() == 0
                            &&& a.bridge matches Some(b) && b.rate == rate && b.channels
                                == e.spec_channels() && b.sink_node == e.spec_sink()
                                && b.resampler_node == e.spec_resampler() && b.capacity
                                == bridge_capacity_spec(rate as nat, b.channels as nat)
                        }
                        &&& r is Err ==> r == Err::<Added<M>, EngineError>(EngineError::Full)
                            && same_graph(main, final(self).spec_main()) && final(self).spec_subs()
                            == subs
                    },
                }
            }),
    {
        if let Some(rate) = native_rate {
            if rate != self.sample_rate {
                return self.add_to_subgraph(rate, num_outputs);
            }
        }
        match self.main_graph.add::<M>() {
            Ok((h, messages)) => {
                let node_id = h.id();
                let ghost old_n = (node_id.0 as nat);
                proof {
                    self.lemma_main_grew(old_n);
                }
                Ok(Added {
                    handle: Handle { node_id, graph: None, sender: h.sender },
                    messages,
                    bridge: None,
                })
            },
            Err(_) => Err(EngineError::Full),
        }
    }

    /// Growing the primary graph keeps every sub-graph's resampler node valid.
    proof fn lemma_main_grew(&self, old_n: nat)
        requires
            self.main_graph.spec_node_count() >= old_n,
            forall|rate: u32| #[trigger]
                table_entries(self.sub_graphs).dom().contains(rate) ==> sub_ok(
                    table_entries(self.sub_graphs)[rate],
                    rate,
                    self.sample_rate,
                    old_n,
                ),
        ensures
            forall|rate: u32| #[trigger]
                table_entries(self.sub_graphs).dom().contains(rate) ==> sub_ok(
                    table_entries(self.sub_graphs)[rate],
                    rate,
                    self.sample_rate,
                    self.main_graph.spec_node_count(),
                ),
    {
    }

    /// Adds a node to the sub-graph at `rate`, creating the sub-graph and its
    /// bridge first when there is none.
    fn add_to_subgraph<M>(&mut self, rate: u32, num_outputs: usize) -> (r: Result<
        Added<M>,
        EngineError,
    >)
        requires
            old(self).wf(),
            rate != old(self).spec_rate(),
        ensures
            final(self).wf(),
            final(self).spec_rate() == old(self).spec_rate(),
            final(self).spec_channels() == old(self).spec_channels(),
            final(self).spec_output() == old(self).spec_output(),
            final(self).spec_main_blocks() == old(self).spec_main_blocks(),
            ({
                let main = old(self).spec_main();
                let subs = old(self).spec_subs();
                if subs.dom().contains(rate) {
                    let g = subs[rate].spec_graph();
                    &&& g.spec_node_count() < u32::MAX ==> r is Ok
                    &&& r matches Ok(a) ==> {
                        &&& a.handle.spec_graph() == Some(rate)
                        &&& a.handle.spec_id() == NodeId(g.spec_node_count() as u32)
                        &&& a.bridge is None
                        &&& same_graph(main, final(self).spec_main())
                        &&& final(self).spec_subs() == subs.insert(
                            rate,
                            final(self).spec_subs()[rate],
                        )
                        &&& with_node(g, final(self).spec_subs()[rate].spec_graph())
                        &&& final(self).spec_subs()[rate].spec_sink() == subs[rate].spec_sink()
                        &&& final(self).spec_subs()[rate].spec_resampler()
                            == subs[rate].spec_resampler()
                        &&& final(self).spec_subs()[rate].spec_channels()
                            == subs[rate].spec_channels()
                        &&& final(self).spec_subs()[rate].spec_blocks() == subs[rate].spec_blocks()
                    }
                    &&& r is Err ==> r == Err::<Added<M>, EngineError>(EngineError::Full)
                        && same_graph(main, final(self).spec_main()) && final(self).spec_subs()
                        == subs
                } else {
                    &&& main.spec_node_count() < u32::MAX ==> r is Ok
                    &&& r matches Ok(a) ==> {
                        let e = final(self).spec_subs()[rate];
                        &&& a.handle.spec_graph() == Some(rate)
                        &&& a.handle.spec_id() == NodeId(1)
                        &&& with_node(main, final(self).spec_main())
                        &&& final(self).spec_subs() == subs.insert(rate, e)
                        &&& e.spec_graph().spec_node_count() == 2
                        &&& e.spec_graph().spec_edges().len() == 0
                        &&& e.spec_sink() == NodeId(0)
                        &&& e.spec_resampler() == NodeId(main.spec_node_count() as u32)
                        &&& e.spec_channels() == bridge_channels_spec(
                            num_outputs as nat,
                            old(self).spec_channels() as nat,
                        )
                        &&& e.spec_blocks() == 0
                        &&& a.bridge matches Some(b) && b.rate == rate && b.channels
                            == e.spec_channels() && b.sink_node == e.spec_sink()
                            && b.resampler_node == e.spec_resampler() && b.capacity
                            == bridge_capacity_spec(rate as nat, b.channels as nat)
                    }
                    &&& r is Err ==> r == Err::<Added<M>, EngineError>(EngineError::Full)
                        && same_graph(main, final(self).spec_main()) && final(self).spec_subs()
                        == subs
                }
            }),
    {
        let ghost subs = table_entries(self.sub_graphs);
        if self.sub_graphs.contains(rate) {
            let full = match self.sub_graphs.get(rate) {
                Some(e) => e.graph.node_count() == u32::MAX,
                None => true,
            };
            if full {
                return Err(EngineError::Full);
            }
            match self.sub_graphs.take(rate) {
                Some(mut e) => {
                    proof {
                        assert(sub_ok(subs[rate], rate, self.sample_rate, self.main_graph.spec_node_count()));
                    }
                    match e.graph.add::<M>() {
                        Ok((h, messages)) => {
                            let node_id = h.id();
                            self.sub_graphs.put(rate, e);
                            proof {
                                assert(table_entries(self.sub_graphs) =~= subs.insert(rate, e));
                                assert forall|k: u32| #[trigger]
                                    table_entries(self.sub_graphs).dom().contains(k) implies sub_ok(
                                    table_entries(self.sub_graphs)[k],
                                    k,
                                    self.sample_rate,
                                    self.main_graph.spec_node_count(),
                                ) by {
                                    if k != rate {
                                        assert(subs.dom().contains(k));
                                    }
                                }
                            }
                            Ok(Added {
                                handle: Handle { node_id, graph: Some(rate), sender: h.sender },
                                messages,
                                bridge: None,
                            })
                        },
                        Err(_) => {
                            assert(false);
                            Err(EngineError::Full)
                        },
                    }
                },
                None => Err(EngineError::Full),
            }
        } else {
            if self.main_graph.node_count() == u32::MAX {
                return Err(EngineError::Full);
            }
            let channels = bridge_channels(num_outputs, self.channels);
            let mut graph = AudioGraph::new(rate);
            let sink_node = match graph.add::<()>() {
                Ok((h, _messages)) => h.id(),
                Err(_) => {
                    assert(false);
                    return Err(EngineError::Full);
                },
            };
            let _ = graph.set_terminal(sink_node);
            let (resampler_node, resampler_messages) = match self.main_graph.add::<
                ResamplingSourceMessage,
            >() {
                Ok((h, messages)) => (h.id(), messages),
                Err(_) => {
                    assert(false);
                    return Err(EngineError::Full);
                },
            };
            let (node_id, sender, messages) = match graph.add::<M>() {
                Ok((h, messages)) => (h.id(), h.sender, messages),
                Err(_) => {
                    assert(false);
                    return Err(EngineError::Full);
                },
            };
            let capacity = bridge_capacity(rate, channels);
            let e = SubGraph {
                graph,
                sample_rate: rate,
                sink_node,
                resampler_node,
                channels,
                blocks_processed: 0,
            };
            proof {
                self.lemma_main_grew((self.main_graph.spec_node_count() - 1) as nat);
            }
            self.sub_graphs.put(rate, e);
            proof {
                assert forall|k: u32| #[trigger]
                    table_entries(self.sub_graphs).dom().contains(k) implies sub_ok(
                    table_entries(self.sub_graphs)[k],
                    k,
                    self.sample_rate,
                    self.main_graph.spec_node_count(),
                ) by {
                    if k != rate {
                        assert(subs.dom().contains(k));
                    }
                }
            }
            Ok(Added {
                handle: Handle { node_id, graph: Some(rate), sender },
                messages,
                bridge: Some(
                    Bridge {
                        rate,
                        channels,
                        capacity,
                        sink_node,
                        resampler_node,
                        resampler_messages,
                    },
                ),
            })
        }
    }

    /// Connects the output of `from` to an input of `to`. Within one graph
    /// this is an edge; from a sub-graph into the primary graph it goes
    /// through the sub-graph's bridge. Refused, leaving the engine as it was,
    /// from the primary graph into a sub-graph, between two sub-graphs, for a
    /// node the engine does not have, and where a cycle would close.
    pub fn connect<M1, M2>(&mut self, from: &Handle<M1>, to: &Handle<M2>) -> (r: Result<
        (),
        EngineError,
    >)
        requires
            old(self).wf(),
        ensures
            final(self).wf(),
            final(self).spec_rate() == old(self).spec_rate(),
            final(self).spec_channels() == old(self).spec_channels(),
            final(self).spec_output() == old(self).spec_output(),
            final(self).spec_main_blocks() == old(self).spec_main_blocks(),
            match (from.spec_graph(), to.spec_graph()) {
                (None, None) => main_connected(
                    *old(self),
                    *final(self),
                    from.spec_id().0,
                    to.spec_id().0,
                    r,
                ),
                (Some(a), Some(b)) => if a == b {
                    sub_connected(*old(self), *final(self), a, from.spec_id().0, to.spec_id().0, r)
                } else {
                    r == Err::<(), EngineError>(EngineError::Unsupported) && unchanged(
                        *old(self),
                        *final(self),
                    )
                },
                (Some(a), None) => bridged(
                    *old(self),
                    *final(self),
                    a,
                    from.spec_id().0,
                    to.spec_id().0,
                    r,
                ),
                (None, Some(_)) => r == Err::<(), EngineError>(EngineError::Unsupported) && unchanged(
                    *old(self),
                    *final(self),
                ),
            },
    {
        match (from.graph, to.graph) {
            (None, None) => self.connect_main(from.node_id, to.node_id),
            (Some(a), Some(b)) => {
                if a == b {
                    self.connect_in_sub(a, from.node_id, to.node_id)
                } else {
                    Err(EngineError::Unsupported)
                }
            },
            (Some(a), None) => self.connect_bridged(a, from.node_id, to.node_id),
            (None, Some(_)) => Err(EngineError::Unsupported),
        }
    }

    /// Connects `handle`'s node to the output sink, through its sub-graph's
    /// bridge when it is in a sub-graph. Refused when no output sink is
    /// configured.
    pub fn output<M>(&mut self, handle: &Handle<M>) -> (r: Result<(), EngineError>)
        requires
            old(self).wf(),
        ensures
            final(self).wf(),
            final(self).spec_rate() == old(self).spec_rate(),
            final(self).spec_channels() == old(self).spec_channels(),
            final(self).spec_output() == old(self).spec_output(),
            final(self).spec_main_blocks() == old(self).spec_main_blocks(),
            match old(self).spec_output() {
                None => r == Err::<(), EngineError>(EngineError::NoOutput) && unchanged(
                    *old(self),
                    *final(self),
                ),
                Some(sink) => match handle.spec_graph() {
                    None => main_connected(
                        *old(self),
                        *final(self),
                        handle.spec_id().0,
                        sink.0,
                        r,
                    ),
                    Some(rate) => bridged(
                        *old(self),
                        *final(self),
                        rate,
                        handle.spec_id().0,
                        sink.0,
                        r,
                    ),
                },
            },
    {
        match self.sink_node {
            None => Err(EngineError::NoOutput),
            Some(sink) => match handle.graph {
                None => self.connect_main(handle.node_id, sink),
                Some(rate) => self.connect_bridged(rate, handle.node_id, sink),
            },
        }
    }

    fn connect_main(&mut self, a: NodeId, b: NodeId) -> (r: Result<(), EngineError>)
        requires
            old(self).wf(),
        ensures
            final(self).wf(),
            final(self).spec_rate() == old(self).spec_rate(),
            final(self).spec_channels() == old(self).spec_channels(),
            final(self).spec_output() == old(self).spec_output(),
            final(self).spec_main_blocks() == old(self).spec_main_blocks(),
            main_connected(*old(self), *final(self), a.0, b.0, r),
    {
        match self.main_graph.connect(a, b) {
            Ok(()) => Ok(()),
            Err(e) => Err(to_engine_error(e)),
        }
    }

    fn connect_in_sub(&mut self, rate: u32, a: NodeId, b: NodeId) -> (r: Result<(), EngineError>)
        requires
            old(self).wf(),
        ensures
            final(self).wf(),
            final(self).spec_rate() == old(self).spec_rate(),
            final(self).spec_channels() == old(self).spec_channels(),
            final(self).spec_output() == old(self).spec_output(),
            final(self).spec_main_blocks() == old(self).spec_main_blocks(),
            sub_connected(*old(self), *final(self), rate, a.0, b.0, r),
    {
        let ghost subs = table_entries(self.sub_graphs);
        let ok = match self.sub_graphs.get(rate) {
            None => {
                return Err(EngineError::UnknownNode);
            },
            Some(e) => {
                if a.0 >= e.graph.node_count() || b.0 >= e.graph.node_count() {
                    return Err(EngineError::UnknownNode);
                }
                e.graph.can_connect(a, b)
            },
        };
        if !ok {
            return Err(EngineError::Cycle);
        }
        match self.sub_graphs.take(rate) {
            Some(mut e) => {
                proof {
                    assert(sub_ok(subs[rate], rate, self.sample_rate, self.main_graph.spec_node_count()));
                }
                let res = e.graph.connect(a, b);
                self.sub_graphs.put(rate, e);
                proof {
                    assert(table_entries(self.sub_graphs) =~= subs.insert(rate, e));
                    assert forall|k: u32| #[trigger]
                        table_entries(self.sub_graphs).dom().contains(k) implies sub_ok(
                        table_entries(self.sub_graphs)[k],
                        k,
                        self.sample_rate,
                        self.main_graph.spec_node_count(),
                    ) by {
                        if k != rate {
                            assert(subs.dom().contains(k));
                        }
                    }
                }
                match res {
                    Ok(()) => Ok(()),
                    Err(err) => {
                        assert(false);
                        Err(to_engine_error(err))
                    },
                }
            },
            None => Err(EngineError::UnknownNode),
        }
    }

    fn connect_bridged(&mut self, rate: u32, a: NodeId, b: NodeId) -> (r: Result<(), EngineError>)
        requires
            old(self).wf(),
        ensures
            final(self).wf(),
            final(self).spec_rate() == old(self).spec_rate(),
            final(self).spec_channels() == old(self).spec_channels(),
            final(self).spec_output() == old(self).spec_output(),
            final(self).spec_main_blocks() == old(self).spec_main_blocks(),
            bridged(*old(self), *final(self), rate, a.0, b.0, r),
    {
        let ghost subs = table_entries(self.sub_graphs);
        let (sink, res) = match self.sub_graphs.get(rate) {
            None => {
                return Err(EngineError::UnknownNode);
            },
            Some(e) => {
                if a.0 >= e.graph.node_count() || b.0 >= self.main_graph.node_count() {
                    return Err(EngineError::UnknownNode);
                }
                proof {
                    assert(sub_ok(subs[rate], rate, self.sample_rate, self.main_graph.spec_node_count()));
                }
                if !e.graph.can_connect(a, e.sink_node) || !self.main_graph.can_connect(
                    e.resampler_node,
                    b,
                ) {
                    return Err(EngineError::Cycle);
                }
                (e.sink_node, e.resampler_node)
            },
        };
        match self.sub_graphs.take(rate) {
            Some(mut e) => {
                proof {
                    assert(sub_ok(subs[rate], rate, self.sample_rate, self.main_graph.spec_node_count()));
                }
                let res1 = e.graph.connect(a, sink);
                let res2 = self.main_graph.connect(res, b);
                self.sub_graphs.put(rate, e);
                proof {
                    assert(table_entries(self.sub_graphs) =~= subs.insert(rate, e));
                    assert forall|k: u32| #[trigger]
                        table_entries(self.sub_graphs).dom().contains(k) implies sub_ok(
                        table_entries(self.sub_graphs)[k],
                        k,
                        self.sample_rate,
                        self.main_graph.spec_node_count(),
                    ) by {
                        if k != rate {
                            assert(subs.dom().contains(k));
                        }
                    }
                }
                if res1.is_err() || res2.is_err() {
                    assert(false);
                    return Err(EngineError::Cycle);
                }
                Ok(())
            },
            None => Err(EngineError::UnknownNode),
        }
    }

    /// Paces one engine block. Each sub-graph is brought up to the blocks
    /// the primary graph's next block needs, `ceil(m * R / S)` for block
    /// number `m`, sub-graph rate `R` and output rate `S`, plus the
    /// lookahead; the primary graph then computes one block. Returns, for
    /// each sub-graph, how many blocks it computes now.
    pub fn process(&mut self) -> (runs: Vec<SubGraphRun>)
        requires
            old(self).wf(),
            old(self).spec_main_blocks() < u64::MAX,
        ensures
            final(self).wf(),
            final(self).spec_rate() == old(self).spec_rate(),
            final(self).spec_channels() == old(self).spec_channels(),
            final(self).spec_output() == old(self).spec_output(),
            same_graph(old(self).spec_main(), final(self).spec_main()),
            final(self).spec_main_blocks() == old(self).spec_main_blocks() + 1,
            final(self).spec_subs().dom() == old(self).spec_subs().dom(),
            forall|rate: u32| #[trigger]
                old(self).spec_subs().dom().contains(rate) ==> paced(
                    old(self).spec_subs()[rate],
                    final(self).spec_subs()[rate],
                    final(self).spec_main_blocks() as nat,
                    final(self).spec_rate() as nat,
                ),
            forall|rate: u32| #[trigger]
                old(self).spec_subs().dom().contains(rate) && blocks_needed(
                    final(self).spec_main_blocks() as nat,
                    rate as nat,
                    final(self).spec_rate() as nat,
                ) <= u64::MAX ==> final(self).spec_subs()[rate].spec_blocks() >= blocks_needed(
                    final(self).spec_main_blocks() as nat,
                    rate as nat,
                    final(self).spec_rate() as nat,
                ),
            runs@.len() == old(self).spec_subs().dom().len(),
            forall|i: int, j: int|
                0 <= i < runs@.len() && 0 <= j < runs@.len() && i != j ==> runs@[i].rate
                    != runs@[j].rate,
            forall|i: int|
                0 <= i < runs@.len() ==> old(self).spec_subs().dom().contains(
                    #[trigger] runs@[i].rate,
                ) && runs@[i].blocks == final(self).spec_subs()[runs@[i].rate].spec_blocks()
                    - old(self).spec_subs()[runs@[i].rate].spec_blocks(),
    {
        let ghost subs = table_entries(self.sub_graphs);
        let main_blocks = self.main_blocks_processed + 1;
        let rates = self.sub_graphs.rates();
        let mut runs: Vec<SubGraphRun> = Vec::new();
        let mut i: usize = 0;
        proof {
            rates@.unique_seq_to_set();
            assert(rates@.to_set() =~= subs.dom());
        }
        while i < rates.len()
            invariant
                self.wf(),
                self.sample_rate == old(self).sample_rate,
                self.channels == old(self).channels,
                self.sink_node == old(self).sink_node,
                self.main_blocks_processed == old(self).main_blocks_processed,
                main_blocks == self.main_blocks_processed + 1,
                self.main_graph == old(self).main_graph,
                subs == table_entries(old(self).sub_graphs),
                rates@.no_duplicates(),
                forall|k: u32| #[trigger] rates@.contains(k) <==> subs.dom().contains(k),
                i <= rates@.len(),
                runs@.len() == i,
                table_entries(self.sub_graphs).dom() == subs.dom(),
                forall|k: u32| #[trigger]
                    subs.dom().contains(k) ==> if rates@.subrange(0, i as int).contains(k) {
                        paced(
                            subs[k],
                            table_entries(self.sub_graphs)[k],
                            main_blocks as nat,
                            self.sample_rate as nat,
                        )
                    } else {
                        table_entries(self.sub_graphs)[k] == subs[k]
                    },
                forall|j: int|
                    0 <= j < i ==> (#[trigger] runs@[j]).rate == rates@[j] && runs@[j].blocks
                        == table_entries(self.sub_graphs)[rates@[j]].spec_blocks()
                        - subs[rates@[j]].spec_blocks(),
            decreases rates@.len() - i,
        {
            let rate = rates[i];
            proof {
                assert(rates@.contains(rate));
                assert(!rates@.subrange(0, i as int).contains(rate));
            }
            let ghost before = table_entries(self.sub_graphs);
            match self.sub_graphs.take(rate) {
                Some(mut e) => {
                    proof {
                        assert(sub_ok(before[rate], rate, self.sample_rate, self.main_graph.spec_node_count()));
                    }
                    let needed = sub_blocks_needed(main_blocks, rate, self.sample_rate);
                    let run = if e.blocks_processed < needed {
                        needed - e.blocks_processed
                    } else {
                        0
                    };
                    e.blocks_processed = e.blocks_processed + run;
                    self.sub_graphs.put(rate, e);
                    runs.push(SubGraphRun { rate, blocks: run });
                    proof {
                        assert(table_entries(self.sub_graphs) =~= before.insert(rate, e));
                        assert forall|k: u32| #[trigger]
                            table_entries(self.sub_graphs).dom().contains(k) implies sub_ok(
                            table_entries(self.sub_graphs)[k],
                            k,
                            self.sample_rate,
                            self.main_graph.spec_node_count(),
                        ) by {
                            if k != rate {
                                assert(before.dom().contains(k));
                            }
                        }
                        assert forall|k: u32| #[trigger]
                            subs.dom().contains(k) implies if rates@.subrange(0, i + 1).contains(
                            k,
                        ) {
                            paced(
                                subs[k],
                                table_entries(self.sub_graphs)[k],
                                main_blocks as nat,
                                self.sample_rate as nat,
                            )
                        } else {
                            table_entries(self.sub_graphs)[k] == subs[k]
                        } by {
                            let next = rates@.subrange(0, i + 1);
                            let prev = rates@.subrange(0, i as int);
                            if k == rate {
                                assert(next[i as int] == k);
                            } else {
                                if next.contains(k) {
                                    let j = choose|j: int| 0 <= j < next.len() && next[j] == k;
                                    assert(prev[j] == k);
                                }
                                if prev.contains(k) {
                                    let j = choose|j: int| 0 <= j < prev.len() && prev[j] == k;
                                    assert(next[j] == k);
                                }
                            }
                        }
                        assert forall|j: int| 0 <= j < i + 1 implies (#[trigger] runs@[j]).rate
                            == rates@[j] && runs@[j].blocks == table_entries(
                            self.sub_graphs,
                        )[rates@[j]].spec_blocks() - subs[rates@[j]].spec_blocks() by {
                            if j < i {
                                assert(rates@[j] != rate);
                            }
                        }
                    }
                },
                None => {
                    assert(false);
                },
            }
            i += 1;
        }
        self.main_blocks_processed = main_blocks;
        proof {
            assert(rates@.subrange(0, rates@.len() as int) =~= rates@);
            assert forall|a: int, b: int|
                0 <= a < runs@.len() && 0 <= b < runs@.len() && a != b implies runs@[a].rate
                != runs@[b].rate by {
                assert(runs@[a].rate == rates@[a] && runs@[b].rate == rates@[b]);
            }
            assert forall|j: int| 0 <= j < runs@.len() implies old(self).spec_subs().dom().contains(
                #[trigger] runs@[j].rate,
            ) by {
                assert(runs@[j].rate == rates@[j]);
                assert(rates@.contains(rates@[j]));
            }
        }
        runs
    }

    /// Blocks the primary graph has computed.
    pub fn main_blocks_processed(&self) -> (r: u64)
        ensures
            r == self.spec_main_blocks(),
    {
        self.main_blocks_processed
    }
}

} // verus!
