use klingt::graph::AudioGraph;
use klingt::{GraphError, NodeId};

fn position(order: &[u32], id: NodeId) -> usize {
    order.iter().position(|&x| x == id.index()).expect("node missing from order")
}

fn node(g: &mut AudioGraph) -> NodeId {
    let (h, _messages) = g.add::<()>().expect("graph full");
    h.id()
}

#[test]
fn processing_order_puts_producers_first() {
    let mut g = AudioGraph::new(48000);
    let a = node(&mut g);
    let b = node(&mut g);
    let mix = node(&mut g);
    let sink = node(&mut g);
    let unused = node(&mut g);
    assert_eq!(g.connect(mix, sink), Ok(()));
    assert_eq!(g.connect(b, mix), Ok(()));
    assert_eq!(g.connect(a, mix), Ok(()));
    assert_eq!(g.set_terminal(sink), Ok(()));
    let order = g.processing_order().clone();
    assert_eq!(order.len(), 4);
    assert!(position(&order, a) < position(&order, mix));
    assert!(position(&order, b) < position(&order, mix));
    assert!(position(&order, mix) < position(&order, sink));
    assert!(!order.contains(&unused.index()));
}

#[test]
fn processing_order_is_empty_without_terminal() {
    let mut g = AudioGraph::new(48000);
    let a = node(&mut g);
    let b = node(&mut g);
    assert_eq!(g.connect(a, b), Ok(()));
    assert!(g.processing_order().is_empty());
}

#[test]
fn fan_out_node_is_processed_once() {
    let mut g = AudioGraph::new(44100);
    let src = node(&mut g);
    let left = node(&mut g);
    let right = node(&mut g);
    let sink = node(&mut g);
    for (x, y) in [(src, left), (src, right), (left, sink), (right, sink)] {
        assert_eq!(g.connect(x, y), Ok(()));
    }
    assert_eq!(g.set_terminal(sink), Ok(()));
    let order = g.processing_order().clone();
    assert_eq!(order.iter().filter(|&&x| x == src.index()).count(), 1);
    assert_eq!(order.len(), 4);
    assert_eq!(order[0], src.index());
    assert_eq!(order[3], sink.index());
}

#[test]
fn connect_rejects_cycles() {
    let mut g = AudioGraph::new(48000);
    let a = node(&mut g);
    let b = node(&mut g);
    let c = node(&mut g);
    assert_eq!(g.connect(a, b), Ok(()));
    assert_eq!(g.connect(b, c), Ok(()));
    assert_eq!(g.connect(c, a), Err(GraphError::Cycle));
    assert_eq!(g.connect(b, b), Err(GraphError::Cycle));
    assert!(!g.can_connect(c, a));
    assert!(g.can_connect(a, c));
    assert_eq!(g.connect(a, c), Ok(()));
}

#[test]
fn connect_rejects_unknown_nodes() {
    let mut g = AudioGraph::new(48000);
    let a = node(&mut g);
    assert_eq!(g.connect(a, NodeId(7)), Err(GraphError::UnknownNode));
    assert_eq!(g.set_terminal(NodeId(1)), Err(GraphError::UnknownNode));
}

#[test]
fn fan_in_lists_every_producer_in_order() {
    let mut g = AudioGraph::new(48000);
    let a = node(&mut g);
    let b = node(&mut g);
    let mix = node(&mut g);
    assert_eq!(g.connect(b, mix), Ok(()));
    assert_eq!(g.connect(a, mix), Ok(()));
    assert_eq!(g.inputs(mix).clone(), vec![b.index(), a.index()]);
    assert!(g.inputs(a).is_empty());
}

#[test]
fn nodes_get_dense_ids() {
    let mut g = AudioGraph::new(48000);
    for i in 0..5u32 {
        assert_eq!(node(&mut g), NodeId(i));
    }
    assert_eq!(g.node_count(), 5);
    assert_eq!(g.sample_rate(), 48000);
    assert_eq!(g.context().buffer_size, 64);
}
