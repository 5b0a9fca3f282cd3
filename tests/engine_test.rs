use klingt::{EngineError, Klingt, NodeId, SubGraphRun};

#[test]
fn nodes_without_other_rate_go_to_primary_graph() {
    let mut k = Klingt::new(48000).with_output();
    assert_eq!(k.output_node(), Some(NodeId(0)));
    let a = k.add::<()>(None, 1).unwrap();
    assert_eq!(a.handle.graph(), None);
    assert_eq!(a.handle.id(), NodeId(1));
    assert!(a.bridge.is_none());
    let b = k.add::<()>(Some(48000), 1).unwrap();
    assert_eq!(b.handle.graph(), None);
    assert_eq!(b.handle.id(), NodeId(2));
    assert_eq!(k.main_graph().node_count(), 3);
}

#[test]
fn node_at_other_rate_gets_a_bridged_sub_graph() {
    let mut k = Klingt::new(48000).with_output();
    let a = k.add::<()>(Some(22050), 1).unwrap();
    assert_eq!(a.handle.graph(), Some(22050));
    assert_eq!(a.handle.id(), NodeId(1));
    let bridge = a.bridge.expect("new sub-graph");
    assert_eq!(bridge.rate, 22050);
    assert_eq!(bridge.channels, 2);
    assert_eq!(bridge.capacity, 8192);
    assert_eq!(bridge.sink_node, NodeId(0));
    assert_eq!(bridge.resampler_node, NodeId(1));
    assert_eq!(k.main_graph().node_count(), 2);

    let b = k.add::<()>(Some(22050), 1).unwrap();
    assert_eq!(b.handle.graph(), Some(22050));
    assert_eq!(b.handle.id(), NodeId(2));
    assert!(b.bridge.is_none());
    let sub = k.sub_graph(22050).unwrap();
    assert_eq!(sub.graph().node_count(), 3);
    assert_eq!(sub.sink_node(), NodeId(0));
    assert_eq!(sub.resampler_node(), NodeId(1));
    assert!(k.sub_graph(44100).is_none());
}

#[test]
fn bridge_channels_follow_engine_and_node() {
    let mut k = Klingt::new(44100).with_channels(1).with_output();
    let a = k.add::<()>(Some(96000), 6).unwrap();
    let bridge = a.bridge.unwrap();
    assert_eq!(bridge.channels, 6);
    // 9600 frames of 6 channels, rounded up to a power of two
    assert_eq!(bridge.capacity, 65536);
    let b = k.add::<()>(Some(8000), 12).unwrap();
    assert_eq!(b.bridge.unwrap().channels, 8);
}

#[test]
fn connect_within_and_across_graphs() {
    let mut k = Klingt::new(48000).with_output();
    let osc = k.add::<()>(None, 1).unwrap().handle;
    let gain = k.add::<()>(None, 2).unwrap().handle;
    let player = k.add::<()>(Some(22050), 2).unwrap().handle;
    let fx = k.add::<()>(Some(22050), 2).unwrap().handle;
    let other = k.add::<()>(Some(44100), 2).unwrap().handle;

    assert_eq!(k.connect(&osc, &gain), Ok(()));
    assert_eq!(k.connect(&player, &fx), Ok(()));
    assert_eq!(k.connect(&fx, &gain), Ok(()));
    assert_eq!(k.connect(&gain, &player), Err(EngineError::Unsupported));
    assert_eq!(k.connect(&fx, &other), Err(EngineError::Unsupported));
    assert_eq!(k.connect(&gain, &osc), Err(EngineError::Cycle));
    assert_eq!(k.output(&gain), Ok(()));

    let sub = k.sub_graph(22050).unwrap();
    let sink = sub.sink_node();
    let resampler = sub.resampler_node();
    assert_eq!(sub.graph().inputs(sink).clone(), vec![fx.id().index()]);
    assert_eq!(sub.graph().processing_order().clone(), vec![player.id().index(), fx.id().index(), sink.index()]);
    let main = k.main_graph();
    assert_eq!(main.inputs(gain.id()).clone(), vec![osc.id().index(), resampler.index()]);
    let order = main.processing_order().clone();
    assert_eq!(order.len(), 4);
    assert_eq!(*order.last().unwrap(), k.output_node().unwrap().index());
}

#[test]
fn output_needs_a_sink() {
    let mut k = Klingt::new(48000);
    let osc = k.add::<()>(None, 1).unwrap().handle;
    assert_eq!(k.output(&osc), Err(EngineError::NoOutput));
}

#[test]
fn sub_graph_node_reaches_output_through_bridge() {
    let mut k = Klingt::new(48000).with_output();
    let player = k.add::<()>(Some(22050), 1).unwrap().handle;
    assert_eq!(k.output(&player), Ok(()));
    let sub = k.sub_graph(22050).unwrap();
    assert_eq!(sub.graph().inputs(sub.sink_node()).clone(), vec![player.id().index()]);
    let sink = k.output_node().unwrap();
    assert_eq!(k.main_graph().inputs(sink).clone(), vec![sub.resampler_node().index()]);
    assert_eq!(k.main_graph().processing_order().clone(), vec![sub.resampler_node().index(), sink.index()]);
}

#[test]
fn handle_from_another_engine_is_unknown() {
    let mut k = Klingt::new(48000).with_output();
    let mut other = Klingt::new(48000);
    let stranger = other.add::<()>(Some(22050), 1).unwrap().handle;
    assert_eq!(k.output(&stranger), Err(EngineError::UnknownNode));
    let far = {
        let mut big = Klingt::new(48000);
        let mut last = big.add::<()>(None, 1).unwrap().handle;
        for _ in 0..5 {
            last = big.add::<()>(None, 1).unwrap().handle;
        }
        last
    };
    assert_eq!(k.output(&far), Err(EngineError::UnknownNode));
}

#[test]
fn process_paces_sub_graph_ahead_of_primary() {
    let mut k = Klingt::new(48000).with_output();
    let player = k.add::<()>(Some(22050), 1).unwrap().handle;
    k.output(&player).unwrap();
    let runs = k.process();
    // ceil(1 * 22050 / 48000) + 4
    assert_eq!(runs, vec![SubGraphRun { rate: 22050, blocks: 5 }]);
    assert_eq!(k.main_blocks_processed(), 1);
    for m in 2..=200u64 {
        let runs = k.process();
        assert_eq!(runs.len(), 1);
        let done = k.sub_graph(22050).unwrap().blocks_processed();
        let needed = (m * 22050 + 47999) / 48000;
        assert!(done >= needed + 4);
        assert_eq!(done, needed + 4);
    }
    assert_eq!(k.main_blocks_processed(), 200);
}

#[test]
fn process_without_sub_graphs_runs_nothing_else() {
    let mut k = Klingt::new(44100).with_output();
    let osc = k.add::<()>(None, 1).unwrap().handle;
    k.output(&osc).unwrap();
    assert!(k.process().is_empty());
    assert_eq!(k.main_blocks_processed(), 1);
}

#[test]
fn process_paces_each_rate() {
    let mut k = Klingt::new(44100).with_output();
    k.add::<()>(Some(48000), 2).unwrap();
    k.add::<()>(Some(11025), 2).unwrap();
    let mut runs = k.process();
    runs.sort_by_key(|r| r.rate);
    // ceil(48000 / 44100) + 4 and ceil(11025 / 44100) + 4
    assert_eq!(runs, vec![SubGraphRun { rate: 11025, blocks: 5 }, SubGraphRun { rate: 48000, blocks: 6 }]);
    let mut runs = k.process();
    runs.sort_by_key(|r| r.rate);
    // ceil(2 * 11025 / 44100) = 1 and ceil(2 * 48000 / 44100) = 3
    assert_eq!(runs, vec![SubGraphRun { rate: 11025, blocks: 0 }, SubGraphRun { rate: 48000, blocks: 1 }]);
}

#[test]
fn one_oscillator_to_output_is_one_block_of_two_nodes() {
    let mut k = Klingt::new(48000).with_output();
    let osc = k.add::<()>(None, 1).unwrap().handle;
    assert_eq!(k.output(&osc), Ok(()));
    assert!(k.process().is_empty());
    let sink = k.output_node().unwrap();
    assert_eq!(k.main_graph().processing_order().clone(), vec![osc.id().index(), sink.index()]);
    assert_eq!(k.main_graph().context().buffer_size, 64);
    assert_eq!(k.main_graph().context().sample_rate, 48000);
}

#[test]
fn two_oscillators_into_mixer_feed_its_input() {
    let mut k = Klingt::new(48000).with_output();
    let a = k.add::<()>(None, 1).unwrap().handle;
    let b = k.add::<()>(None, 1).unwrap().handle;
    let mixer = k.add::<()>(None, klingt::Mixer::mono().num_outputs()).unwrap().handle;
    assert_eq!(k.connect(&a, &mixer), Ok(()));
    assert_eq!(k.connect(&b, &mixer), Ok(()));
    assert_eq!(k.output(&mixer), Ok(()));
    let main = k.main_graph();
    assert_eq!(main.inputs(mixer.id()).clone(), vec![a.id().index(), b.id().index()]);
    let order = main.processing_order().clone();
    assert_eq!(order.len(), 4);
    assert_eq!(order[2], mixer.id().index());
    assert_eq!(order[3], k.output_node().unwrap().index());
}
