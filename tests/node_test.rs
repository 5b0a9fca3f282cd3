use klingt::{source_channel, Mixer, NodeId, ProcessContext, BLOCK_SIZE};

#[test]
fn mixer_channels() {
    assert_eq!(Mixer::stereo().num_outputs(), 2);
    assert_eq!(Mixer::mono().num_outputs(), 1);
    assert_eq!(Mixer::new(6).num_outputs(), 6);
    assert_eq!(Mixer::new(6).num_inputs(), usize::MAX);
}

#[test]
fn mono_input_feeds_every_output_channel() {
    for out_ch in 0..8 {
        assert_eq!(source_channel(out_ch, 1), 0);
    }
}

#[test]
fn extra_output_channels_read_the_last_input_channel() {
    assert_eq!(source_channel(0, 2), 0);
    assert_eq!(source_channel(1, 2), 1);
    assert_eq!(source_channel(2, 2), 1);
    assert_eq!(source_channel(5, 3), 2);
    assert_eq!(source_channel(1, 4), 1);
}

#[test]
fn context_has_the_block_size() {
    let ctx = ProcessContext::new(44100);
    assert_eq!(ctx.sample_rate, 44100);
    assert_eq!(ctx.buffer_size, BLOCK_SIZE);
    assert_eq!(BLOCK_SIZE, 64);
    assert_eq!(NodeId(3).index(), 3);
}
