use klingt::pacing::{bridge_capacity, sub_blocks_needed, LOOKAHEAD_BLOCKS};
use klingt::{Klingt, ResampleCursor, ResamplingSourceMessage, BLOCK_SIZE};

#[test]
fn blocks_needed_rounds_up_and_adds_lookahead() {
    assert_eq!(sub_blocks_needed(0, 22050, 48000), 4);
    assert_eq!(sub_blocks_needed(1, 22050, 48000), 5);
    // 100 * 44100 / 48000 = 91.875
    assert_eq!(sub_blocks_needed(100, 44100, 48000), 96);
    assert_eq!(sub_blocks_needed(48000, 44100, 48000), 44100 + LOOKAHEAD_BLOCKS);
    assert_eq!(sub_blocks_needed(u64::MAX, u32::MAX, 1), u64::MAX);
}

#[test]
fn bridge_capacity_is_a_power_of_two_of_about_100_ms() {
    assert_eq!(bridge_capacity(44100, 2), 16384);
    assert_eq!(bridge_capacity(22050, 1), 8192);
    assert_eq!(bridge_capacity(192000, 8), 262144);
    assert_eq!(bridge_capacity(0, 0), 8192);
    assert_eq!(bridge_capacity(u32::MAX, 8), 4294967296);
}

#[test]
fn equal_rates_pass_samples_through() {
    let mut c = ResampleCursor::new(48000);
    let plan = c.plan_block(48000, 64, 1000);
    assert_eq!(plan.prime_reads, 2);
    assert!(plan.underrun.is_none());
    assert_eq!(plan.steps.len(), 64);
    assert_eq!(plan.steps[0], 0);
    assert!(plan.steps[1..].iter().all(|&s| s == 1));
    assert!(plan.fractions.iter().all(|&f| f == 0));
    let plan = c.plan_block(48000, 64, 1000);
    assert_eq!(plan.prime_reads, 0);
    assert!(plan.steps.iter().all(|&s| s == 1));
    assert!(plan.fractions.iter().all(|&f| f == 0));
}

#[test]
fn frames_consumed_follow_the_rate_ratio() {
    for (r, s) in [(22050u32, 48000u32), (44100, 48000), (48000, 44100), (8000, 8000)] {
        let mut c = ResampleCursor::new(r);
        let mut total: u64 = 0;
        for n in 1..=40u64 {
            let plan = c.plan_block(s, 64, u64::MAX / 2);
            assert!(plan.underrun.is_none());
            total += plan.steps.iter().sum::<u64>();
            let samples = n * 64;
            assert_eq!(total, (samples - 1) * r as u64 / s as u64);
            let ideal = samples * r as u64 / s as u64;
            if r <= s {
                assert!(total <= ideal && ideal <= total + 1);
            }
        }
    }
}

#[test]
fn fractions_interpolate_between_frames() {
    // 1 input frame for every 4 output samples
    let mut c = ResampleCursor::new(1);
    let plan = c.plan_block(4, 8, 100);
    assert_eq!(plan.fractions, vec![0, 1, 2, 3, 0, 1, 2, 3]);
    assert_eq!(plan.steps, vec![0, 0, 0, 0, 1, 0, 0, 0]);
}

#[test]
fn input_running_dry_silences_the_rest_of_the_block() {
    let mut c = ResampleCursor::new(48000);
    let plan = c.plan_block(48000, 64, 12);
    assert_eq!(plan.prime_reads, 2);
    // 10 frames left after priming: samples 0..=10 are computed
    assert_eq!(plan.steps.len(), 11);
    assert_eq!(plan.underrun, Some(0));
    // next block goes on once input is there
    let plan = c.plan_block(48000, 64, 100);
    assert_eq!(plan.prime_reads, 0);
    assert!(plan.underrun.is_none());
}

#[test]
fn priming_waits_for_two_frames() {
    let mut c = ResampleCursor::new(22050);
    let plan = c.plan_block(48000, 64, 1);
    assert_eq!(plan.prime_reads, 1);
    assert!(plan.underrun.is_some());
    let plan = c.plan_block(48000, 64, 0);
    assert_eq!(plan.prime_reads, 0);
}

#[test]
fn input_rate_message_changes_the_ratio() {
    let mut c = ResampleCursor::new(48000);
    c.apply(ResamplingSourceMessage::SetInputRate(24000));
    assert_eq!(c.input_rate(), 24000);
    let plan = c.plan_block(48000, 8, 100);
    assert_eq!(plan.steps, vec![0, 0, 1, 0, 1, 0, 1, 0]);
}

/// Runs the engine's pacing together with the bridge's ring buffer and the
/// resampler's plan, as a host does.
#[test]
fn sub_graph_at_22050_never_underruns_after_lookahead() {
    let mut k = Klingt::new(48000).with_output();
    let added = k.add::<()>(Some(22050), 1).unwrap();
    let bridge = added.bridge.unwrap();
    k.output(&added.handle).unwrap();
    let frame_capacity = bridge.capacity / bridge.channels as u64;
    let mut buffered: u64 = 0;
    let mut cursor = ResampleCursor::new(22050);
    for block in 0..50u64 {
        for run in k.process() {
            for _ in 0..run.blocks {
                if frame_capacity - buffered >= BLOCK_SIZE as u64 {
                    buffered += BLOCK_SIZE as u64;
                }
            }
        }
        let plan = cursor.plan_block(48000, BLOCK_SIZE, buffered);
        if block >= LOOKAHEAD_BLOCKS {
            assert!(plan.underrun.is_none(), "underrun in block {}", block);
        }
        let read = plan.prime_reads as u64 + plan.steps.iter().sum::<u64>() + plan.underrun.unwrap_or(0);
        buffered -= read;
    }
}
