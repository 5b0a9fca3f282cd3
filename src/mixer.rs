//! The mixer node's configuration and the channel mapping used wherever an
//! input with one channel count meets an output with another.
use vstd::prelude::*;

verus! {

/// The input channel read for output channel `out_ch` from an input that has
/// `input_channels` channels: the same channel where it exists, else the
/// input's last one (a mono input feeds every output channel).
pub open spec fn source_channel_spec(out_ch: nat, input_channels: nat) -> nat {
    if out_ch < input_channels {
        out_ch
    } else {
        (input_channels - 1) as nat
    }
}

/// The input channel read for output channel `out_ch` from an input that has
/// `input_channels` channels.
pub fn source_channel(out_ch: usize, input_channels: usize) -> (r: usize)
    requires
        input_channels >= 1,
    ensures
        r == source_channel_spec(out_ch as nat, input_channels as nat),
        r < input_channels,
{
    if input_channels == 1 {
        0
    } else if out_ch < input_channels - 1 {
        out_ch
    } else {
        input_channels - 1
    }
}

/// A node that sums any number of inputs with equal weight into `channels`
/// output channels.
pub struct Mixer {
    channels: usize,
}

impl Mixer {
    pub closed spec fn spec_channels(&self) -> usize {
        self.channels
    }

    /// A mixer with `channels` output channels.
    pub fn new(channels: usize) -> (r: Mixer)
        ensures
            r.spec_channels() == channels,
    {
        Mixer { channels }
    }

    /// A mixer with two output channels.
    pub fn stereo() -> (r: Mixer)
        ensures
            r.spec_channels() == 2,
    {
        Mixer::new(2)
    }

    /// A mixer with one output channel.
    pub fn mono() -> (r: Mixer)
        ensures
            r.spec_channels() == 1,
    {
        Mixer::new(1)
    }

    /// A mixer accepts any number of inputs.
    pub fn num_inputs(&self) -> (r: usize)
        ensures
            r == usize::MAX,
    {
        usize::MAX
    }

    /// Number of output channels.
    pub fn num_outputs(&self) -> (r: usize)
        ensures
            r == self.spec_channels(),
    {
        self.channels
    }
}

} // verus!
