//! Read-position logic of the resampling source that feeds a sub-graph's
//! output, at the sub-graph's rate, into the primary graph.
//!
//! The source keeps the two most recently read input frames and, for each
//! output sample, interpolates linearly between them. Its fractional read
//! position advances by `R / S` per output sample, where `R` is the input rate
//! and `S` the output rate. The position is kept exactly, as the integer
//! `phase`, the position times `S`: each output sample adds `R` to it, and
//! each step to the next input frame takes `S` from it.
//!
//! Before its first output the source reads two frames. When a frame it must
//! step to has not arrived, the rest of the block is silence, and the next
//! block goes on from there.
use vstd::prelude::*;

verus! {

/// Messages to the resampling source.
#[derive(Clone, Copy, Debug)]
pub enum ResamplingSourceMessage {
    /// Sets the sample rate of the incoming audio.
    SetInputRate(u32),
}

/// Input frames stepped to, since the start of a block that began at `phase`,
/// by the time output sample `i` of the block is computed.
pub open spec fn frames_due(phase: nat, i: nat, in_rate: nat, out_rate: nat) -> nat {
    (phase + i * in_rate) / out_rate
}

/// Interpolation weight of output sample `i`, times the output rate: how far
/// past the previous frame the read position stands.
pub open spec fn fraction_at(phase: nat, i: nat, in_rate: nat, out_rate: nat) -> int {
    phase + i * in_rate - frames_due(phase, i, in_rate, out_rate) * out_rate
}

/// Input frames stepped to just before output sample `i`.
pub open spec fn step_at(phase: nat, i: nat, in_rate: nat, out_rate: nat) -> int {
    if i == 0 {
        frames_due(phase, 0, in_rate, out_rate) as int
    } else {
        frames_due(phase, i, in_rate, out_rate) - frames_due(phase, (i - 1) as nat, in_rate, out_rate)
    }
}

/// Input frames stepped to over a whole block of `len >= 1` samples.
pub open spec fn block_frames(phase: nat, len: nat, in_rate: nat, out_rate: nat) -> nat {
    frames_due(phase, (len - 1) as nat, in_rate, out_rate)
}

/// The phase after a whole block of `len >= 1` samples.
pub open spec fn block_phase(phase: nat, len: nat, in_rate: nat, out_rate: nat) -> nat {
    (phase + len * in_rate - block_frames(phase, len, in_rate, out_rate) * out_rate) as nat
}

/// The phase after `blocks` whole blocks from the start.
pub open spec fn phase_after(blocks: nat, len: nat, in_rate: nat, out_rate: nat) -> nat
    decreases blocks,
{
    if blocks == 0 {
        0
    } else {
        block_phase(phase_after((blocks - 1) as nat, len, in_rate, out_rate), len, in_rate, out_rate)
    }
}

/// Input frames stepped to over `blocks` whole blocks from the start.
pub open spec fn frames_after(blocks: nat, len: nat, in_rate: nat, out_rate: nat) -> nat
    decreases blocks,
{
    if blocks == 0 {
        0
    } else {
        frames_after((blocks - 1) as nat, len, in_rate, out_rate) + block_frames(
            phase_after((blocks - 1) as nat, len, in_rate, out_rate),
            len,
            in_rate,
            out_rate,
        )
    }
}

/// `(a + m * d) / d == a / d + m`, and what is left over is `a % d`.
proof fn lemma_div_shift(a: nat, m: nat, d: nat)
    requires
        d > 0,
    ensures
        (a + m * d) / d == a / d + m,
        (a + m * d) - ((a + m * d) / d) * d == a - (a / d) * d,
        0 <= a - (a / d) * d < d,
{
    vstd::arithmetic::div_mod::lemma_fundamental_div_mod(a as int, d as int);
    let q = a / d;
    let rem = a % d;
    assert(a + m * d == (q + m) * d + rem) by (nonlinear_arith)
        requires
            a == d * q + rem,
    ;
    vstd::arithmetic::div_mod::lemma_fundamental_div_mod_converse(
        (a + m * d) as int,
        d as int,
        (q + m) as int,
        rem as int,
    );
    assert(q * d == d * q) by (nonlinear_arith);
}

/// What the resampling source does in one block: which frames it reads and
/// with which weight it interpolates each output sample.
pub struct ResamplePlan {
    /// Frames read to prime the source before the first output: a shift of
    /// the current frame into the previous one follows the first of them.
    pub prime_reads: u32,
    /// For each output sample computed, the frames stepped to before it; each
    /// step shifts the current frame into the previous one and reads the next.
    pub steps: Vec<u64>,
    /// For each output sample computed, the interpolation weight times the
    /// output rate, below the output rate.
    pub fractions: Vec<u64>,
    /// When the input ran dry: the frames stepped to before the step whose
    /// read failed. That step still shifts the frames, and every sample from
    /// `steps.len()` on is silence.
    pub underrun: Option<u64>,
}

/// The read position of a resampling source.
pub struct ResampleCursor {
    input_rate: u32,
    phase: u64,
    primed: bool,
}

impl ResampleCursor {
    pub closed spec fn spec_input_rate(&self) -> u32 {
        self.input_rate
    }

    pub closed spec fn spec_phase(&self) -> nat {
        self.phase as nat
    }

    pub closed spec fn spec_primed(&self) -> bool {
        self.primed
    }

    /// The phase stays small enough for its arithmetic never to overflow.
    pub closed spec fn wf(&self) -> bool {
        self.phase <= 2 * (u32::MAX as u64)
    }

    /// A source for input at `input_rate`, before any frame is read.
    pub fn new(input_rate: u32) -> (r: ResampleCursor)
        ensures
            r.wf(),
            r.spec_input_rate() == input_rate,
            r.spec_phase() == 0,
            !r.spec_primed(),
    {
        ResampleCursor { input_rate, phase: 0, primed: false }
    }

    /// The sample rate of the incoming audio.
    pub fn input_rate(&self) -> (r: u32)
        ensures
            r == self.spec_input_rate(),
    {
        self.input_rate
    }

    /// Applies a message.
    pub fn apply(&mut self, msg: ResamplingSourceMessage)
        requires
            old(self).wf(),
        ensures
            final(self).wf(),
            final(self).spec_phase() == old(self).spec_phase(),
            final(self).spec_primed() == old(self).spec_primed(),
            msg matches ResamplingSourceMessage::SetInputRate(rate) && final(self).spec_input_rate()
                == rate,
    {
        match msg {
            ResamplingSourceMessage::SetInputRate(rate) => {
                self.input_rate = rate;
            },
        }
    }

    /// Plans one block of `block_len` output samples at `out_rate`, with
    /// `available` whole input frames waiting in the ring buffer.
    pub fn plan_block(&mut self, out_rate: u32, block_len: usize, available: u64) -> (plan:
        ResamplePlan)
        requires
            old(self).wf(),
            out_rate > 0,
        ensures
            final(self).wf(),
            final(self).spec_input_rate() == old(self).spec_input_rate(),
            ({
                let r = old(self).spec_input_rate() as nat;
                let s = out_rate as nat;
                let p0 = old(self).spec_phase();
                let primed = old(self).spec_primed();
                let prime = if primed {
                    0
                } else if available >= 2 {
                    2
                } else {
                    available as nat
                };
                let avail = available - prime;
                let n = plan.steps@.len();
                &&& plan.prime_reads == prime
                &&& final(self).spec_primed() == (primed || available >= 2)
                &&& plan.fractions@.len() == n
                &&& n <= block_len
                &&& forall|i: int|
                    0 <= i < n ==> frames_due(p0, i as nat, r, s) <= avail && #[trigger] plan.steps@[i]
                        == step_at(p0, i as nat, r, s) && plan.fractions@[i] == fraction_at(
                        p0,
                        i as nat,
                        r,
                        s,
                    )
                &&& n < block_len <==> plan.underrun is Some
                &&& n < block_len ==> frames_due(p0, n, r, s) > avail
                &&& plan.underrun matches Some(k) ==> k == avail - (if n == 0 {
                    0
                } else {
                    frames_due(p0, (n - 1) as nat, r, s)
                }) && final(self).spec_phase() == p0 + n * r - (avail + 1) * s
                &&& (n == block_len && block_len > 0) ==> final(self).spec_phase() == block_phase(
                    p0,
                    block_len as nat,
                    r,
                    s,
                )
                &&& block_len == 0 ==> final(self).spec_phase() == p0
            }),
    {
        let ghost p0 = self.phase as nat;
        let r = self.input_rate as u64;
        let s = out_rate as u64;
        let mut prime_reads: u32 = 0;
        if !self.primed {
            if available >= 2 {
                prime_reads = 2;
                self.primed = true;
            } else {
                prime_reads = available as u32;
            }
        }
        let avail = available - prime_reads as u64;
        let mut steps: Vec<u64> = Vec::new();
        let mut fractions: Vec<u64> = Vec::new();
        let mut phase: u64 = self.phase;
        let mut used: u64 = 0;
        let mut i: usize = 0;
        while i < block_len
            invariant
                s == out_rate as u64,
                s > 0,
                r == self.input_rate as u64,
                self.input_rate == old(self).input_rate,
                self.primed == (old(self).primed || available >= 2),
                prime_reads == (if old(self).primed {
                    0
                } else if available >= 2 {
                    2
                } else {
                    available
                }),
                avail == available - prime_reads,
                p0 == old(self).phase,
                i <= block_len,
                steps@.len() == i,
                fractions@.len() == i,
                used <= avail,
                phase as int == p0 + i * r - used * s,
                i == 0 ==> used == 0 && phase == p0,
                i > 0 ==> used == frames_due(p0, (i - 1) as nat, r as nat, s as nat),
                i > 0 ==> phase < s + r,
                p0 <= 2 * (u32::MAX as u64),
                forall|j: int| 0 <= j < i ==> #[trigger] frames_due(p0, j as nat, r as nat, s as nat) <= avail,
                forall|j: int|
                    0 <= j < i ==> #[trigger] steps@[j] == step_at(p0, j as nat, r as nat, s as nat)
                        && fractions@[j] == fraction_at(p0, j as nat, r as nat, s as nat),
            decreases block_len - i,
        {
            let due = phase / s;
            proof {
                lemma_div_shift(phase as nat, used as nat, s as nat);
                assert(phase + used * s == p0 + i * r);
                assert(frames_due(p0, i as nat, r as nat, s as nat) == due + used);
                if i > 0 {
                    assert(frames_due(p0, ((i + 1) - 1) as nat, r as nat, s as nat) == due + used);
                }
            }
            if due > avail - used {
                let k = avail - used;
                assert((k + 1) * s <= due * s) by (nonlinear_arith)
                    requires
                        k + 1 <= due,
                ;
                assert(due * s <= phase) by (nonlinear_arith)
                    requires
                        due == phase / s,
                        s > 0,
                ;
                self.phase = phase - (k + 1) * s;
                proof {
                    assert(self.phase == p0 + i * r - (avail + 1) * s) by (nonlinear_arith)
                        requires
                            self.phase == phase - (k + 1) * s,
                            phase == p0 + i * r - used * s,
                            k == avail - used,
                    ;
                }
                return ResamplePlan { prime_reads, steps, fractions, underrun: Some(k) };
            }
            assert(due * s <= phase) by (nonlinear_arith)
                requires
                    due == phase / s,
                    s > 0,
            ;
            let ghost old_steps = steps@;
            let ghost old_fractions = fractions@;
            proof {
                assert((due + used) * s == due * s + used * s) by (nonlinear_arith);
                assert(fraction_at(p0, i as nat, r as nat, s as nat) == phase - due * s);
                if i > 0 {
                    assert(step_at(p0, i as nat, r as nat, s as nat) == due);
                } else {
                    assert(step_at(p0, i as nat, r as nat, s as nat) == due);
                }
            }
            phase = phase - due * s;
            used = used + due;
            steps.push(due);
            fractions.push(phase);
            proof {
                assert(phase < s);
                assert(frames_due(p0, i as nat, r as nat, s as nat) <= avail);
                assert(fractions@[i as int] == fraction_at(p0, i as nat, r as nat, s as nat));
                assert(steps@[i as int] == step_at(p0, i as nat, r as nat, s as nat));
                assert forall|j: int|
                    0 <= j < i + 1 implies #[trigger] steps@[j] == step_at(p0, j as nat, r as nat, s as nat)
                    && fractions@[j] == fraction_at(p0, j as nat, r as nat, s as nat) by {
                    if j < i {
                        assert(steps@[j] == old_steps[j]);
                        assert(fractions@[j] == old_fractions[j]);
                    }
                }
            }
            phase = phase + r;
            i += 1;
            proof {
                assert(phase as int == p0 + i * r - used * s) by (nonlinear_arith)
                    requires
                        phase as int == (p0 + (i - 1) * r - (used - due) * s) - due * s + r,
                ;
            }
        }
        self.phase = phase;
        assert forall|j: int| 0 <= j < steps@.len() implies frames_due(p0, j as nat, r as nat, s as nat)
            <= avail && #[trigger] steps@[j] == step_at(p0, j as nat, r as nat, s as nat)
            && fractions@[j] == fraction_at(p0, j as nat, r as nat, s as nat) by {
            assert(frames_due(p0, j as nat, r as nat, s as nat) <= avail);
        }
        ResamplePlan { prime_reads, steps, fractions, underrun: None }
    }
}

/// With equal input and output rates, and a phase that sits on a frame, every
/// output sample has interpolation weight zero and the read position steps one
/// frame per output sample, so output sample `i` is input frame `i` exactly
/// (counting from the frame the block starts on). A whole block leaves the
/// phase on a frame again.
pub proof fn lemma_equal_rates_pass_through(phase: nat, rate: nat, i: nat, len: nat)
    requires
        rate > 0,
        phase % rate == 0,
    ensures
        fraction_at(phase, i, rate, rate) == 0,
        frames_due(phase, i, rate, rate) == phase / rate + i,
        len >= 1 ==> block_phase(phase, len, rate, rate) == rate,
{
    lemma_div_shift(phase, i, rate);
    vstd::arithmetic::div_mod::lemma_fundamental_div_mod(phase as int, rate as int);
    assert((phase / rate) * rate == rate * (phase / rate)) by (nonlinear_arith);
    assert((phase / rate + i) * rate == (phase / rate) * rate + i * rate) by (nonlinear_arith);
    if len >= 1 {
        let m = (len - 1) as nat;
        lemma_div_shift(phase, m, rate);
        assert((phase / rate + m) * rate == (phase / rate) * rate + m * rate) by (nonlinear_arith);
        assert(len * rate == m * rate + rate) by (nonlinear_arith)
            requires
                m == len - 1,
        ;
    }
}

/// Over whole blocks from the start, the phase and the frames stepped to
/// account for every output sample: `phase + frames * S == samples * R`, and
/// the frames stepped to are `((samples - 1) * R) / S`.
proof fn lemma_blocks_account(blocks: nat, len: nat, r: nat, s: nat)
    requires
        len >= 1,
        s > 0,
    ensures
        phase_after(blocks, len, r, s) + frames_after(blocks, len, r, s) * s == blocks * len * r,
        blocks >= 1 ==> frames_after(blocks, len, r, s) == (((blocks * len - 1) * r) as nat) / s,
    decreases blocks,
{
    if blocks > 0 {
        let n = (blocks - 1) as nat;
        lemma_blocks_account(n, len, r, s);
        let ph = phase_after(n, len, r, s);
        let fa = frames_after(n, len, r, s);
        let a = ph + ((len - 1) as nat) * r;
        let d = block_frames(ph, len, r, s);
        assert(d == a / s);
        lemma_div_shift(a, fa, s);
        assert(a + fa * s == ((blocks * len - 1) * r)) by (nonlinear_arith)
            requires
                ph + fa * s == n * len * r,
                a == ph + (len - 1) * r,
                n == blocks - 1,
                len >= 1,
        ;
        vstd::arithmetic::div_mod::lemma_fundamental_div_mod(a as int, s as int);
        assert(d * s <= a) by (nonlinear_arith)
            requires
                d == a / s,
                s > 0,
        ;
        assert(ph + len * r - d * s >= 0) by (nonlinear_arith)
            requires
                d * s <= a,
                a == ph + (len - 1) * r,
                len >= 1,
        ;
        assert(phase_after(blocks, len, r, s) == ph + len * r - d * s);
        assert(frames_after(blocks, len, r, s) == fa + d);
        assert((fa + d) * s == fa * s + d * s) by (nonlinear_arith);
        assert(blocks * len * r == n * len * r + len * r) by (nonlinear_arith)
            requires
                n == blocks - 1,
        ;
        let pa = phase_after(blocks, len, r, s);
        let fb = frames_after(blocks, len, r, s);
        assert(pa + fb * s == blocks * len * r) by (nonlinear_arith)
            requires
                pa == ph + len * r - d * s,
                fb == fa + d,
                ph + fa * s == n * len * r,
                blocks * len * r == n * len * r + len * r,
        ;
    } else {
        assert(frames_after(blocks, len, r, s) * s == 0 && blocks * len * r == 0) by (nonlinear_arith)
            requires
                frames_after(blocks, len, r, s) == 0,
                blocks == 0,
        ;
    }
}

/// After `blocks` whole blocks of `len` output samples from the start, the
/// read position has stepped over exactly `((blocks * len - 1) * R) / S`
/// input frames; when `R <= S` that is within one frame of
/// `blocks * len * R / S`.
pub proof fn lemma_frames_consumed(blocks: nat, len: nat, r: nat, s: nat)
    requires
        blocks >= 1,
        len >= 1,
        s > 0,
    ensures
        frames_after(blocks, len, r, s) == (((blocks * len - 1) * r) as nat) / s,
        r <= s ==> frames_after(blocks, len, r, s) <= (blocks * len * r) / s,
        r <= s ==> (blocks * len * r) / s <= frames_after(blocks, len, r, s) + 1,
{
    lemma_blocks_account(blocks, len, r, s);
    let k = blocks * len;
    assert(k >= 1) by (nonlinear_arith)
        requires
            blocks >= 1,
            len >= 1,
            k == blocks * len,
    ;
    let lo = ((k - 1) * r) as nat;
    assert(lo + r == k * r) by (nonlinear_arith)
        requires
            lo == (k - 1) * r,
            k >= 1,
    ;
    vstd::arithmetic::div_mod::lemma_div_is_ordered(lo as int, (k * r) as int, s as int);
    if r <= s {
        vstd::arithmetic::div_mod::lemma_div_is_ordered((k * r) as int, (lo + s) as int, s as int);
        lemma_div_shift(lo, 1, s);
    }
}

} // verus!
