//! A digital delay effect with feedback and dry/wet mix.
//!
//! The engine owns one circular delay line per channel, sized at `prepare` to
//! a power of two holding at least `MAX_DELAY_MS` milliseconds of history at
//! the current sample rate. A single read cursor is shared by all channels
//! and advanced by the block length after each processed block. The
//! fractional part of the delay is realized on the write side: each deposited
//! sample is split across two adjacent slots, weighted by proximity.

use crate::buffer_view::BufferViewMut;
use crate::effect::Effect;
use crate::fixed::{lemma_fx_bound, scale_gain, SCALE};
use crate::model::{lemma_to_int_update, line_after, out_at, to_int, DelayParams};
use crate::pow2::{is_pow2, lemma_mask_is_mod, next_pow2};
use vstd::arithmetic::div_mod::{
    lemma_add_mod_noop, lemma_add_mod_noop_right, lemma_div_is_ordered,
    lemma_mod_division_less_than_divisor, lemma_small_mod,
};
use vstd::arithmetic::mul::{lemma_mul_inequality, lemma_mul_upper_bound};
use vstd::prelude::*;

verus! {

/// Longest delay the lines are sized for, in milliseconds.
pub const MAX_DELAY_MS: u64 = 1000;

/// Delay time at construction: 100 ms, in `SCALE` units of one millisecond.
pub const DEFAULT_DELAY_TIME: u64 = 100_000_000;

/// Feedback gain at construction: 0.2.
pub const DEFAULT_FEEDBACK: i64 = 200_000;

/// Dry gain at construction: 1.
pub const DEFAULT_DRY_GAIN: i64 = 1_000_000;

/// Wet gain at construction: 0.25 (about -12 dB).
pub const DEFAULT_WET_GAIN: i64 = 250_000;

/// Largest accepted delay time (scaled milliseconds): 1000 seconds.
pub const DELAY_TIME_LIMIT: u64 = 1_000_000_000_000;

/// Largest accepted sample rate, in Hz.
pub const RATE_LIMIT: u64 = 16_000_000;

/// Largest accepted dry/wet gain (a gain of 8), so that mixing a delay-line
/// sample cannot overflow 64-bit arithmetic.
pub const GAIN_LIMIT: i64 = 8_000_000;

/// Largest magnitude an input sample may have: one full scale.
pub const SAMPLE_LIMIT: i64 = 1_000_000;

/// Bound on the magnitude of every delay-line slot, maintained across blocks:
/// `SAMPLE_LIMIT * SCALE`, enough headroom for any feedback below one.
pub const LINE_LIMIT: i64 = 1_000_000_000_000;

/// Largest integer delay in samples:
/// `DELAY_TIME_LIMIT * RATE_LIMIT / (1000 * SCALE)`.
pub const DELAY_INT_LIMIT: u64 = 16_000_000_000;

/// Largest delay-line length: the next power of two above `RATE_LIMIT`.
pub const LINE_LEN_LIMIT: u64 = 0x200_0000;

/// Ghost mirror of the engine state: parameters as unbounded integers and the
/// delay lines as integer sequences.
pub ghost struct DelayView {
    /// Sample rate in Hz (zero before `prepare`).
    pub sample_rate: int,
    /// Delay time, in `SCALE` units of one millisecond.
    pub delay_time: int,
    /// Feedback gain, in `SCALE` units.
    pub feedback: int,
    /// Dry gain, in `SCALE` units.
    pub dry_gain: int,
    /// Wet gain, in `SCALE` units.
    pub wet_gain: int,
    /// Integer part of the derived delay, in samples.
    pub delay_int: int,
    /// Fractional part of the derived delay, in `SCALE` units of one sample.
    pub delay_frac: int,
    /// Per-channel delay-line contents.
    pub lines: Seq<Seq<int>>,
    /// Read cursor shared by all channels.
    pub read_index: int,
}

impl DelayView {
    /// Length shared by every delay line (zero before `prepare`).
    pub open spec fn line_len(&self) -> int {
        if self.lines.len() == 0 {
            0
        } else {
            self.lines[0].len() as int
        }
    }

    /// Number of channels, fixed at construction.
    pub open spec fn channels(&self) -> int {
        self.lines.len() as int
    }

    /// The parameters under which the next block would be processed.
    pub open spec fn params(&self) -> DelayParams {
        DelayParams {
            delay_int: self.delay_int,
            frac: self.delay_frac,
            feedback: self.feedback,
            dry: self.dry_gain,
            wet: self.wet_gain,
        }
    }

    /// Well-formedness: parameter ranges, equal power-of-two delay lines, a
    /// read cursor inside the lines, and bounded line contents.
    pub open spec fn wf(&self) -> bool {
        &&& 0 < self.delay_time <= DELAY_TIME_LIMIT
        &&& 0 <= self.sample_rate <= RATE_LIMIT
        &&& 0 <= self.feedback <= SCALE
        &&& 0 <= self.dry_gain <= GAIN_LIMIT
        &&& 0 <= self.wet_gain <= GAIN_LIMIT
        &&& 0 <= self.delay_frac < SCALE
        &&& 0 <= self.delay_int <= DELAY_INT_LIMIT
        &&& forall|c: int|
            0 <= c < self.channels() ==> (#[trigger] self.lines[c]).len() == self.line_len()
        &&& self.line_len() == 0 ==> self.read_index == 0
        &&& self.line_len() > 0 ==> {
            &&& is_pow2(self.line_len() as u64)
            &&& self.line_len() <= LINE_LEN_LIMIT
            &&& 0 <= self.read_index < self.line_len()
        }
        &&& forall|c: int, q: int|
            0 <= c < self.channels() && 0 <= q < self.line_len() ==> -LINE_LIMIT
                <= #[trigger] self.lines[c][q] <= LINE_LIMIT
    }

    /// The engine has been sized by `prepare` and can process blocks.
    pub open spec fn prepared(&self) -> bool {
        self.line_len() > 0
    }
}

/// A multi-channel digital delay effect. The channel count is fixed at
/// construction; delay lines are empty until `prepare` sizes them.
pub struct DigitalDelay {
    sample_rate: u64,
    delay_time: u64,
    feedback: i64,
    dry_gain: i64,
    wet_gain: i64,
    delay_int: u64,
    delay_frac: i64,
    delay_lines: Vec<Vec<i64>>,
    read_index: usize,
}

impl View for DigitalDelay {
    type V = DelayView;

    closed spec fn view(&self) -> DelayView {
        DelayView {
            sample_rate: self.sample_rate as int,
            delay_time: self.delay_time as int,
            feedback: self.feedback as int,
            dry_gain: self.dry_gain as int,
            wet_gain: self.wet_gain as int,
            delay_int: self.delay_int as int,
            delay_frac: self.delay_frac as int,
            lines: self.delay_lines@.map_values(|v: Vec<i64>| to_int(v@)),
            read_index: self.read_index as int,
        }
    }
}

impl DigitalDelay {
    /// Creates a delay with `num_channels` channels and default parameters.
    /// The delay lines are empty until `prepare` is called.
    pub fn new(num_channels: usize) -> (r: Self)
        ensures
            r@.wf(),
            !r@.prepared(),
            r@.channels() == num_channels,
            r@.delay_time == DEFAULT_DELAY_TIME,
            r@.feedback == DEFAULT_FEEDBACK,
            r@.dry_gain == DEFAULT_DRY_GAIN,
            r@.wet_gain == DEFAULT_WET_GAIN,
            r@.sample_rate == 0,
            r@.read_index == 0,
    {
        let mut lines: Vec<Vec<i64>> = Vec::new();
        let mut c: usize = 0;
        while c < num_channels
            invariant
                c <= num_channels,
                lines@.len() == c,
                forall|j: int| 0 <= j < c ==> (#[trigger] lines@[j])@.len() == 0,
            decreases num_channels - c,
        {
            lines.push(Vec::new());
            c = c + 1;
        }
        let r = DigitalDelay {
            sample_rate: 0,
            delay_time: DEFAULT_DELAY_TIME,
            feedback: DEFAULT_FEEDBACK,
            dry_gain: DEFAULT_DRY_GAIN,
            wet_gain: DEFAULT_WET_GAIN,
            delay_int: 0,
            delay_frac: 0,
            delay_lines: lines,
            read_index: 0,
        };
        proof {
            assert(forall|j: int|
                0 <= j < r@.lines.len() ==> (#[trigger] r@.lines[j]).len() == 0);
        }
        r
    }

    /// Current delay time, in `SCALE` units of one millisecond.
    pub fn delay_time(&self) -> (r: u64)
        ensures
            r == self@.delay_time,
    {
        self.delay_time
    }

    /// Current feedback gain, in `SCALE` units.
    pub fn feedback(&self) -> (r: i64)
        ensures
            r == self@.feedback,
    {
        self.feedback
    }

    /// Current dry gain, in `SCALE` units.
    pub fn dry_gain(&self) -> (r: i64)
        ensures
            r == self@.dry_gain,
    {
        self.dry_gain
    }

    /// Current wet gain, in `SCALE` units.
    pub fn wet_gain(&self) -> (r: i64)
        ensures
            r == self@.wet_gain,
    {
        self.wet_gain
    }

    /// Integer part of the derived delay, in samples (set by `prepare`).
    pub fn delay_int(&self) -> (r: u64)
        ensures
            r == self@.delay_int,
    {
        self.delay_int
    }

    /// Fractional part of the derived delay, in `SCALE` units of one sample.
    pub fn delay_frac(&self) -> (r: i64)
        ensures
            r == self@.delay_frac,
    {
        self.delay_frac
    }

    /// Number of channels.
    pub fn num_channels(&self) -> (r: usize)
        ensures
            r == self@.channels(),
    {
        self.delay_lines.len()
    }

    /// Length of each delay line (zero before `prepare`).
    pub fn delay_line_len(&self) -> (r: usize)
        ensures
            r == self@.line_len(),
    {
        if self.delay_lines.len() == 0 {
            0
        } else {
            self.delay_lines[0].len()
        }
    }

    /// Current read cursor into the delay lines.
    pub fn read_index(&self) -> (r: usize)
        ensures
            r == self@.read_index,
    {
        self.read_index
    }

    /// Zeroes all per-channel history and rewinds the read cursor, without
    /// changing the delay-line sizing. Used to prevent audio ghosts across
    /// stream restarts.
    pub fn reset(&mut self)
        requires
            old(self)@.wf(),
        ensures
            final(self)@.wf(),
            final(self)@.lines.len() == old(self)@.lines.len(),
            forall|c: int|
                0 <= c < old(self)@.channels() ==> (#[trigger] final(self)@.lines[c]).len()
                    == old(self)@.lines[c].len(),
            forall|c: int, q: int|
                0 <= c < old(self)@.channels() && 0 <= q < old(self)@.lines[c].len()
                    ==> #[trigger] final(self)@.lines[c][q] == 0,
            final(self)@.read_index == 0,
            final(self)@ == (DelayView {
                lines: final(self)@.lines,
                read_index: 0,
                ..old(self)@
            }),
    {
        let num_ch = self.delay_lines.len();
        let mut c: usize = 0;
        while c < num_ch
            invariant
                c <= num_ch,
                self.delay_lines@.len() == num_ch,
                forall|j: int|
                    c <= j < num_ch ==> #[trigger] self.delay_lines@[j]
                        == old(self).delay_lines@[j],
                forall|j: int|
                    0 <= j < c ==> (#[trigger] self.delay_lines@[j])@.len()
                        == old(self).delay_lines@[j]@.len(),
                forall|j: int, q: int|
                    0 <= j < c && 0 <= q < self.delay_lines@[j]@.len()
                        ==> #[trigger] self.delay_lines@[j]@[q] == 0,
                self.sample_rate == old(self).sample_rate,
                self.delay_time == old(self).delay_time,
                self.feedback == old(self).feedback,
                self.dry_gain == old(self).dry_gain,
                self.wet_gain == old(self).wet_gain,
                self.delay_int == old(self).delay_int,
                self.delay_frac == old(self).delay_frac,
                self.read_index == old(self).read_index,
            decreases num_ch - c,
        {
            let len_c = self.delay_lines[c].len();
            let z = zero_vec(len_c);
            self.delay_lines.set(c, z);
            c = c + 1;
        }
        self.read_index = 0;
        proof {
            let pre = old(self)@;
            let post = self@;
            assert(forall|j: int|
                0 <= j < post.channels() ==> (#[trigger] post.lines[j]).len()
                    == pre.lines[j].len());
            assert(post.line_len() == pre.line_len());
            assert(forall|j: int|
                0 <= j < post.channels() ==> (#[trigger] post.lines[j]).len()
                    == post.line_len());
        }
    }

    /// Sizes and zeroes the delay lines for a new audio format and recomputes
    /// the delay in samples from the current delay time. Must be called
    /// before the first block is processed and after every sample-rate
    /// change. `block_size` is accepted for the lifecycle contract but does
    /// not influence sizing, which depends on `MAX_DELAY_MS` alone.
    pub fn prepare(&mut self, sample_rate: u64, _block_size: usize)
        requires
            old(self)@.wf(),
            1 <= sample_rate <= RATE_LIMIT,
        ensures
            final(self)@.wf(),
            final(self)@.sample_rate == sample_rate,
            final(self)@.delay_time == old(self)@.delay_time,
            final(self)@.feedback == old(self)@.feedback,
            final(self)@.dry_gain == old(self)@.dry_gain,
            final(self)@.wet_gain == old(self)@.wet_gain,
            final(self)@.channels() == old(self)@.channels(),
            final(self)@.read_index == 0,
            final(self)@.delay_int == old(self)@.delay_time * sample_rate / 1000
                / (SCALE as int),
            final(self)@.delay_frac == (old(self)@.delay_time * sample_rate / 1000) % (
            SCALE as int),
            old(self)@.channels() > 0 ==> final(self)@.prepared(),
            forall|c: int, q: int|
                0 <= c < final(self)@.channels() && 0 <= q < final(self)@.line_len()
                    ==> #[trigger] final(self)@.lines[c][q] == 0,
            old(self)@.channels() > 0 ==> {
                let n = final(self)@.line_len();
                &&& is_pow2(n as u64)
                &&& n >= (MAX_DELAY_MS * sample_rate + 999) / 1000
                &&& (n == 1 || n / 2 < (MAX_DELAY_MS * sample_rate + 999) / 1000)
            },
    {
        self.sample_rate = sample_rate;

        // Derived parameters: the delay in samples, split into integer part
        // and fractional part (in SCALE units of one sample).
        proof {
            lemma_mul_upper_bound(
                self.delay_time as int,
                DELAY_TIME_LIMIT as int,
                sample_rate as int,
                RATE_LIMIT as int,
            );
        }
        let q: u64 = self.delay_time * sample_rate;
        let scaled_samples: u64 = q / 1000;
        proof {
            lemma_div_is_ordered(
                scaled_samples as int,
                (DELAY_TIME_LIMIT * RATE_LIMIT / 1000) as int,
                SCALE as int,
            );
            lemma_div_is_ordered(q as int, (DELAY_TIME_LIMIT * RATE_LIMIT) as int, 1000);
        }
        self.delay_int = scaled_samples / (SCALE as u64);
        self.delay_frac = (scaled_samples % (SCALE as u64)) as i64;

        // Size each delay line to the next power of two holding MAX_DELAY_MS
        // of history, and zero it.
        proof {
            lemma_mul_upper_bound(
                MAX_DELAY_MS as int,
                MAX_DELAY_MS as int,
                sample_rate as int,
                RATE_LIMIT as int,
            );
            lemma_div_is_ordered(1999, (MAX_DELAY_MS * sample_rate + 999) as int, 1000);
            lemma_div_is_ordered(
                (MAX_DELAY_MS * sample_rate + 999) as int,
                (MAX_DELAY_MS * RATE_LIMIT + 999) as int,
                1000,
            );
        }
        let target: u64 = (MAX_DELAY_MS * sample_rate + 999) / 1000;
        let n: u64 = next_pow2(target);
        let num_ch = self.delay_lines.len();
        let mut c: usize = 0;
        while c < num_ch
            invariant
                c <= num_ch,
                self.delay_lines@.len() == num_ch,
                n <= LINE_LEN_LIMIT,
                forall|j: int|
                    0 <= j < c ==> (#[trigger] self.delay_lines@[j])@.len() == n,
                forall|j: int, q2: int|
                    0 <= j < c && 0 <= q2 < n ==> #[trigger] self.delay_lines@[j]@[q2] == 0,
                self.sample_rate == sample_rate,
                self.delay_time == old(self).delay_time,
                self.feedback == old(self).feedback,
                self.dry_gain == old(self).dry_gain,
                self.wet_gain == old(self).wet_gain,
                self.delay_int == scaled_samples / (SCALE as u64),
                self.delay_frac == scaled_samples % (SCALE as u64),
            decreases num_ch - c,
        {
            let z = zero_vec(n as usize);
            self.delay_lines.set(c, z);
            c = c + 1;
        }
        self.read_index = 0;
    }

    /// Transforms one block of samples per channel, in place. Channels are
    /// independent: each channel's output and new delay-line contents are a
    /// function of that channel's input, that channel's delay line, and the
    /// shared parameters and read cursor alone. Afterwards the shared read
    /// cursor has advanced by the block length, reduced by the line length.
    ///
    /// `prepare` must have been called; the block's channel count must match
    /// the engine's; input samples must be within one full scale; and the
    /// feedback gain must be strictly below one, so that the bounded
    /// delay-line headroom is preserved.
    #[verifier::loop_isolation(false)]
    pub fn process_inplace(&mut self, buffer: &mut BufferViewMut)
        requires
            old(self)@.wf(),
            old(self)@.prepared(),
            old(self)@.feedback < SCALE,
            old(buffer).wf(),
            old(buffer)@.len() == old(self)@.channels(),
            forall|c: int, i: int|
                0 <= c < old(buffer)@.len() && 0 <= i < (#[trigger] old(buffer)@[c]).len()
                    ==> -SAMPLE_LIMIT <= #[trigger] old(buffer)@[c][i] <= SAMPLE_LIMIT,
        ensures
            final(self)@.wf(),
            final(buffer).wf(),
            final(buffer)@.len() == old(buffer)@.len(),
            forall|c: int|
                0 <= c < old(buffer)@.len() ==> (#[trigger] final(buffer)@[c]).len()
                    == old(buffer)@[c].len(),
            forall|c: int, i: int|
                0 <= c < old(buffer)@.len() && 0 <= i < (#[trigger] old(buffer)@[c]).len()
                    ==> #[trigger] final(buffer)@[c][i] as int == out_at(
                    old(self)@.lines[c],
                    to_int(old(buffer)@[c]),
                    old(self)@.params(),
                    old(self)@.read_index,
                    i,
                ),
            forall|c: int|
                0 <= c < old(buffer)@.len() ==> #[trigger] final(self)@.lines[c]
                    == line_after(
                    old(self)@.lines[c],
                    to_int(old(buffer)@[c]),
                    old(self)@.params(),
                    old(self)@.read_index,
                    old(buffer)@[c].len() as int,
                ),
            final(self)@.read_index == (old(self)@.read_index + old(buffer)@[0].len())
                % old(self)@.line_len(),
            final(self)@.line_len() == old(self)@.line_len(),
            final(self)@ == (DelayView {
                lines: final(self)@.lines,
                read_index: final(self)@.read_index,
                ..old(self)@
            }),
    {
        let ghost p = old(self)@.params();
        let ghost r0g = old(self)@.read_index;
        let num_samples: usize = buffer.num_samples();
        let num_ch: usize = buffer.num_channels();
        let n_len: usize = self.delay_lines[0].len();
        let r0: usize = self.read_index;
        let d: u64 = self.delay_int;
        let frac: i64 = self.delay_frac;
        let fb: i64 = self.feedback;
        let dry: i64 = self.dry_gain;
        let wet: i64 = self.wet_gain;

        let mut c: usize = 0;
        while c < num_ch
            invariant
                c <= num_ch,
                self.delay_lines@.len() == num_ch,
                buffer@.len() == num_ch,
                forall|j: int|
                    c <= j < num_ch ==> self.delay_lines@[j]
                        == old(self).delay_lines@[j],
                forall|j: int| c <= j < num_ch ==> buffer@[j] == old(buffer)@[j],
                forall|j: int|
                    0 <= j < c ==> (#[trigger] self.delay_lines@[j])@.len() == n_len,
                forall|j: int, q: int|
                    0 <= j < c && 0 <= q < n_len ==> -LINE_LIMIT
                        <= #[trigger] self.delay_lines@[j]@[q] <= LINE_LIMIT,
                forall|j: int|
                    0 <= j < c ==> to_int((#[trigger] self.delay_lines@[j])@)
                        == line_after(
                        old(self)@.lines[j],
                        to_int(old(buffer)@[j]),
                        p,
                        r0g,
                        old(buffer)@[j].len() as int,
                    ),
                forall|j: int|
                    0 <= j < c ==> (#[trigger] buffer@[j]).len() == old(buffer)@[j].len(),
                forall|j: int, i: int|
                    0 <= j < c && 0 <= i < (#[trigger] old(buffer)@[j]).len()
                        ==> #[trigger] buffer@[j][i] as int == out_at(
                        old(self)@.lines[j],
                        to_int(old(buffer)@[j]),
                        p,
                        r0g,
                        i,
                    ),
                self.sample_rate == old(self).sample_rate,
                self.delay_time == old(self).delay_time,
                self.feedback == old(self).feedback,
                self.dry_gain == old(self).dry_gain,
                self.wet_gain == old(self).wet_gain,
                self.delay_int == old(self).delay_int,
                self.delay_frac == old(self).delay_frac,
                self.read_index == old(self).read_index,
            decreases num_ch - c,
        {
            let line = line_at_mut(&mut self.delay_lines, c);
            let samples = buffer.channel_mut(c);
            proof {
                let cc = c as int;
                assert(old(self)@.lines[cc] == to_int(old(self).delay_lines@[cc]@));
                assert(old(self)@.lines[cc].len() == old(self)@.line_len());
                assert(old(self)@.line_len() == n_len);
                assert(line@ == old(self).delay_lines@[cc]@);
                assert(line@.len() == n_len);
                assert forall|q: int|
                    0 <= q < n_len implies -LINE_LIMIT <= #[trigger] old(self)@.lines[cc][q]
                    <= LINE_LIMIT by {
                    assert(0 <= cc < old(self)@.channels());
                    assert(0 <= q < old(self)@.line_len());
                }
                assert forall|q: int|
                    0 <= q < n_len implies -LINE_LIMIT <= #[trigger] line@[q] <= LINE_LIMIT by {
                    assert(old(self)@.lines[cc][q] == line@[q] as int);
                }
                assert(samples@ == old(buffer)@[cc]);
                assert(forall|i: int|
                    0 <= i < samples@.len() ==> -SAMPLE_LIMIT <= #[trigger] samples@[i]
                        <= SAMPLE_LIMIT);
            }
            process_channel(line, samples, r0, d, frac, fb, dry, wet);
            c = c + 1;
        }

        // Advance the shared read cursor by the block length, masked.
        let n: u64 = n_len as u64;
        let mask: u64 = n - 1;
        let step: u64 = (num_samples as u64) % n;
        proof {
            lemma_mod_division_less_than_divisor(num_samples as int, n as int);
            lemma_mask_is_mod((r0 as u64 + step) as u64, n);
            lemma_add_mod_noop_right(r0 as int, num_samples as int, n as int);
            lemma_mod_division_less_than_divisor((r0 + num_samples) as int, n as int);
        }
        self.read_index = ((r0 as u64 + step) & mask) as usize;

        proof {
            let pre = old(self)@;
            let post = self@;
            assert(forall|j: int|
                0 <= j < post.channels() ==> (#[trigger] post.lines[j]).len()
                    == pre.line_len());
            assert(post.line_len() == pre.line_len());
        }
    }

    /// Sets the delay time (scaled milliseconds). Takes effect at the next
    /// `prepare`, which recomputes the derived sample counts.
    pub fn set_delay_time(&mut self, delay: u64)
        requires
            old(self)@.wf(),
            0 < delay <= DELAY_TIME_LIMIT,
        ensures
            final(self)@.wf(),
            final(self)@ == (DelayView { delay_time: delay as int, ..old(self)@ }),
    {
        self.delay_time = delay;
    }

    /// Sets the feedback gain, a fraction of one (`0 ..= SCALE`).
    pub fn set_feedback(&mut self, feedback: i64)
        requires
            old(self)@.wf(),
            0 <= feedback <= SCALE,
        ensures
            final(self)@.wf(),
            final(self)@ == (DelayView { feedback: feedback as int, ..old(self)@ }),
    {
        self.feedback = feedback;
    }

    /// Sets the dry gain (`0 ..= GAIN_LIMIT`).
    pub fn set_dry_gain(&mut self, dry_gain: i64)
        requires
            old(self)@.wf(),
            0 <= dry_gain <= GAIN_LIMIT,
        ensures
            final(self)@.wf(),
            final(self)@ == (DelayView { dry_gain: dry_gain as int, ..old(self)@ }),
    {
        self.dry_gain = dry_gain;
    }

    /// Sets the wet gain (`0 ..= GAIN_LIMIT`).
    pub fn set_wet_gain(&mut self, wet_gain: i64)
        requires
            old(self)@.wf(),
            0 <= wet_gain <= GAIN_LIMIT,
        ensures
            final(self)@.wf(),
            final(self)@ == (DelayView { wet_gain: wet_gain as int, ..old(self)@ }),
    {
        self.wet_gain = wet_gain;
    }
}

impl Effect for DigitalDelay {
    /// Between calls the engine is well-formed.
    open spec fn inv(&self) -> bool {
        self@.wf()
    }

    /// `prepare` needs a positive sample rate within the machine limit.
    open spec fn prepare_req(&self, sample_rate: u64, block_size: usize) -> bool {
        1 <= sample_rate <= RATE_LIMIT
    }

    /// `prepare` records the format, derives the delay in samples from the
    /// current delay time, and sizes and zeroes the delay lines.
    open spec fn prepare_ens(pre: Self, post: Self, sample_rate: u64, block_size: usize) -> bool {
        &&& post@.sample_rate == sample_rate
        &&& post@.delay_time == pre@.delay_time
        &&& post@.feedback == pre@.feedback
        &&& post@.dry_gain == pre@.dry_gain
        &&& post@.wet_gain == pre@.wet_gain
        &&& post@.channels() == pre@.channels()
        &&& post@.read_index == 0
        &&& post@.delay_int == pre@.delay_time * sample_rate / 1000 / (SCALE as int)
        &&& post@.delay_frac == (pre@.delay_time * sample_rate / 1000) % (SCALE as int)
        &&& pre@.channels() > 0 ==> post@.prepared()
        &&& forall|c: int, q: int|
            0 <= c < post@.channels() && 0 <= q < post@.line_len()
                ==> #[trigger] post@.lines[c][q] == 0
        &&& pre@.channels() > 0 ==> {
            let n = post@.line_len();
            &&& is_pow2(n as u64)
            &&& n >= (MAX_DELAY_MS * sample_rate + 999) / 1000
            &&& (n == 1 || n / 2 < (MAX_DELAY_MS * sample_rate + 999) / 1000)
        }
    }

    /// `reset` zeroes every delay line in place and rewinds the read cursor;
    /// sizing and parameters survive unchanged.
    open spec fn reset_ens(pre: Self, post: Self) -> bool {
        &&& post@.lines.len() == pre@.lines.len()
        &&& forall|c: int|
            0 <= c < pre@.channels() ==> (#[trigger] post@.lines[c]).len()
                == pre@.lines[c].len()
        &&& forall|c: int, q: int|
            0 <= c < pre@.channels() && 0 <= q < pre@.lines[c].len()
                ==> #[trigger] post@.lines[c][q] == 0
        &&& post@.read_index == 0
        &&& post@ == (DelayView { lines: post@.lines, read_index: 0, ..pre@ })
    }

    /// A block can be processed once the engine is prepared, if the channel
    /// counts match, input samples are within one full scale, and feedback is
    /// strictly below one.
    open spec fn process_req(&self, buffer: &BufferViewMut) -> bool {
        &&& self@.prepared()
        &&& self@.feedback < SCALE
        &&& buffer.wf()
        &&& buffer@.len() == self@.channels()
        &&& forall|c: int, i: int|
            0 <= c < buffer@.len() && 0 <= i < (#[trigger] buffer@[c]).len() ==> -SAMPLE_LIMIT
                <= #[trigger] buffer@[c][i] <= SAMPLE_LIMIT
    }

    /// Each channel of the output block and each new delay line follow the
    /// per-channel delay recurrence; the shared read cursor advances by the
    /// block length; parameters and sizing survive unchanged.
    open spec fn process_ens(
        pre: Self,
        post: Self,
        input: Seq<Seq<i64>>,
        output: Seq<Seq<i64>>,
    ) -> bool {
        &&& output.len() == input.len()
        &&& forall|c: int|
            0 <= c < input.len() ==> (#[trigger] output[c]).len() == input[c].len()
        &&& forall|c: int, i: int|
            0 <= c < input.len() && 0 <= i < (#[trigger] input[c]).len()
                ==> #[trigger] output[c][i] as int == out_at(
                pre@.lines[c],
                to_int(input[c]),
                pre@.params(),
                pre@.read_index,
                i,
            )
        &&& forall|c: int|
            0 <= c < input.len() ==> #[trigger] post@.lines[c] == line_after(
                pre@.lines[c],
                to_int(input[c]),
                pre@.params(),
                pre@.read_index,
                input[c].len() as int,
            )
        &&& input.len() > 0 ==> post@.read_index == (pre@.read_index + input[0].len())
            % pre@.line_len()
        &&& post@.line_len() == pre@.line_len()
        &&& post@ == (DelayView {
            lines: post@.lines,
            read_index: post@.read_index,
            ..pre@
        })
    }

    fn prepare(&mut self, sample_rate: u64, block_size: usize) {
        self.prepare(sample_rate, block_size)
    }

    fn reset(&mut self) {
        self.reset()
    }

    fn process_inplace(&mut self, buffer: &mut BufferViewMut) {
        self.process_inplace(buffer)
    }
}

/// LAW, multi-channel independence: a channel's output block and new delay
/// line depend only on that channel's input, that channel's delay line, the
/// shared parameters and the shared read cursor. Any two processed blocks —
/// even of different engines — whose channels `c1` and `c2` started from the
/// same delay line and input under the same parameters produce identical
/// samples there: there is no cross-channel leakage at any sample index.
pub proof fn lemma_channel_independence(
    pre1: DigitalDelay,
    post1: DigitalDelay,
    in1: Seq<Seq<i64>>,
    out1: Seq<Seq<i64>>,
    pre2: DigitalDelay,
    post2: DigitalDelay,
    in2: Seq<Seq<i64>>,
    out2: Seq<Seq<i64>>,
    c1: int,
    c2: int,
)
    requires
        DigitalDelay::process_ens(pre1, post1, in1, out1),
        DigitalDelay::process_ens(pre2, post2, in2, out2),
        0 <= c1 < in1.len(),
        0 <= c2 < in2.len(),
        pre1@.params() == pre2@.params(),
        pre1@.read_index == pre2@.read_index,
        pre1@.lines[c1] == pre2@.lines[c2],
        in1[c1] == in2[c2],
    ensures
        out1[c1] == out2[c2],
        post1@.lines[c1] == post2@.lines[c2],
{
    assert(out1[c1].len() == out2[c2].len());
    assert(forall|i: int|
        0 <= i < out1[c1].len() ==> #[trigger] out1[c1][i] as int == out2[c2][i] as int);
    assert(forall|i: int| 0 <= i < out1[c1].len() ==> #[trigger] out1[c1][i] == out2[c2][i]);
    assert(out1[c1] =~= out2[c2]);
}

/// Mutable access to one channel's delay line.
fn line_at_mut(v: &mut Vec<Vec<i64>>, i: usize) -> (r: &mut Vec<i64>)
    requires
        i < old(v)@.len(),
    ensures
        *r == old(v)@[i as int],
        final(v)@ == old(v)@.update(i as int, *final(r)),
{
    &mut v[i]
}

/// The parameters a block is processed under, from the engine's fields.
spec fn params_of(d: u64, frac: i64, fb: i64, dry: i64, wet: i64) -> DelayParams {
    DelayParams {
        delay_int: d as int,
        frac: frac as int,
        feedback: fb as int,
        dry: dry as int,
        wet: wet as int,
    }
}

/// Adding one commutes with reduction modulo `m`.
proof fn lemma_mod_step(a: int, m: int)
    requires
        m >= 1,
    ensures
        ((a % m) + 1) % m == (a + 1) % m,
{
    if m == 1 {
        lemma_mod_division_less_than_divisor(a % 1 + 1, 1);
        lemma_mod_division_less_than_divisor(a + 1, 1);
        lemma_mod_division_less_than_divisor(a, 1);
    } else {
        lemma_small_mod(1, m as nat);
        lemma_add_mod_noop(a, 1, m);
    }
}

/// The magnitude of a product is bounded by the product of the bounds.
proof fn lemma_mul_abs_bound(v: int, b: int, g: int, gb: int)
    requires
        -b <= v <= b,
        0 <= g <= gb,
        0 <= b,
    ensures
        -(b * gb) <= v * g <= b * gb,
{
    assert(-(b * gb) <= v * g <= b * gb) by (nonlinear_arith)
        requires
            -b <= v <= b,
            0 <= g <= gb,
            0 <= b,
    ;
}

/// Runs the delay recurrence over one channel's block, in place.
///
/// `line` is the channel's delay line, `samples` the channel's block, `r0`
/// the shared read cursor; the rest are the engine parameters. The contract
/// ties both final contents to the mathematical model.
#[verifier::loop_isolation(false)]
fn process_channel(
    line: &mut Vec<i64>,
    samples: &mut Vec<i64>,
    r0: usize,
    d: u64,
    frac: i64,
    fb: i64,
    dry: i64,
    wet: i64,
)
    requires
        is_pow2(old(line)@.len() as u64),
        old(line)@.len() <= LINE_LEN_LIMIT,
        r0 < old(line)@.len(),
        d <= DELAY_INT_LIMIT,
        0 <= frac < SCALE,
        0 <= fb < SCALE,
        0 <= dry <= GAIN_LIMIT,
        0 <= wet <= GAIN_LIMIT,
        forall|q: int|
            0 <= q < old(line)@.len() ==> -LINE_LIMIT <= #[trigger] old(line)@[q]
                <= LINE_LIMIT,
        forall|i: int|
            0 <= i < old(samples)@.len() ==> -SAMPLE_LIMIT <= #[trigger] old(samples)@[i]
                <= SAMPLE_LIMIT,
    ensures
        final(line)@.len() == old(line)@.len(),
        final(samples)@.len() == old(samples)@.len(),
        to_int(final(line)@) == line_after(
            to_int(old(line)@),
            to_int(old(samples)@),
            params_of(d, frac, fb, dry, wet),
            r0 as int,
            old(samples)@.len() as int,
        ),
        forall|i: int|
            0 <= i < old(samples)@.len() ==> #[trigger] final(samples)@[i] as int == out_at(
                to_int(old(line)@),
                to_int(old(samples)@),
                params_of(d, frac, fb, dry, wet),
                r0 as int,
                i,
            ),
        forall|q: int|
            0 <= q < final(line)@.len() ==> -LINE_LIMIT <= #[trigger] final(line)@[q]
                <= LINE_LIMIT,
{
    let ghost l0 = to_int(old(line)@);
    let ghost input = to_int(old(samples)@);
    let ghost p = params_of(d, frac, fb, dry, wet);
    let n_us: usize = line.len();
    let n: u64 = n_us as u64;
    let ghost n_i = n as int;
    let mask: u64 = n - 1;
    let len: usize = samples.len();

    let mut r: u64 = r0 as u64;
    proof {
        lemma_small_mod(r0 as nat, n as nat);
        lemma_mask_is_mod((r0 + d) as u64, n);
        lemma_mod_step(r0 + d, n_i);
        lemma_mod_division_less_than_divisor((r0 + d) as int, n_i);
        lemma_mod_division_less_than_divisor((r0 + d + 1) as int, n_i);
    }
    let mut w1: u64 = (r + d) & mask;
    let mut w2: u64 = (w1 + 1) & mask;
    proof {
        lemma_mask_is_mod((w1 + 1) as u64, n);
    }

    let mut i: usize = 0;
    while i < len
        invariant
            i <= len,
            line@.len() == n,
            samples@.len() == len,
            r as int == (r0 + i) % n_i,
            w1 as int == (r0 + i + d) % n_i,
            w2 as int == (r0 + i + d + 1) % n_i,
            r < n,
            w1 < n,
            w2 < n,
            to_int(line@) == line_after(l0, input, p, r0 as int, i as int),
            forall|j: int|
                0 <= j < i ==> #[trigger] samples@[j] as int == out_at(
                    l0,
                    input,
                    p,
                    r0 as int,
                    j,
                ),
            forall|j: int| i <= j < len ==> samples@[j] == old(samples)@[j],
            forall|q: int|
                0 <= q < line@.len() ==> -LINE_LIMIT <= #[trigger] line@[q] <= LINE_LIMIT,
        decreases len - i,
    {
        let ghost line_pre = line@;
        let y: i64 = line[r as usize];

        // Feedback-mixed input: x = input + y * feedback. With feedback
        // strictly below one, the mix stays within LINE_LIMIT.
        proof {
            lemma_mul_abs_bound(y as int, LINE_LIMIT as int, fb as int, (SCALE - 1) as int);
            lemma_div_is_ordered(
                (LINE_LIMIT * (SCALE - 1)) as int,
                (LINE_LIMIT * SCALE) as int,
                SCALE as int,
            );
            lemma_fx_bound(y as int, fb as int, LINE_LIMIT as int);
            lemma_div_is_ordered(
                (LINE_LIMIT * fb) as int,
                (LINE_LIMIT * (SCALE - 1)) as int,
                SCALE as int,
            );
            lemma_mul_inequality(fb as int, (SCALE - 1) as int, LINE_LIMIT as int);
        }
        let t: i64 = scale_gain(y, fb);
        let x: i64 = samples[i] + t;

        // Write-side interpolation: deposit x split across w1 and w2.
        proof {
            lemma_mul_abs_bound(x as int, LINE_LIMIT as int, (SCALE - frac) as int, SCALE as int);
            lemma_mul_abs_bound(x as int, LINE_LIMIT as int, frac as int, SCALE as int);
            lemma_fx_bound(x as int, (SCALE - frac) as int, LINE_LIMIT as int);
            lemma_fx_bound(x as int, frac as int, LINE_LIMIT as int);
        }
        let v1: i64 = scale_gain(x, SCALE - frac);
        let v2: i64 = scale_gain(x, frac);
        line.set(w1 as usize, v1);
        line.set(w2 as usize, v2);

        // Dry/wet mix into the block.
        proof {
            lemma_mul_abs_bound(
                samples@[i as int] as int,
                SAMPLE_LIMIT as int,
                dry as int,
                GAIN_LIMIT as int,
            );
            lemma_mul_abs_bound(y as int, LINE_LIMIT as int, wet as int, GAIN_LIMIT as int);
            lemma_fx_bound(samples@[i as int] as int, dry as int, SAMPLE_LIMIT as int);
            lemma_fx_bound(y as int, wet as int, LINE_LIMIT as int);
            lemma_div_is_ordered(
                (SAMPLE_LIMIT * dry) as int,
                (SAMPLE_LIMIT * GAIN_LIMIT) as int,
                SCALE as int,
            );
            lemma_mul_inequality(dry as int, GAIN_LIMIT as int, SAMPLE_LIMIT as int);
            lemma_div_is_ordered(
                (LINE_LIMIT * wet) as int,
                (LINE_LIMIT * GAIN_LIMIT) as int,
                SCALE as int,
            );
            lemma_mul_inequality(wet as int, GAIN_LIMIT as int, LINE_LIMIT as int);
        }
        let o1: i64 = scale_gain(samples[i], dry);
        let o2: i64 = scale_gain(y, wet);
        let out: i64 = o1 + o2;
        samples.set(i, out);

        // The step matches one unfolding of the model.
        proof {
            lemma_to_int_update(line_pre, w1 as int, v1);
            lemma_to_int_update(line_pre.update(w1 as int, v1), w2 as int, v2);
            assert(to_int(line@) =~= line_after(l0, input, p, r0 as int, i + 1));
        }

        // Advance the cursors, masked.
        proof {
            lemma_mask_is_mod((r + 1) as u64, n);
            lemma_mask_is_mod((w1 + 1) as u64, n);
            lemma_mask_is_mod((w2 + 1) as u64, n);
            lemma_mod_step(r0 + i, n_i);
            lemma_mod_step(r0 + i + d, n_i);
            lemma_mod_step(r0 + i + d + 1, n_i);
            lemma_mod_division_less_than_divisor((r0 + i + 1) as int, n_i);
            lemma_mod_division_less_than_divisor((r0 + i + d + 1) as int, n_i);
            lemma_mod_division_less_than_divisor((r0 + i + d + 2) as int, n_i);
        }
        r = (r + 1) & mask;
        w1 = (w1 + 1) & mask;
        w2 = (w2 + 1) & mask;
        i = i + 1;
    }
}

/// A vector of `len` zero samples.
fn zero_vec(len: usize) -> (r: Vec<i64>)
    ensures
        r@.len() == len,
        forall|q: int| 0 <= q < len ==> r@[q] == 0,
{
    let mut v: Vec<i64> = Vec::new();
    let mut i: usize = 0;
    while i < len
        invariant
            i <= len,
            v@.len() == i,
            forall|q: int| 0 <= q < i ==> v@[q] == 0,
        decreases len - i,
    {
        v.push(0);
        i = i + 1;
    }
    v
}

} // verus!
