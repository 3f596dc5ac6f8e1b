//! Mathematical model of the delay engine's per-channel recurrence.
//!
//! One channel is modelled as a sequence of unbounded integers. Per input
//! sample `i`, with shared read cursor `r0` and line length `n`:
//! the engine reads `y` at `(r0 + i) % n`, forms `x = input[i] + fx(y, fb)`,
//! deposits `fx(x, SCALE - frac)` at `(r0 + i + d) % n` and `fx(x, frac)` one
//! slot later (write-side linear interpolation), and outputs
//! `fx(input[i], dry) + fx(y, wet)`.

use crate::fixed::{fx, lemma_fx_of_zero, lemma_fx_one, lemma_fx_zero, SCALE};
use vstd::arithmetic::div_mod::{
    lemma_basic_div, lemma_div_by_self, lemma_div_is_ordered, lemma_div_minus_one,
    lemma_fundamental_div_mod, lemma_mod_bound, lemma_mod_sub_multiples_vanish,
    lemma_small_mod, lemma_sub_mod_noop,
};
use vstd::prelude::*;

verus! {

/// The parameters a block is processed under.
pub ghost struct DelayParams {
    /// Integer part of the delay, in samples.
    pub delay_int: int,
    /// Fractional part of the delay, in `SCALE` units of one sample.
    pub frac: int,
    /// Feedback gain, in `SCALE` units.
    pub feedback: int,
    /// Dry gain, in `SCALE` units.
    pub dry: int,
    /// Wet gain, in `SCALE` units.
    pub wet: int,
}

/// A sequence of samples, widened to unbounded integers.
pub open spec fn to_int(s: Seq<i64>) -> Seq<int> {
    s.map_values(|v: i64| v as int)
}

/// Delay-line contents after the first `k` samples of `input` have been
/// processed, starting from line contents `line0` and read cursor `r0`.
pub open spec fn line_after(
    line0: Seq<int>,
    input: Seq<int>,
    p: DelayParams,
    r0: int,
    k: int,
) -> Seq<int>
    decreases k,
{
    if k <= 0 {
        line0
    } else {
        let n = line0.len() as int;
        let prev = line_after(line0, input, p, r0, k - 1);
        let i = k - 1;
        let y = prev[(r0 + i) % n];
        let x = input[i] + fx(y, p.feedback);
        prev.update((r0 + i + p.delay_int) % n, fx(x, SCALE - p.frac)).update(
            (r0 + i + p.delay_int + 1) % n,
            fx(x, p.frac),
        )
    }
}

/// Widening commutes with a point update.
pub proof fn lemma_to_int_update(s: Seq<i64>, i: int, v: i64)
    requires
        0 <= i < s.len(),
    ensures
        to_int(s.update(i, v)) =~= to_int(s).update(i, v as int),
{
}

/// The output sample the engine produces at block position `i`.
pub open spec fn out_at(
    line0: Seq<int>,
    input: Seq<int>,
    p: DelayParams,
    r0: int,
    i: int,
) -> int {
    let n = line0.len() as int;
    let y = line_after(line0, input, p, r0, i)[(r0 + i) % n];
    fx(input[i], p.dry) + fx(y, p.wet)
}

/// Boundary behaviour of the single-cursor write scheme, reproduced
/// faithfully: the second (fractional) write slot of block position `i`
/// coincides with the first write slot of position `i + 1`, so with a
/// non-zero fractional delay the `fx(x, frac)` deposit of a sample is
/// overwritten by the next sample's `fx(x, SCALE - frac)` deposit before it
/// is ever read — an overwrite, not an accumulation.
pub proof fn lemma_fractional_write_overwritten(p: DelayParams, r0: int, i: int, n: int)
    ensures
        (r0 + i + p.delay_int + 1) % n == (r0 + (i + 1) + p.delay_int) % n,
{
}

/// LAW: with a dry gain of one and a wet gain of zero, the output block
/// equals the input block exactly, whatever the delay time, feedback and
/// line contents.
pub proof fn lemma_dry_identity(
    line0: Seq<int>,
    input: Seq<int>,
    p: DelayParams,
    r0: int,
    i: int,
)
    requires
        p.dry == SCALE,
        p.wet == 0,
        0 <= i < input.len(),
    ensures
        out_at(line0, input, p, r0, i) == input[i],
{
    let n = line0.len() as int;
    lemma_fx_one(input[i]);
    lemma_fx_zero(line_after(line0, input, p, r0, i)[(r0 + i) % n]);
}

/// The value the engine deposits into the delay line while processing block
/// position `j` of `input`, for an integer delay of `d` samples and feedback
/// gain `f`: the input sample plus the feedback-scaled deposit from `d`
/// samples earlier.
pub open spec fn echo(input: Seq<int>, d: int, f: int, j: int) -> int
    decreases j,
{
    if j < 0 {
        0
    } else if j < d || d < 1 {
        input[j]
    } else {
        input[j] + fx(echo(input, d, f, j - d), f)
    }
}

/// Which block position's deposit lives in delay-line slot `q`.
pub open spec fn slot_src(q: int, r0: int, d: int, n: int) -> int {
    (q - r0 - d) % n
}

/// Reducing a slot index modulo `n` does not change which block position's
/// deposit it holds.
proof fn lemma_slot_src_inverse(j: int, r0: int, d: int, n: int)
    requires
        1 <= n,
        0 <= j < n,
    ensures
        slot_src((r0 + j + d) % n, r0, d, n) == j,
{
    let a = r0 + j + d;
    let x = a % n;
    lemma_mod_bound(a, n);
    lemma_small_mod(x as nat, n as nat);
    lemma_sub_mod_noop(x, r0 + d, n);
    lemma_sub_mod_noop(a, r0 + d, n);
    lemma_small_mod(j as nat, n as nat);
    assert((x - (r0 + d)) % n == (x % n - (r0 + d) % n) % n);
    assert((a - (r0 + d)) % n == (a % n - (r0 + d) % n) % n);
    assert((a - (r0 + d)) % n == j % n);
}

/// LAW, line evolution: starting from an all-zero delay line with no
/// fractional delay and no wrap-around within the block, the line after `k`
/// processed samples holds exactly the deposits `echo(input, d, f, j)` of the
/// block positions `j < k`, each in slot `(r0 + j + d) % n`, and zeros
/// elsewhere.
pub proof fn lemma_line_evolution(
    line0: Seq<int>,
    input: Seq<int>,
    p: DelayParams,
    r0: int,
    k: int,
)
    requires
        1 <= line0.len(),
        forall|q: int| 0 <= q < line0.len() ==> line0[q] == 0,
        0 <= r0 < line0.len(),
        1 <= p.delay_int,
        p.frac == 0,
        p.delay_int + input.len() <= line0.len(),
        0 <= k <= input.len(),
    ensures
        line_after(line0, input, p, r0, k).len() == line0.len(),
        forall|q: int|
            0 <= q < line0.len() ==> #[trigger] line_after(line0, input, p, r0, k)[q] == (
            if 0 <= slot_src(q, r0, p.delay_int, line0.len() as int) < k {
                echo(
                    input,
                    p.delay_int,
                    p.feedback,
                    slot_src(q, r0, p.delay_int, line0.len() as int),
                )
            } else {
                0
            }),
    decreases k,
{
    let n = line0.len() as int;
    let d = p.delay_int;
    let f = p.feedback;
    if k > 0 {
        lemma_line_evolution(line0, input, p, r0, k - 1);
        let prev = line_after(line0, input, p, r0, k - 1);
        let cur = line_after(line0, input, p, r0, k);
        let i = k - 1;
        let r = (r0 + i) % n;
        let w1 = (r0 + i + d) % n;
        let w2 = (r0 + i + d + 1) % n;
        lemma_mod_bound(r0 + i, n);
        lemma_mod_bound(r0 + i + d, n);
        lemma_mod_bound(r0 + i + d + 1, n);

        // The read slot holds the deposit of position i - d, or zero.
        let y = prev[r];
        assert(r == (r0 + (i - d) + d) % n);
        if i >= d {
            lemma_small_mod((i - d) as nat, n as nat);
            lemma_slot_src_inverse(i - d, r0, d, n);
            assert(y == echo(input, d, f, (i - d)));
        } else {
            lemma_mod_sub_multiples_vanish(r0 + i, n);
            assert((r0 + i - n) % n == (r0 + i) % n);
            assert(slot_src(r, r0, d, n) == ((i - d) % n)) by {
                lemma_slot_src_inverse_general(i - d, r0, d, n);
            }
            assert((i - d) % n == i - d + n) by {
                lemma_small_mod((i - d + n) as nat, n as nat);
                lemma_mod_sub_multiples_vanish(i - d + n, n);
            }
            assert(i - d + n >= k);
            assert(y == 0);
        }

        // The deposited value is echo(input, d, f, i).
        let x = input[i] + fx(y, f);
        if i < d {
            lemma_fx_of_zero(f);
            assert(x == input[i]);
        }
        assert(x == echo(input, d, f, i));

        // One unfolding of the model: write x at w1, zero at w2.
        lemma_fx_one(x);
        lemma_fx_zero(x);
        assert(cur == prev.update(w1, fx(x, SCALE - 0)).update(w2, fx(x, 0)));
        assert(cur == prev.update(w1, x).update(w2, 0));

        lemma_slot_src_inverse(i, r0, d, n);
        assert(slot_src(w1, r0, d, n) == i);
        lemma_slot_src_inverse(i + 1, r0, d, n);
        assert(slot_src(w2, r0, d, n) == i + 1);

        assert forall|q: int| 0 <= q < n implies #[trigger] cur[q] == (
        if 0 <= slot_src(q, r0, d, n) < k {
            echo(input, d, f, slot_src(q, r0, d, n))
        } else {
            0
        }) by {
            if q == w2 {
                assert(cur[q] == 0);
                assert(slot_src(q, r0, d, n) == i + 1);
            } else if q == w1 {
                assert(cur[q] == x);
                assert(slot_src(q, r0, d, n) == i);
            } else {
                assert(cur[q] == prev[q]);
                if slot_src(q, r0, d, n) == i {
                    // Only w1 has source i.
                    lemma_slot_src_complete(q, r0, d, n);
                    assert(q == (r0 + i + d) % n);
                    assert(false);
                }
            }
        }
    }
}

/// The value the engine reads back at block position `i`: the deposit made
/// `d` positions earlier, or zero while the delay has not elapsed.
pub proof fn lemma_read_value(
    line0: Seq<int>,
    input: Seq<int>,
    p: DelayParams,
    r0: int,
    i: int,
)
    requires
        1 <= line0.len(),
        forall|q: int| 0 <= q < line0.len() ==> line0[q] == 0,
        0 <= r0 < line0.len(),
        1 <= p.delay_int,
        p.frac == 0,
        p.delay_int + input.len() <= line0.len(),
        0 <= i < input.len(),
    ensures
        line_after(line0, input, p, r0, i)[(r0 + i) % (line0.len() as int)] == (
        if i >= p.delay_int {
            echo(input, p.delay_int, p.feedback, i - p.delay_int)
        } else {
            0
        }),
{
    let n = line0.len() as int;
    let d = p.delay_int;
    lemma_line_evolution(line0, input, p, r0, i);
    let r = (r0 + i) % n;
    lemma_mod_bound(r0 + i, n);
    assert(r == (r0 + (i - d) + d) % n);
    if i >= d {
        lemma_small_mod((i - d) as nat, n as nat);
        lemma_slot_src_inverse(i - d, r0, d, n);
    } else {
        lemma_slot_src_inverse_general(i - d, r0, d, n);
        assert((i - d) % n == i - d + n) by {
            lemma_small_mod((i - d + n) as nat, n as nat);
            lemma_mod_sub_multiples_vanish(i - d + n, n);
        }
        assert(i - d + n >= i);
    }
}

/// LAW: with zero feedback, a zero dry gain, a wet gain of one, no
/// fractional delay, an all-zero delay line and no wrap-around within the
/// block, the output is silent for the first `d` positions and then
/// reproduces the input shifted by `d` samples, exactly.
pub proof fn lemma_pure_delay(
    line0: Seq<int>,
    input: Seq<int>,
    p: DelayParams,
    r0: int,
    i: int,
)
    requires
        1 <= line0.len(),
        forall|q: int| 0 <= q < line0.len() ==> line0[q] == 0,
        0 <= r0 < line0.len(),
        1 <= p.delay_int,
        p.frac == 0,
        p.feedback == 0,
        p.dry == 0,
        p.wet == SCALE,
        p.delay_int + input.len() <= line0.len(),
        0 <= i < input.len(),
    ensures
        out_at(line0, input, p, r0, i) == (
        if i >= p.delay_int {
            input[i - p.delay_int]
        } else {
            0
        }),
{
    let n = line0.len() as int;
    let d = p.delay_int;
    lemma_read_value(line0, input, p, r0, i);
    let y = line_after(line0, input, p, r0, i)[(r0 + i) % n];
    lemma_fx_zero(input[i]);
    lemma_fx_one(y);
    if i >= d {
        lemma_echo_no_feedback(input, d, i - d);
    }
}

/// With zero feedback every deposit is just the input sample.
proof fn lemma_echo_no_feedback(input: Seq<int>, d: int, j: int)
    requires
        1 <= d,
        0 <= j < input.len(),
    ensures
        echo(input, d, 0, j) == input[j],
    decreases j,
{
    if j >= d {
        lemma_echo_no_feedback(input, d, j - d);
        lemma_fx_zero(echo(input, d, 0, j - d));
    }
}

/// The amplitude of the `k`-th round through the feedback path: the impulse
/// amplitude with the feedback gain applied `k` times.
pub open spec fn echo_amp(amp: int, f: int, k: int) -> int
    decreases k,
{
    if k <= 0 {
        amp
    } else {
        fx(echo_amp(amp, f, k - 1), f)
    }
}

/// Under an impulse input, the deposits form a geometric train: position
/// `k * d` holds the amplitude after `k` feedback round trips, every other
/// position holds zero.
proof fn lemma_impulse_echo(input: Seq<int>, d: int, f: int, amp: int, j: int)
    requires
        1 <= input.len(),
        input[0] == amp,
        forall|t: int| 1 <= t < input.len() ==> input[t] == 0,
        1 <= d,
        0 <= j < input.len(),
    ensures
        echo(input, d, f, j) == (
        if j % d == 0 {
            echo_amp(amp, f, j / d)
        } else {
            0
        }),
    decreases j,
{
    if j < d {
        lemma_small_mod(j as nat, d as nat);
        lemma_basic_div(j, d);
    } else {
        lemma_impulse_echo(input, d, f, amp, j - d);
        lemma_mod_sub_multiples_vanish(j, d);
        lemma_div_minus_one(j, d);
        if j % d == 0 {
            lemma_div_is_ordered(d, j, d);
            lemma_div_by_self(d);
            assert(j / d >= 1);
        } else {
            lemma_fx_of_zero(f);
        }
    }
}

/// LAW: with a zero dry gain, a wet gain of one, no fractional delay,
/// feedback gain `f`, an all-zero delay line and no wrap-around within the
/// block, an impulse of amplitude `amp` produces an echo train: the output
/// is non-zero only at whole multiples `k * d` of the integer delay (k >= 1),
/// where it equals the impulse amplitude with the feedback gain applied
/// `k - 1` times.
pub proof fn lemma_impulse_response(
    line0: Seq<int>,
    input: Seq<int>,
    p: DelayParams,
    r0: int,
    amp: int,
    i: int,
)
    requires
        1 <= line0.len(),
        forall|q: int| 0 <= q < line0.len() ==> line0[q] == 0,
        0 <= r0 < line0.len(),
        1 <= p.delay_int,
        p.frac == 0,
        p.dry == 0,
        p.wet == SCALE,
        p.delay_int + input.len() <= line0.len(),
        1 <= input.len(),
        input[0] == amp,
        forall|t: int| 1 <= t < input.len() ==> input[t] == 0,
        0 <= i < input.len(),
    ensures
        out_at(line0, input, p, r0, i) == (
        if i >= p.delay_int && i % p.delay_int == 0 {
            echo_amp(amp, p.feedback, i / p.delay_int - 1)
        } else {
            0
        }),
{
    let n = line0.len() as int;
    let d = p.delay_int;
    lemma_read_value(line0, input, p, r0, i);
    let y = line_after(line0, input, p, r0, i)[(r0 + i) % n];
    lemma_fx_zero(input[i]);
    lemma_fx_one(y);
    if i >= d {
        lemma_impulse_echo(input, d, p.feedback, amp, i - d);
        lemma_mod_sub_multiples_vanish(i, d);
        lemma_div_minus_one(i, d);
    } else {
        lemma_mod_bound(i, d);
        if i % d == 0 && i >= d {
            assert(false);
        }
    }
}

/// `slot_src` is a two-sided inverse: every slot is the deposit slot of its
/// source position.
proof fn lemma_slot_src_complete(q: int, r0: int, d: int, n: int)
    requires
        1 <= n,
        0 <= q < n,
    ensures
        q == (r0 + slot_src(q, r0, d, n) + d) % n,
{
    let j = (q - r0 - d) % n;
    lemma_mod_bound(q - r0 - d, n);
    lemma_fundamental_div_mod(q - r0 - d, n);
    let t = (q - r0 - d) / n;
    assert(q - r0 - d == n * t + j);
    assert(r0 + j + d == q - n * t);
    assert(n * (-t) == -(n * t)) by (nonlinear_arith);
    lemma_mod_multiples_vanish_int(-t, q, n);
    lemma_small_mod(q as nat, n as nat);
}

/// `(q + n * a) % n == q % n` for any integers.
proof fn lemma_mod_multiples_vanish_int(a: int, q: int, n: int)
    requires
        1 <= n,
    ensures
        (q + n * a) % n == q % n,
{
    vstd::arithmetic::div_mod::lemma_mod_multiples_vanish(a, q, n);
}

/// Like `lemma_slot_src_inverse` without the range bound on `j`: the source
/// of slot `(r0 + j + d) % n` is `j % n`.
proof fn lemma_slot_src_inverse_general(j: int, r0: int, d: int, n: int)
    requires
        1 <= n,
    ensures
        slot_src((r0 + j + d) % n, r0, d, n) == j % n,
{
    let a = r0 + j + d;
    let x = a % n;
    lemma_mod_bound(a, n);
    lemma_small_mod(x as nat, n as nat);
    lemma_sub_mod_noop(x, r0 + d, n);
    lemma_sub_mod_noop(a, r0 + d, n);
    assert((x - (r0 + d)) % n == (x % n - (r0 + d) % n) % n);
    assert((a - (r0 + d)) % n == (a % n - (r0 + d) % n) % n);
}

} // verus!
