//! Mathematical model of the sliding RMS window.
//!
//! A channel's state is a sequence of squared fixed-point samples (the
//! window) together with the running sums recorded after each processed
//! sample pair. Everything here is pure: the executable processor's
//! contracts are stated over these functions, and the library's laws are
//! proved about them.

use vstd::prelude::*;

verus! {

/// Fixed-point unit: a full-scale sample (amplitude 1.0) is `SCALE`.
pub const SCALE: i64 = 16384;

/// The window covers 0.3 seconds of sample pairs, truncated.
pub open spec fn window_len_of(rate: nat) -> nat {
    (rate * 3) / 10
}

/// Sum of a sequence of squared samples.
pub open spec fn seq_sum(s: Seq<u64>) -> nat
    decreases s.len(),
{
    if s.len() == 0 {
        0
    } else {
        s[0] as nat + seq_sum(s.skip(1))
    }
}

/// The last `n` elements of `s`, or all of `s` if it is shorter.
pub open spec fn keep_last(s: Seq<u64>, n: nat) -> Seq<u64> {
    if s.len() <= n {
        s
    } else {
        s.subrange(s.len() - n, s.len() as int)
    }
}

/// Magnitude of a fixed-point sample.
pub open spec fn abs_val(s: i64) -> nat {
    if s >= 0 {
        s as nat
    } else {
        (-(s as int)) as nat
    }
}

/// The squared magnitude of one sample after preamp gain: the sample is
/// scaled by `preamp` (itself in units of `SCALE`), truncated back to
/// fixed point, and squared.
pub open spec fn square_of(s: i64, preamp: nat) -> nat {
    let p = (abs_val(s) * preamp) / (SCALE as nat);
    p * p
}

/// The squared magnitudes of one channel of an interleaved stereo buffer:
/// channel 0 holds the even indices, channel 1 the odd ones.
pub open spec fn channel_squares(buf: Seq<i64>, chan: int, preamp: nat) -> Seq<u64> {
    Seq::new(buf.len() / 2, |i: int| square_of(buf[2 * i + chan], preamp) as u64)
}

/// The window after feeding the squares `inc` into a window `w` bounded by
/// `wl`: the most recent `wl` squares survive.
pub open spec fn window_after(w: Seq<u64>, inc: Seq<u64>, wl: nat) -> Seq<u64> {
    keep_last(w + inc, wl)
}

/// The running window sum right after the last square of `inc` entered.
pub open spec fn sum_after(w: Seq<u64>, inc: Seq<u64>, wl: nat) -> nat {
    seq_sum(window_after(w, inc, wl))
}

/// The per-pair running-sum history recorded while feeding `inc`: entry `i`
/// is the window sum just after square `inc[i]` entered.
pub open spec fn sums_after(w: Seq<u64>, inc: Seq<u64>, wl: nat) -> Seq<u128> {
    Seq::new(inc.len(), |i: int| sum_after(w, inc.take(i + 1), wl) as u128)
}

/// A time-indexed lookup into the running-sum history: out-of-range offsets
/// clamp to the most recent entry, and an empty history reads as silence.
pub open spec fn query_sum(sums: Seq<u128>, offset: nat) -> nat {
    if sums.len() == 0 {
        0
    } else if offset < sums.len() {
        sums[offset as int] as nat
    } else {
        sums[sums.len() - 1] as nat
    }
}

/// The windowed mean of squares at a query offset; a degenerate window
/// length reads as silence rather than a fault.
pub open spec fn mean_at(sums: Seq<u128>, offset: nat, wl: nat) -> nat {
    if wl == 0 {
        0
    } else {
        query_sum(sums, offset) / wl
    }
}

/// `r` is the integer square root of `n`.
pub open spec fn is_isqrt(n: nat, r: nat) -> bool {
    r * r <= n < (r + 1) * (r + 1)
}

/// Appending one square adds its value to the sum.
pub proof fn lemma_seq_sum_push(s: Seq<u64>, x: u64)
    ensures
        seq_sum(s.push(x)) == seq_sum(s) + x,
    decreases s.len(),
{
    if s.len() == 0 {
        assert(s.push(x).len() == 1);
        assert(s.push(x)[0] == x);
        assert(s.push(x).skip(1) =~= Seq::<u64>::empty());
        assert(seq_sum(Seq::<u64>::empty()) == 0);
    } else {
        lemma_seq_sum_push(s.skip(1), x);
        assert(s.push(x)[0] == s[0]);
        assert(s.push(x).skip(1) =~= s.skip(1).push(x));
        assert(seq_sum(s.push(x)) == s.push(x)[0] as nat + seq_sum(s.push(x).skip(1)));
        assert(seq_sum(s.push(x).skip(1)) == seq_sum(s.skip(1).push(x)));
        assert(seq_sum(s) == s[0] as nat + seq_sum(s.skip(1)));
    }
}

/// A sum of squares is bounded by the count of entries times the largest
/// representable square.
pub proof fn lemma_seq_sum_bound(s: Seq<u64>)
    ensures
        seq_sum(s) <= s.len() * (u64::MAX as nat),
    decreases s.len(),
{
    if s.len() == 0 {
    } else {
        lemma_seq_sum_bound(s.skip(1));
        assert(s[0] as nat <= u64::MAX as nat);
        assert(s.len() * (u64::MAX as nat) == (u64::MAX as nat) + (s.len() - 1) * (u64::MAX as nat))
            by (nonlinear_arith);
    }
}

/// A sequence of equal squares sums to its length times that square.
pub proof fn lemma_seq_sum_const(s: Seq<u64>, c: u64)
    requires
        forall|i: int| 0 <= i < s.len() ==> s[i] == c,
    ensures
        seq_sum(s) == s.len() * (c as nat),
    decreases s.len(),
{
    if s.len() == 0 {
    } else {
        lemma_seq_sum_const(s.skip(1), c);
        assert(s.len() * (c as nat) == (c as nat) + (s.len() - 1) * (c as nat)) by (nonlinear_arith);
    }
}

/// The bounded window keeps exactly the requested count once enough
/// squares have arrived, and everything it has before that.
pub proof fn lemma_keep_last_len(s: Seq<u64>, n: nat)
    ensures
        keep_last(s, n).len() == if s.len() <= n {
            s.len()
        } else {
            n
        },
{
}

/// Trimming a window before appending more squares changes nothing that
/// survives the final trim.
pub proof fn lemma_keep_last_absorb(a: Seq<u64>, b: Seq<u64>, n: nat)
    ensures
        keep_last(keep_last(a, n) + b, n) == keep_last(a + b, n),
{
    let lhs = keep_last(keep_last(a, n) + b, n);
    let rhs = keep_last(a + b, n);
    assert(lhs =~= rhs);
}

/// Pushing one square onto a trimmed window gives the trim of the pushed
/// window.
pub proof fn lemma_keep_last_push(a: Seq<u64>, x: u64, n: nat)
    ensures
        keep_last(keep_last(a, n).push(x), n) == keep_last(a.push(x), n),
{
    let b = seq![x];
    assert(keep_last(a, n).push(x) =~= keep_last(a, n) + b);
    assert(a.push(x) =~= a + b);
    lemma_keep_last_absorb(a, b, n);
}

/// Feeding one more square extends the running-sum history by the new
/// window sum.
pub proof fn lemma_sums_after_extend(w: Seq<u64>, inc: Seq<u64>, i: int, wl: nat)
    requires
        0 <= i < inc.len(),
    ensures
        sums_after(w, inc.take(i + 1), wl) == sums_after(w, inc.take(i), wl).push(
            sum_after(w, inc.take(i + 1), wl) as u128,
        ),
{
    let lhs = sums_after(w, inc.take(i + 1), wl);
    let rhs = sums_after(w, inc.take(i), wl).push(sum_after(w, inc.take(i + 1), wl) as u128);
    assert forall|j: int| 0 <= j < i + 1 implies lhs[j] == rhs[j] by {
        if j < i {
            assert(inc.take(i + 1).take(j + 1) =~= inc.take(j + 1));
            assert(inc.take(i).take(j + 1) =~= inc.take(j + 1));
        } else {
            assert(inc.take(i + 1).take(j + 1) =~= inc.take(i + 1));
        }
    }
    assert(lhs =~= rhs);
}

/// A preamp-scaled square always fits the 64-bit square store.
pub proof fn lemma_square_of_bound(s: i64, preamp: nat)
    requires
        -SCALE <= s <= SCALE,
        preamp <= u32::MAX,
    ensures
        square_of(s, preamp) <= (u32::MAX as nat) * (u32::MAX as nat),
        square_of(s, preamp) < u64::MAX,
{
    let m = abs_val(s);
    let p = (m * preamp) / (SCALE as nat);
    assert(m <= SCALE);
    assert(m * preamp <= (SCALE as nat) * preamp) by (nonlinear_arith)
        requires
            m <= SCALE as nat,
    ;
    assert((SCALE as nat) * preamp / (SCALE as nat) == preamp) by (nonlinear_arith);
    assert(p <= preamp) by (nonlinear_arith)
        requires
            m * preamp <= (SCALE as nat) * preamp,
            (SCALE as nat) * preamp / (SCALE as nat) == preamp,
            p == (m * preamp) / (SCALE as nat),
    ;
    assert(p * p <= (u32::MAX as nat) * (u32::MAX as nat)) by (nonlinear_arith)
        requires
            p <= preamp,
            preamp <= u32::MAX,
    ;
    assert((u32::MAX as nat) * (u32::MAX as nat) < u64::MAX) by (nonlinear_arith);
}

} // verus!
