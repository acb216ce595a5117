//! Laws of the level model: what a reader may rely on without re-deriving
//! it from the processor's contracts. Each law is stated over the pure
//! window model of `crate::window`, which is exactly what
//! `Processor::consume_buf` and the query functions promise in their
//! `ensures`.

use vstd::prelude::*;
use vstd::arithmetic::div_mod::lemma_div_multiples_vanish;
use crate::window::{
    SCALE, is_isqrt, keep_last, lemma_seq_sum_const, mean_at, query_sum, square_of, sum_after,
    sums_after, window_after, window_len_of,
};

verus! {

/// The squared magnitude of a full-scale sample at unit preamp gain.
pub const FULL_SCALE_SQUARE: u64 = 0x1000_0000;

/// Window sizing: one consumed buffer leaves the window holding the
/// configured length's worth of squares whenever that many have ever
/// arrived, and everything that arrived otherwise. In particular, with at
/// least `window_len_of(rate)` pairs available, the effective window
/// length is exactly `window_len_of(rate)`.
pub proof fn lemma_window_sizing(w: Seq<u64>, inc: Seq<u64>, wl: nat)
    ensures
        window_after(w, inc, wl).len() == if w.len() + inc.len() <= wl {
            w.len() + inc.len()
        } else {
            wl
        },
{
}

/// Silence convergence: after feeding zeros for at least a full window —
/// or into a window that held nothing but silence — the recorded window
/// sum, and with it the queried mean, is exactly zero.
pub proof fn lemma_silence_convergence(w: Seq<u64>, inc: Seq<u64>, wl: nat, i: int)
    requires
        forall|j: int| 0 <= j < inc.len() ==> inc[j] == 0,
        0 <= i < inc.len(),
        wl <= i + 1 || forall|j: int| 0 <= j < w.len() ==> w[j] == 0,
    ensures
        sums_after(w, inc, wl)[i] == 0,
        mean_at(sums_after(w, inc, wl), i as nat, wl) == 0,
{
    let fed = w + inc.take(i + 1);
    let win = keep_last(fed, wl);
    assert forall|j: int| 0 <= j < win.len() implies win[j] == 0 by {
        if fed.len() <= wl {
        } else {
            assert(win[j] == fed[fed.len() - wl + j]);
        }
    }
    lemma_seq_sum_const(win, 0);
    assert(sum_after(w, inc.take(i + 1), wl) == win.len() * 0);
    assert(sums_after(w, inc, wl)[i] == 0);
    assert(query_sum(sums_after(w, inc, wl), i as nat) == 0);
}

/// A full-scale sample at unit preamp gain squares to `FULL_SCALE_SQUARE`.
pub proof fn lemma_full_scale_square()
    ensures
        square_of(SCALE, SCALE as nat) == FULL_SCALE_SQUARE,
{
    assert((16384 as nat) * (16384 as nat) == 0x1000_0000) by (nonlinear_arith);
    assert(((16384 as nat) * (16384 as nat)) / (16384 as nat) == 16384 as nat);
}

/// Full-scale convergence: after feeding full-window-many constant squares
/// `c`, the recorded sum is exactly `wl * c` and the queried mean is
/// exactly `c`. With `c` the square of a full-scale sample at unit preamp
/// gain, the queried RMS is therefore exactly `SCALE`, that is, 1.0.
pub proof fn lemma_full_scale_convergence(w: Seq<u64>, inc: Seq<u64>, wl: nat, i: int, c: u64)
    requires
        forall|j: int| 0 <= j < inc.len() ==> inc[j] == c,
        1 <= wl <= usize::MAX,
        0 <= i < inc.len(),
        wl <= i + 1,
    ensures
        sums_after(w, inc, wl)[i] == wl * (c as nat),
        mean_at(sums_after(w, inc, wl), i as nat, wl) == c as nat,
        c == FULL_SCALE_SQUARE ==> is_isqrt(c as nat, SCALE as nat),
{
    let fed = w + inc.take(i + 1);
    let win = keep_last(fed, wl);
    assert(fed.len() >= wl);
    assert(win.len() == wl);
    assert forall|j: int| 0 <= j < win.len() implies win[j] == c by {
        if fed.len() > wl {
            assert(win[j] == fed[fed.len() - wl + j]);
            assert(fed.len() - wl + j >= w.len());
        }
    }
    lemma_seq_sum_const(win, c);
    assert(sum_after(w, inc.take(i + 1), wl) == wl * (c as nat));
    assert(wl * (c as nat) <= (usize::MAX as nat) * (u64::MAX as nat)) by (nonlinear_arith)
        requires
            wl <= usize::MAX,
            c <= u64::MAX,
    ;
    assert((usize::MAX as nat) * (u64::MAX as nat) < u128::MAX as nat) by (nonlinear_arith);
    assert(sums_after(w, inc, wl)[i] == wl * (c as nat));
    assert(query_sum(sums_after(w, inc, wl), i as nat) == wl * (c as nat));
    lemma_div_multiples_vanish(c as int, wl as int);
    assert((wl * (c as nat)) / wl == c as nat);
    if c == FULL_SCALE_SQUARE {
        assert((16384 as nat) * (16384 as nat) == 0x1000_0000) by (nonlinear_arith);
        assert((16385 as nat) * (16385 as nat) == 0x1000_8001) by (nonlinear_arith);
    }
}

} // verus!
