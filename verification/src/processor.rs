//! The level processor: a bounded-memory sliding-window sum-of-squares
//! accumulator per channel, fed by the capture side's buffer events and
//! queried by the render side at time-indexed offsets.
//!
//! Numeric strategy: fixed-point accumulation. Samples arrive scaled by
//! `SCALE`, are preamp-scaled and squared in integer arithmetic, and the
//! de-scaling divide happens only after the square root at the query
//! boundary. One documented departure from a plain double-ended queue of
//! sums: the running window sum is carried in a dedicated field, so that
//! trimming the per-pair history (or the window itself, after a sample
//! rate change) never lets the recorded sums drift from the squares the
//! window actually holds.

use vstd::prelude::*;
use std::collections::VecDeque;
use instant::Instant;
use crate::window::{
    SCALE, abs_val, channel_squares, is_isqrt, keep_last, lemma_keep_last_push,
    lemma_seq_sum_bound, lemma_seq_sum_push, lemma_square_of_bound, lemma_sums_after_extend,
    mean_at, query_sum, seq_sum, square_of, sums_after, window_after, window_len_of,
};
use crate::isqrt::isqrt_u128;

verus! {

/// Default sample rate before the capture side announces one, in Hz.
pub const DEFAULT_SAMPLERATE: usize = 44100;

/// Default preamp gain, +18 dB, as a fixed-point multiplier in units of
/// `SCALE` (the nearest integer to `10^(18/20) * 16384`).
pub const DEFAULT_PREAMP: u32 = 130143;

#[verifier::external_type_specification]
#[verifier::external_body]
pub struct ExInstant(Instant);

/// Relies on instant::Instant::now: an opaque timestamp for the anchor
/// recorded at each buffer arrival. Nothing is promised of it.
#[verifier::external_body]
fn instant_now() -> Instant {
    Instant::now()
}

/// Relies on instant::Instant::duration_since (which saturates to a zero
/// duration when `now` is the earlier of the two) and on
/// Duration::as_millis to read the elapsed time out as an integer. The
/// result depends on the clock, so nothing is promised of it.
#[verifier::external_body]
fn millis_between(earlier: &Instant, now: &Instant) -> u128 {
    now.duration_since(*earlier).as_millis()
}

/// One channel's window of squared samples and its running-sum history.
struct ChannelWindow {
    /// The squared magnitudes currently inside the window, oldest first.
    squares: VecDeque<u64>,
    /// One running window sum per sample pair of the buffer last consumed.
    sums: VecDeque<u128>,
    /// The sum of everything in `squares`, maintained incrementally.
    current: u128,
}

impl ChannelWindow {
    spec fn wf(&self) -> bool {
        self.current as nat == seq_sum(self.squares@)
    }

    fn new() -> (w: ChannelWindow)
        ensures
            w.wf(),
            w.squares@ == Seq::<u64>::empty(),
            w.sums@ == Seq::<u128>::empty(),
    {
        ChannelWindow { squares: VecDeque::new(), sums: VecDeque::new(), current: 0 }
    }

    /// Start consuming a buffer: drop the stale history and trim the window
    /// down to the current length, keeping the carried sum in step.
    fn begin(&mut self, wl: usize)
        requires
            old(self).wf(),
        ensures
            final(self).wf(),
            final(self).squares@ == keep_last(old(self).squares@, wl as nat),
            final(self).sums@ == Seq::<u128>::empty(),
            final(self).squares@.len() <= wl,
    {
        self.sums.clear();
        while self.squares.len() > wl
            invariant
                self.wf(),
                self.sums@.len() == 0,
                self.squares@.len() <= old(self).squares@.len(),
                self.squares@ == old(self).squares@.skip(
                    old(self).squares@.len() - self.squares@.len(),
                ),
                self.squares@.len() >= wl || self.squares@.len() == old(self).squares@.len(),
            decreases self.squares@.len(),
        {
            let departed = self.squares.pop_front().unwrap();
            proof {
                assert(self.current as nat >= departed as nat);
                assert(self.squares@ =~= old(self).squares@.skip(
                    old(self).squares@.len() - self.squares@.len(),
                ));
            }
            self.current = self.current - (departed as u128);
        }
        proof {
            assert(self.squares@ =~= keep_last(old(self).squares@, wl as nat));
            assert(self.sums@ =~= Seq::<u128>::empty());
        }
    }

    /// Feed one squared sample: it enters the window, the oldest square
    /// leaves once the window is full, and the new window sum is recorded.
    fn push_square(&mut self, sq: u64, wl: usize)
        requires
            old(self).wf(),
            old(self).squares@.len() <= wl,
        ensures
            final(self).wf(),
            final(self).squares@ == keep_last(old(self).squares@.push(sq), wl as nat),
            final(self).squares@.len() <= wl,
            final(self).sums@ == old(self).sums@.push(
                seq_sum(keep_last(old(self).squares@.push(sq), wl as nat)) as u128,
            ),
    {
        proof {
            lemma_seq_sum_bound(self.squares@);
            assert(self.squares@.len() * (u64::MAX as nat) <= (usize::MAX as nat) * (
            u64::MAX as nat)) by (nonlinear_arith)
                requires
                    self.squares@.len() <= usize::MAX,
            ;
            assert((usize::MAX as nat) * (u64::MAX as nat) + (u64::MAX as nat)
                < u128::MAX as nat) by (nonlinear_arith);
        }
        self.squares.push_back(sq);
        let with_new: u128 = self.current + (sq as u128);
        proof {
            lemma_seq_sum_push(old(self).squares@, sq);
        }
        let departed: u64 = if self.squares.len() > wl {
            let d = self.squares.pop_front().unwrap();
            proof {
                assert(self.squares@ =~= keep_last(old(self).squares@.push(sq), wl as nat));
            }
            d
        } else {
            proof {
                assert(self.squares@ =~= keep_last(old(self).squares@.push(sq), wl as nat));
            }
            0
        };
        proof {
            assert(with_new as nat >= departed as nat);
            assert(with_new as nat - departed as nat == seq_sum(self.squares@));
        }
        self.current = with_new - (departed as u128);
        self.sums.push_back(self.current);
    }

    /// Clamped lookup into the running-sum history.
    fn lookup(&self, offset: usize) -> (s: u128)
        ensures
            s as nat == query_sum(self.sums@, offset as nat),
    {
        if self.sums.len() == 0 {
            0
        } else if offset < self.sums.len() {
            self.sums[offset]
        } else {
            self.sums[self.sums.len() - 1]
        }
    }
}

/// Preamp-scale one fixed-point sample and square it.
fn square_sample(s: i64, preamp: u32) -> (r: u64)
    requires
        -SCALE <= s <= SCALE,
    ensures
        r as nat == square_of(s, preamp as nat),
{
    proof {
        lemma_square_of_bound(s, preamp as nat);
    }
    let m: u64 = if s < 0 {
        (-s) as u64
    } else {
        s as u64
    };
    proof {
        assert(m as nat == abs_val(s));
        assert(m * (preamp as u64) <= 16384 * (u32::MAX as nat)) by (nonlinear_arith)
            requires
                m <= 16384,
                preamp <= u32::MAX,
        ;
        assert(16384 * (u32::MAX as nat) < u64::MAX as nat) by (nonlinear_arith);
    }
    let p: u64 = (m * (preamp as u64)) / (SCALE as u64);
    proof {
        assert((p as nat) * (p as nat) == square_of(s, preamp as nat));
    }
    p * p
}

/// The two-channel level processor.
pub struct Processor {
    left: ChannelWindow,
    right: ChannelWindow,
    /// Timestamp of the most recent `consume_buf` call, the reference
    /// point for time-indexed queries.
    head_instant: Instant,
    samplerate: usize,
    /// Preamp gain as a fixed-point multiplier in units of `SCALE`,
    /// applied to each sample before squaring.
    pub preamp: u32,
}

impl Processor {
    /// The sample rate the next `consume_buf` call will size its window by.
    pub closed spec fn samplerate_of(&self) -> nat {
        self.samplerate as nat
    }

    /// The preamp multiplier, in units of `SCALE`.
    pub closed spec fn preamp_of(&self) -> nat {
        self.preamp as nat
    }

    /// The squared magnitudes currently inside the left window.
    pub closed spec fn squares_left(&self) -> Seq<u64> {
        self.left.squares@
    }

    /// The squared magnitudes currently inside the right window.
    pub closed spec fn squares_right(&self) -> Seq<u64> {
        self.right.squares@
    }

    /// The left channel's running-sum history, one entry per sample pair
    /// of the buffer last consumed.
    pub closed spec fn sums_left(&self) -> Seq<u128> {
        self.left.sums@
    }

    /// The right channel's running-sum history.
    pub closed spec fn sums_right(&self) -> Seq<u128> {
        self.right.sums@
    }

    /// Well-formedness: each channel's carried sum matches its window, and
    /// the sample rate is positive and small enough to size a window.
    pub closed spec fn wf(&self) -> bool {
        &&& self.left.wf()
        &&& self.right.wf()
        &&& 1 <= self.samplerate
        &&& self.samplerate * 3 <= usize::MAX
    }

    pub fn new() -> (p: Processor)
        ensures
            p.wf(),
            p.samplerate_of() == DEFAULT_SAMPLERATE,
            p.preamp_of() == DEFAULT_PREAMP as nat,
            p.squares_left() == Seq::<u64>::empty(),
            p.squares_right() == Seq::<u64>::empty(),
            p.sums_left() == Seq::<u128>::empty(),
            p.sums_right() == Seq::<u128>::empty(),
    {
        Processor {
            left: ChannelWindow::new(),
            right: ChannelWindow::new(),
            head_instant: instant_now(),
            samplerate: DEFAULT_SAMPLERATE,
            preamp: DEFAULT_PREAMP,
        }
    }

    /// Update the preamp multiplier applied to samples consumed from now
    /// on. Squares already inside the window keep the gain they were
    /// scaled by.
    pub fn set_preamp(&mut self, preamp: u32)
        requires
            old(self).wf(),
        ensures
            final(self).wf(),
            final(self).preamp_of() == preamp as nat,
            final(self).samplerate_of() == old(self).samplerate_of(),
            final(self).squares_left() == old(self).squares_left(),
            final(self).squares_right() == old(self).squares_right(),
            final(self).sums_left() == old(self).sums_left(),
            final(self).sums_right() == old(self).sums_right(),
    {
        self.preamp = preamp;
    }

    /// Update the sample rate used to size the window on the next
    /// `consume_buf` call. Existing windows and histories are not resized
    /// until then.
    pub fn set_samplerate(&mut self, samplerate: usize)
        requires
            old(self).wf(),
            1 <= samplerate,
            samplerate * 3 <= usize::MAX,
        ensures
            final(self).wf(),
            final(self).samplerate_of() == samplerate as nat,
            final(self).preamp_of() == old(self).preamp_of(),
            final(self).squares_left() == old(self).squares_left(),
            final(self).squares_right() == old(self).squares_right(),
            final(self).sums_left() == old(self).sums_left(),
            final(self).sums_right() == old(self).sums_right(),
    {
        self.samplerate = samplerate;
    }

    /// Consume one interleaved stereo buffer of fixed-point samples.
    ///
    /// For every pair, in arrival order: each channel's sample is
    /// preamp-scaled and squared, the square enters that channel's window,
    /// the oldest square leaves once the window holds `window_len_of`
    /// entries (a not-yet-full window sheds nothing, under-weighting early
    /// samples), and the resulting window sum is recorded in the per-pair
    /// history. The history afterwards holds exactly one entry per pair of
    /// this buffer, and the call time becomes the new query anchor.
    pub fn consume_buf(&mut self, buf: Vec<i64>)
        requires
            old(self).wf(),
            buf@.len() % 2 == 0,
            forall|i: int| 0 <= i < buf@.len() ==> -SCALE <= #[trigger] buf@[i] <= SCALE,
        ensures
            final(self).wf(),
            final(self).samplerate_of() == old(self).samplerate_of(),
            final(self).preamp_of() == old(self).preamp_of(),
            ({
                let wl = window_len_of(old(self).samplerate_of());
                let pre = old(self).preamp_of();
                &&& final(self).squares_left() == window_after(
                    old(self).squares_left(),
                    channel_squares(buf@, 0, pre),
                    wl,
                )
                &&& final(self).squares_right() == window_after(
                    old(self).squares_right(),
                    channel_squares(buf@, 1, pre),
                    wl,
                )
                &&& final(self).sums_left() == sums_after(
                    old(self).squares_left(),
                    channel_squares(buf@, 0, pre),
                    wl,
                )
                &&& final(self).sums_right() == sums_after(
                    old(self).squares_right(),
                    channel_squares(buf@, 1, pre),
                    wl,
                )
            }),
    {
        let window_len: usize = (self.samplerate * 3) / 10;
        self.head_instant = instant_now();
        let ghost w0l = self.left.squares@;
        let ghost w0r = self.right.squares@;
        let ghost wl = window_len as nat;
        let ghost pre = self.preamp as nat;
        let ghost incl = channel_squares(buf@, 0, pre);
        let ghost incr = channel_squares(buf@, 1, pre);
        self.left.begin(window_len);
        self.right.begin(window_len);
        let n: usize = buf.len() / 2;
        proof {
            assert(w0l + incl.take(0) =~= w0l);
            assert(w0r + incr.take(0) =~= w0r);
            assert(sums_after(w0l, incl.take(0), wl) =~= Seq::<u128>::empty());
            assert(sums_after(w0r, incr.take(0), wl) =~= Seq::<u128>::empty());
        }
        let mut i: usize = 0;
        while i < n
            invariant
                i <= n,
                n == buf@.len() / 2,
                buf@.len() <= usize::MAX,
                buf@.len() % 2 == 0,
                forall|j: int| 0 <= j < buf@.len() ==> -SCALE <= #[trigger] buf@[j] <= SCALE,
                self.samplerate == old(self).samplerate,
                self.preamp == old(self).preamp,
                wl == window_len as nat,
                pre == self.preamp as nat,
                incl == channel_squares(buf@, 0, pre),
                incr == channel_squares(buf@, 1, pre),
                self.left.wf(),
                self.right.wf(),
                self.left.squares@.len() <= window_len,
                self.right.squares@.len() <= window_len,
                self.left.squares@ == window_after(w0l, incl.take(i as int), wl),
                self.right.squares@ == window_after(w0r, incr.take(i as int), wl),
                self.left.sums@ == sums_after(w0l, incl.take(i as int), wl),
                self.right.sums@ == sums_after(w0r, incr.take(i as int), wl),
            decreases n - i,
        {
            let sl = square_sample(buf[2 * i], self.preamp);
            let sr = square_sample(buf[2 * i + 1], self.preamp);
            proof {
                lemma_square_of_bound(buf@[2 * i as int], pre);
                lemma_square_of_bound(buf@[2 * i as int + 1], pre);
                assert(sl == incl[i as int]);
                assert(sr == incr[i as int]);
            }
            self.left.push_square(sl, window_len);
            self.right.push_square(sr, window_len);
            proof {
                lemma_keep_last_push(w0l + incl.take(i as int), sl, wl);
                lemma_keep_last_push(w0r + incr.take(i as int), sr, wl);
                assert((w0l + incl.take(i as int)).push(sl) =~= w0l + incl.take(i as int + 1));
                assert((w0r + incr.take(i as int)).push(sr) =~= w0r + incr.take(i as int + 1));
                lemma_sums_after_extend(w0l, incl, i as int, wl);
                lemma_sums_after_extend(w0r, incr, i as int, wl);
            }
            i = i + 1;
        }
        proof {
            assert(incl.take(n as int) =~= incl);
            assert(incr.take(n as int) =~= incr);
        }
    }

    /// Query the current RMS level of both channels at a history offset,
    /// in fixed-point units of `SCALE`: the integer square root of the
    /// windowed mean of squares. Offsets beyond the history clamp to the
    /// most recent entry; an empty history, or a degenerate window length
    /// of zero, reads as silence.
    pub fn get_hands_for_offset(&self, offset: usize) -> (r: (u64, u64))
        requires
            self.wf(),
        ensures
            hands_at(*self, offset as nat, r),
    {
        let window_len: usize = (self.samplerate * 3) / 10;
        if window_len == 0 {
            proof {
                assert(window_len_of(self.samplerate_of()) == 0);
                assert(mean_at(self.sums_left(), offset as nat, 0) == 0);
                assert(mean_at(self.sums_right(), offset as nat, 0) == 0);
                assert(is_isqrt(0, 0)) by {
                    assert((0 as nat) * (0 as nat) == 0) by (nonlinear_arith);
                    assert(((0 as nat) + 1) * ((0 as nat) + 1) == 1) by (nonlinear_arith);
                }
            }
            return (0, 0);
        }
        let sl: u128 = self.left.lookup(offset);
        let sr: u128 = self.right.lookup(offset);
        let ml: u128 = sl / (window_len as u128);
        let mr: u128 = sr / (window_len as u128);
        let rl: u64 = isqrt_u128(ml);
        let rr: u64 = isqrt_u128(mr);
        (rl, rr)
    }

    /// Query the current RMS level of both channels for a point in time:
    /// the elapsed time since the anchor recorded by the last
    /// `consume_buf` call is converted to a sample-pair offset at the
    /// current sample rate. The clock decides the offset, so all that is
    /// promised is that the result is the RMS reading at some offset.
    pub fn get_hands_for_instant(&self, now: Instant) -> (r: (u64, u64))
        requires
            self.wf(),
        ensures
            exists|off: nat| hands_at(*self, off, r),
    {
        let ms: u128 = millis_between(&self.head_instant, &now);
        let offset: usize = if ms >= (u64::MAX as u128) {
            usize::MAX
        } else {
            proof {
                assert((ms as nat) * (self.samplerate as nat) < u128::MAX as nat)
                    by (nonlinear_arith)
                    requires
                        ms < u64::MAX,
                        self.samplerate <= usize::MAX,
                        usize::MAX <= u64::MAX,
                ;
            }
            let o: u128 = ms * (self.samplerate as u128) / 1000;
            if o > (usize::MAX as u128) {
                usize::MAX
            } else {
                o as usize
            }
        };
        let r = self.get_hands_for_offset(offset);
        proof {
            assert(hands_at(*self, offset as nat, r));
        }
        r
    }
}

/// `r` is the pair of fixed-point RMS readings of processor `p` at query
/// offset `offset`.
pub open spec fn hands_at(p: Processor, offset: nat, r: (u64, u64)) -> bool {
    let wl = window_len_of(p.samplerate_of());
    &&& is_isqrt(mean_at(p.sums_left(), offset, wl), r.0 as nat)
    &&& is_isqrt(mean_at(p.sums_right(), offset, wl), r.1 as nat)
}

} // verus!
