use vu_meter::processor::{Processor, DEFAULT_PREAMP};
use vu_meter::isqrt::isqrt_u128;
use vu_meter::SCALE;

// A preamp multiplier of 1.0 in fixed-point units.
const UNIT_PREAMP: u32 = 16384;

#[test]
fn new_defaults() {
    let p = Processor::new();
    assert_eq!(p.preamp, DEFAULT_PREAMP);
    assert_eq!(p.preamp, 130143);
    assert_eq!(SCALE, 16384);
}

#[test]
fn empty_history_reads_silence() {
    let p = Processor::new();
    assert_eq!(p.get_hands_for_offset(0), (0, 0));
    assert_eq!(p.get_hands_for_offset(1000), (0, 0));
    assert_eq!(p.get_hands_for_instant(instant::Instant::now()), (0, 0));
}

#[test]
fn running_sum_formula() {
    // rate 10 gives a window of 3 sample pairs; samples of value 5 at unit
    // preamp square to 25, so the per-pair sums are 25, 50, 75, 75, 75.
    let mut p = Processor::new();
    p.set_samplerate(10);
    p.set_preamp(UNIT_PREAMP);
    p.consume_buf(vec![5i64; 10]);
    assert_eq!(p.get_hands_for_offset(0), (2, 2)); // isqrt(25 / 3) = isqrt(8)
    assert_eq!(p.get_hands_for_offset(1), (4, 4)); // isqrt(50 / 3) = isqrt(16)
    assert_eq!(p.get_hands_for_offset(2), (5, 5)); // isqrt(75 / 3) = isqrt(25)
    assert_eq!(p.get_hands_for_offset(3), (5, 5));
    assert_eq!(p.get_hands_for_offset(4), (5, 5));
    // offsets beyond the history clamp to the most recent entry
    assert_eq!(p.get_hands_for_offset(100), (5, 5));
}

#[test]
fn silence_convergence() {
    // feeding at least two windows' worth of zeros drives every queried
    // offset to zero on a fresh processor
    let mut p = Processor::new();
    p.set_samplerate(100); // window of 30 pairs
    p.set_preamp(UNIT_PREAMP);
    p.consume_buf(vec![0i64; 120]); // 60 pairs of silence
    for off in 0..60 {
        assert_eq!(p.get_hands_for_offset(off), (0, 0));
    }
}

#[test]
fn silence_after_noise() {
    // with earlier full-scale content, offsets that cover a full window of
    // zeros read zero; an offset whose window still holds old squares does
    // not
    let mut p = Processor::new();
    p.set_samplerate(10); // window of 3 pairs
    p.set_preamp(UNIT_PREAMP);
    p.consume_buf(vec![SCALE; 8]); // 4 pairs of full scale
    p.consume_buf(vec![0i64; 12]); // 6 pairs of silence
    assert_eq!(p.get_hands_for_offset(2), (0, 0));
    assert_eq!(p.get_hands_for_offset(5), (0, 0));
    // offset 0: window holds two full-scale squares and one zero
    let (l, r) = p.get_hands_for_offset(0);
    assert_eq!((l, r), (13377, 13377)); // isqrt(2 * 16384^2 / 3)
}

#[test]
fn full_scale_convergence() {
    // a full window of full-scale samples at unit preamp reads exactly 1.0
    let mut p = Processor::new();
    p.set_samplerate(10);
    p.set_preamp(UNIT_PREAMP);
    p.consume_buf(vec![SCALE; 8]); // 4 pairs, window holds 3
    assert_eq!(p.get_hands_for_offset(2), (SCALE as u64, SCALE as u64));
    assert_eq!(p.get_hands_for_offset(3), (SCALE as u64, SCALE as u64));
    // a not-yet-full window under-weights: two of three slots filled
    assert_eq!(p.get_hands_for_offset(1), (13377, 13377));
}

#[test]
fn channels_are_independent() {
    // full scale on the left, silence on the right
    let mut p = Processor::new();
    p.set_samplerate(10);
    p.set_preamp(UNIT_PREAMP);
    p.consume_buf(vec![SCALE, 0, SCALE, 0, SCALE, 0, SCALE, 0]);
    assert_eq!(p.get_hands_for_offset(3), (SCALE as u64, 0));
}

#[test]
fn samplerate_change_keeps_history() {
    let mut p = Processor::new();
    p.set_samplerate(10);
    p.set_preamp(UNIT_PREAMP);
    p.consume_buf(vec![5i64; 10]); // per-pair sums 25, 50, 75, 75, 75
    // a rate change alone resizes nothing: the history still holds five
    // entries, though queries now divide by the new window length of 300
    p.set_samplerate(1000);
    assert_eq!(p.get_hands_for_offset(2), (0, 0)); // isqrt(75 / 300)
    // the next consumed buffer is the first to apply the new length
    p.set_samplerate(20); // window of 6 pairs
    p.consume_buf(vec![5i64; 4]); // sums grow: 100, 125
    assert_eq!(p.get_hands_for_offset(0), (4, 4)); // isqrt(100 / 6) = isqrt(16)
    assert_eq!(p.get_hands_for_offset(1), (4, 4)); // isqrt(125 / 6) = isqrt(20)
    // shrinking trims the window down on the next consume
    p.set_samplerate(10);
    p.consume_buf(vec![5i64; 2]); // window back to 3 pairs, sum 75
    assert_eq!(p.get_hands_for_offset(0), (5, 5));
}

#[test]
fn preamp_scales_before_squaring() {
    // a quarter-scale sample under a 2.0 preamp reads as half scale
    let mut p = Processor::new();
    p.set_samplerate(10);
    p.set_preamp(2 * UNIT_PREAMP);
    p.consume_buf(vec![SCALE / 4; 8]);
    assert_eq!(p.get_hands_for_offset(3), ((SCALE / 2) as u64, (SCALE / 2) as u64));
}

#[test]
fn preamp_change_leaves_old_squares() {
    let mut p = Processor::new();
    p.set_samplerate(10);
    p.set_preamp(UNIT_PREAMP);
    p.consume_buf(vec![SCALE; 6]); // window full of 16384^2
    p.set_preamp(0);
    p.consume_buf(vec![SCALE; 2]); // one silent square enters
    assert_eq!(p.get_hands_for_offset(0), (13377, 13377)); // isqrt(2 * 16384^2 / 3)
}

#[test]
fn instant_query_on_steady_state() {
    // with the window already full of full-scale squares, every offset
    // reads the same, so a wall-clock query is exact whatever the elapsed
    // time maps to
    let mut p = Processor::new();
    p.set_samplerate(10);
    p.set_preamp(UNIT_PREAMP);
    p.consume_buf(vec![SCALE; 8]);
    p.consume_buf(vec![SCALE; 8]);
    let hands = p.get_hands_for_instant(instant::Instant::now());
    assert_eq!(hands, (SCALE as u64, SCALE as u64));
}

#[test]
fn empty_buffer_clears_history_not_window() {
    let mut p = Processor::new();
    p.set_samplerate(10);
    p.set_preamp(UNIT_PREAMP);
    p.consume_buf(vec![SCALE; 4]); // two full-scale pairs in the window
    // an empty buffer leaves one history entry per pair of it: none
    p.consume_buf(vec![]);
    assert_eq!(p.get_hands_for_offset(0), (0, 0));
    // but the window and its carried sum are intact: one silent pair later,
    // the window holds two full-scale squares and one zero
    p.consume_buf(vec![0i64; 2]);
    assert_eq!(p.get_hands_for_offset(0), (13377, 13377));
}

#[test]
fn degenerate_window_reads_silence() {
    // a sample rate below 4 Hz gives a window length of zero; the division
    // is coerced to silence at the query boundary
    let mut p = Processor::new();
    p.set_samplerate(1);
    p.set_preamp(UNIT_PREAMP);
    p.consume_buf(vec![SCALE; 4]);
    assert_eq!(p.get_hands_for_offset(0), (0, 0));
}

#[test]
fn isqrt_small_values() {
    assert_eq!(isqrt_u128(0), 0);
    assert_eq!(isqrt_u128(1), 1);
    assert_eq!(isqrt_u128(2), 1);
    assert_eq!(isqrt_u128(3), 1);
    assert_eq!(isqrt_u128(4), 2);
    assert_eq!(isqrt_u128(24), 4);
    assert_eq!(isqrt_u128(25), 5);
    assert_eq!(isqrt_u128(0x1000_0000), 16384);
}

#[test]
fn isqrt_large_values() {
    let max = u64::MAX as u128;
    assert_eq!(isqrt_u128(max * max), u64::MAX);
    assert_eq!(isqrt_u128(max * max - 1), u64::MAX - 1);
    assert_eq!(isqrt_u128(u128::MAX), u64::MAX);
}
