//! Conversion of signal values into the device's sample encodings, and the
//! fan-out of one value over all channels of a frame.
//!
//! A signal value `q: i64` is a fixed-point amplitude: `q / 65536` is the
//! amplitude as a real number, so `65536` stands for +1.0 and `-65536` for
//! -1.0 (see [`crate::types::SIGNAL_UNIT`]).  The engine writes devices in
//! three encodings: `F32` takes the amplitude as it is (no conversion
//! happens here), `I16` takes `⌊amplitude · 32767⌋` saturated to the `i16`
//! range, and `U16` takes `⌊(amplitude · 0.5 + 0.5) · 65535⌋` saturated to
//! the `u16` range.

use vstd::arithmetic::div_mod::lemma_div_is_ordered;
use vstd::arithmetic::div_mod::lemma_div_multiples_vanish;
use vstd::arithmetic::div_mod::lemma_div_pos_is_pos;
use vstd::arithmetic::div_mod::lemma_fundamental_div_mod_converse;
use vstd::arithmetic::div_mod::lemma_hoist_over_denominator;
use vstd::prelude::*;

verus! {

/// `v` saturated into the closed range `[lo, hi]`.
pub open spec fn sat(v: int, lo: int, hi: int) -> int {
    if v < lo {
        lo
    } else if v > hi {
        hi
    } else {
        v
    }
}

/// The I16 sample for the signal value `q`: `⌊(q / 65536) · 32767⌋`,
/// saturated to the `i16` range.
pub open spec fn i16_sample(q: i64) -> int {
    sat((q as int * 32767) / 65536, -32768, 32767)
}

/// The U16 sample for the signal value `q`:
/// `⌊((q / 65536) · 0.5 + 0.5) · 65535⌋`, saturated to the `u16` range.
pub open spec fn u16_sample(q: i64) -> int {
    sat(((q as int + 65536) * 65535) / 131072, 0, 65535)
}

/// Beyond twice full amplitude the I16 sample is pinned to the end of its
/// range, so clamping the input there does not change the sample.
proof fn lemma_i16_sample_clamped(q: i64)
    ensures
        q > 131072 ==> i16_sample(q) == i16_sample(131072i64),
        q < -131072 ==> i16_sample(q) == i16_sample(-131072i64),
{
    lemma_div_multiples_vanish(65534int, 65536int);
    assert(131072 * 32767 == 65536 * 65534);
    assert((131072 * 32767) / 65536 == 65534);
    lemma_div_multiples_vanish(-65534int, 65536int);
    assert(-131072 * 32767 == 65536 * -65534);
    assert((-131072 * 32767) / 65536 == -65534);
    if q > 131072 {
        lemma_div_is_ordered(131072int * 32767, q as int * 32767, 65536int);
    }
    if q < -131072 {
        lemma_div_is_ordered(q as int * 32767, -131072int * 32767, 65536int);
    }
}

/// Beyond three times full amplitude the U16 sample is pinned to the end of
/// its range, so clamping the input there does not change the sample.
proof fn lemma_u16_sample_clamped(q: i64)
    ensures
        q > 262144 ==> u16_sample(q) == u16_sample(262144i64),
        q < -262144 ==> u16_sample(q) == u16_sample(-262144i64),
{
    if q > 262144 {
        lemma_div_multiples_vanish(65536int, 131072int);
        assert((131072 * 65536) / 131072 == 65536);
        lemma_div_is_ordered(131072int * 65536, (262144int + 65536) * 65535, 131072int);
        lemma_div_is_ordered((262144int + 65536) * 65535, (q as int + 65536) * 65535, 131072int);
    }
    if q < -262144 {
        lemma_div_multiples_vanish(-1int, 131072int);
        assert((131072 * -1) / 131072 == -1);
        lemma_div_is_ordered((q as int + 65536) * 65535, 131072int * -1, 131072int);
        lemma_div_is_ordered((-262144int + 65536) * 65535, 131072int * -1, 131072int);
    }
}

/// Encodes a signal value as an I16 sample.
pub fn encode_i16(q: i64) -> (r: i16)
    ensures
        r as int == i16_sample(q),
{
    let qc: i64 = if q < -131072 {
        -131072
    } else if q > 131072 {
        131072
    } else {
        q
    };
    proof {
        lemma_i16_sample_clamped(q);
    }
    let t: u64 = (qc + 131072) as u64;
    let u: u64 = (t * 32767) / 65536;
    proof {
        lemma_hoist_over_denominator(qc as int * 32767, 65534, 65536nat);
        assert(t as int * 32767 == qc as int * 32767 + 65534 * 65536);
        lemma_div_is_ordered(0int, t as int * 32767, 65536int);
        lemma_div_is_ordered(t as int * 32767, 262144int * 32767, 65536int);
        lemma_div_multiples_vanish(131068int, 65536int);
        assert(262144 * 32767 == 65536 * 131068);
    }
    let d: i64 = (u as i64) - 65534;
    if d < -32768 {
        -32768i16
    } else if d > 32767 {
        32767i16
    } else {
        d as i16
    }
}

/// Encodes a signal value as a U16 sample.
pub fn encode_u16(q: i64) -> (r: u16)
    ensures
        r as int == u16_sample(q),
{
    let qc: i64 = if q < -262144 {
        -262144
    } else if q > 262144 {
        262144
    } else {
        q
    };
    proof {
        lemma_u16_sample_clamped(q);
    }
    let t: u64 = (qc + 327680) as u64;
    let u: u64 = (t * 65535) / 131072;
    proof {
        lemma_hoist_over_denominator((qc as int + 65536) * 65535, 131070, 131072nat);
        assert(t as int * 65535 == (qc as int + 65536) * 65535 + 131070 * 131072);
        lemma_div_is_ordered(0int, t as int * 65535, 131072int);
        lemma_div_is_ordered(t as int * 65535, 589824int * 65535, 131072int);
        lemma_div_multiples_vanish(294912int, 131072int);
        assert(589824 * 65535 <= 131072 * 294912);
        lemma_div_is_ordered(589824int * 65535, 131072int * 294912, 131072int);
    }
    let d: i64 = (u as i64) - 131070;
    if d < 0 {
        0u16
    } else if d > 65535 {
        65535u16
    } else {
        d as u16
    }
}

/// Silent default: the zero signal encodes to the zero of each encoding.
/// For I16 that zero is 0; for U16 it is 32767, the lower of the two middle
/// values (the F32 encoding writes the signal as it is, so its zero is 0.0).
pub proof fn lemma_silence_encodes_to_zero()
    ensures
        i16_sample(0) == 0,
        u16_sample(0) == 32767,
{
    lemma_div_multiples_vanish(0int, 65536int);
    assert((0 * 32767) / 65536 == 0) by {
        assert(0 * 32767 == 65536 * 0);
    }
    lemma_fundamental_div_mod_converse(65536int * 65535, 131072int, 32767int, 65536int);
    assert((0 + 65536) * 65535 == 32767 * 131072 + 65536);
}

/// A sample index `i` within a buffer of whole frames lies in the frame
/// `i / channels`, and that frame index is within the frame values.
proof fn lemma_frame_index_bound(i: int, channels: int, vlen: int)
    requires
        channels >= 1,
        0 <= i,
        i < vlen * channels,
    ensures
        0 <= i / channels < vlen,
{
    lemma_div_pos_is_pos(i, channels);
    lemma_div_is_ordered(i, vlen * channels - 1, channels);
    assert((vlen - 1) * channels + (channels - 1) == vlen * channels - 1) by (nonlinear_arith);
    lemma_fundamental_div_mod_converse(vlen * channels - 1, channels, vlen - 1, channels - 1);
}

/// Writes one value per frame into an interleaved buffer: sample `i`
/// receives the value of frame `i / channels`, so all channels of one frame
/// carry the same value (mono fan-out).
pub fn fill_frames<T: Copy>(buffer: &mut Vec<T>, channels: usize, values: &Vec<T>)
    requires
        channels >= 1,
        old(buffer)@.len() <= values@.len() * (channels as int),
    ensures
        final(buffer)@.len() == old(buffer)@.len(),
        forall|i: int|
            0 <= i < final(buffer)@.len() ==> final(buffer)@[i] == values@[i / (channels as int)],
{
    let n = buffer.len();
    let mut i: usize = 0;
    while i < n
        invariant
            i <= n,
            n == buffer@.len(),
            n <= values@.len() * (channels as int),
            channels >= 1,
            forall|j: int| 0 <= j < i ==> buffer@[j] == values@[j / (channels as int)],
        decreases n - i,
    {
        proof {
            lemma_frame_index_bound(i as int, channels as int, values@.len() as int);
        }
        let v = values[i / channels];
        buffer.set(i, v);
        i += 1;
    }
}

} // verus!
