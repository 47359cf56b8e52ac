//! Shared value types of the synthesizer core.

use vstd::prelude::*;

verus! {

/// One unit of amplitude in the fixed-point signal scale: a signal value
/// `q: i64` stands for the amplitude `q / 65536`, so `65536` is full
/// positive amplitude (+1.0) and `-65536` full negative amplitude (-1.0).
pub const SIGNAL_UNIT: i64 = 65536;

/// A key event submitted by the embedder: a physical key went down or up.
/// The payload is the note index bound to that key, a chromatic offset from
/// the reference pitch.
#[derive(Clone, Copy, PartialEq, Eq, Structural, Debug)]
pub enum KeyAction {
    Press(i32),
    Release(i32),
}

/// The parameter a slider of the embedding UI controls.  The engine only
/// forwards such updates; it does not interpret them.
#[derive(Clone, Copy, PartialEq, Eq, Structural, Debug)]
pub enum SliderEventType {
    Attack,
    Decay,
    Sustain,
    Release,
}

} // verus!
