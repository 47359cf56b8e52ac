//! The decisions of the UI layer: which physical key maps to which note or
//! setting, and how the plot buffers keep the latest samples.
//!
//! The window system, widgets and rendering live in the embedding program;
//! it converts the window system's key codes to [`BindableKey`] and hands
//! the plot samples over as plain values.

use std::collections::VecDeque;

use vstd::prelude::*;

verus! {

/// The physical keys the keyboard layer knows: two piano-style rows of
/// note keys and three setting keys; everything else is `Other`.
#[derive(Clone, Copy, PartialEq, Eq, Structural, Debug)]
pub enum BindableKey {
    KeyA,
    KeyW,
    KeyS,
    KeyE,
    KeyD,
    KeyF,
    KeyT,
    KeyG,
    KeyY,
    KeyH,
    KeyU,
    KeyJ,
    KeyK,
    KeyO,
    KeyL,
    KeyP,
    KeyN,
    KeyZ,
    KeyX,
    Other,
}

/// A setting changed from the keyboard rather than a note.
#[derive(Clone, Copy, PartialEq, Eq, Structural, Debug)]
pub enum SettingsKey {
    NextSignalFn,
    OctaveUp,
    OctaveDown,
}

/// What a bindable key stands for: a note index for the engine, or a
/// setting handled by the UI itself.
#[derive(Clone, Copy, PartialEq, Eq, Structural, Debug)]
pub enum KeyboardInput {
    KeyInput(i32),
    SettingsInput(SettingsKey),
}

/// The binding table: the two keyboard rows A,W,S,...,P carry one octave
/// and a third of chromatic note indices 0 to 15, and N, Z, X carry the
/// settings.
pub open spec fn binding_of(key: BindableKey) -> Option<KeyboardInput> {
    match key {
        BindableKey::KeyA => Some(KeyboardInput::KeyInput(0)),
        BindableKey::KeyW => Some(KeyboardInput::KeyInput(1)),
        BindableKey::KeyS => Some(KeyboardInput::KeyInput(2)),
        BindableKey::KeyE => Some(KeyboardInput::KeyInput(3)),
        BindableKey::KeyD => Some(KeyboardInput::KeyInput(4)),
        BindableKey::KeyF => Some(KeyboardInput::KeyInput(5)),
        BindableKey::KeyT => Some(KeyboardInput::KeyInput(6)),
        BindableKey::KeyG => Some(KeyboardInput::KeyInput(7)),
        BindableKey::KeyY => Some(KeyboardInput::KeyInput(8)),
        BindableKey::KeyH => Some(KeyboardInput::KeyInput(9)),
        BindableKey::KeyU => Some(KeyboardInput::KeyInput(10)),
        BindableKey::KeyJ => Some(KeyboardInput::KeyInput(11)),
        BindableKey::KeyK => Some(KeyboardInput::KeyInput(12)),
        BindableKey::KeyO => Some(KeyboardInput::KeyInput(13)),
        BindableKey::KeyL => Some(KeyboardInput::KeyInput(14)),
        BindableKey::KeyP => Some(KeyboardInput::KeyInput(15)),
        BindableKey::KeyN => Some(KeyboardInput::SettingsInput(SettingsKey::NextSignalFn)),
        BindableKey::KeyZ => Some(KeyboardInput::SettingsInput(SettingsKey::OctaveDown)),
        BindableKey::KeyX => Some(KeyboardInput::SettingsInput(SettingsKey::OctaveUp)),
        BindableKey::Other => None,
    }
}

/// Maps a physical key to the note or setting it is bound to.
pub fn key_to_binding(key: BindableKey) -> (r: Option<KeyboardInput>)
    ensures
        r == binding_of(key),
{
    match key {
        BindableKey::KeyA => Some(KeyboardInput::KeyInput(0)),
        BindableKey::KeyW => Some(KeyboardInput::KeyInput(1)),
        BindableKey::KeyS => Some(KeyboardInput::KeyInput(2)),
        BindableKey::KeyE => Some(KeyboardInput::KeyInput(3)),
        BindableKey::KeyD => Some(KeyboardInput::KeyInput(4)),
        BindableKey::KeyF => Some(KeyboardInput::KeyInput(5)),
        BindableKey::KeyT => Some(KeyboardInput::KeyInput(6)),
        BindableKey::KeyG => Some(KeyboardInput::KeyInput(7)),
        BindableKey::KeyY => Some(KeyboardInput::KeyInput(8)),
        BindableKey::KeyH => Some(KeyboardInput::KeyInput(9)),
        BindableKey::KeyU => Some(KeyboardInput::KeyInput(10)),
        BindableKey::KeyJ => Some(KeyboardInput::KeyInput(11)),
        BindableKey::KeyK => Some(KeyboardInput::KeyInput(12)),
        BindableKey::KeyO => Some(KeyboardInput::KeyInput(13)),
        BindableKey::KeyL => Some(KeyboardInput::KeyInput(14)),
        BindableKey::KeyP => Some(KeyboardInput::KeyInput(15)),
        BindableKey::KeyN => Some(KeyboardInput::SettingsInput(SettingsKey::NextSignalFn)),
        BindableKey::KeyZ => Some(KeyboardInput::SettingsInput(SettingsKey::OctaveDown)),
        BindableKey::KeyX => Some(KeyboardInput::SettingsInput(SettingsKey::OctaveUp)),
        BindableKey::Other => None,
    }
}

/// Maps a physical key to a setting alone: only the next-signal-function
/// key is bound this way.
pub fn settings_key_bindings(key: BindableKey) -> (r: Option<SettingsKey>)
    ensures
        r == (if key == BindableKey::KeyN {
            Some(SettingsKey::NextSignalFn)
        } else {
            None::<SettingsKey>
        }),
{
    match key {
        BindableKey::KeyN => Some(SettingsKey::NextSignalFn),
        _ => None,
    }
}

/// The last `cap` elements of `s`, in order.
pub open spec fn take_last<T>(s: Seq<T>, cap: int) -> Seq<T> {
    if s.len() <= cap {
        s
    } else {
        s.subrange(s.len() - cap, s.len() as int)
    }
}

/// Appends one batch of plot samples to a bounded plot buffer: after the
/// first pushed sample the buffer keeps the most recent `cap` samples of
/// everything pushed so far and drops the oldest beyond that (a buffer
/// already over `cap` is only trimmed once something is pushed).
pub fn push_samples<T: Copy>(buffer: &mut VecDeque<T>, cap: usize, frame: &Vec<T>)
    ensures
        final(buffer)@ == (if frame@.len() == 0 {
            old(buffer)@
        } else {
            take_last(old(buffer)@ + frame@, cap as int)
        }),
{
    let ghost b0 = buffer@;
    let mut i: usize = 0;
    while i < frame.len()
        invariant
            i <= frame@.len(),
            buffer@ == (if i == 0 {
                b0
            } else {
                take_last(b0 + frame@.take(i as int), cap as int)
            }),
        decreases frame@.len() - i,
    {
        let ghost s0 = b0 + frame@.take(i as int);
        let ghost s1 = b0 + frame@.take(i as int + 1);
        proof {
            assert(s1 =~= s0.push(frame@[i as int]));
            assert(s1.drop_last() =~= s0);
            if i == 0 {
                assert(s0 =~= b0);
            } else if s0.len() > cap as int {
                assert(take_last(s0, cap as int).push(frame@[i as int]) =~= s1.subrange(
                    s1.len() - (cap as int + 1),
                    s1.len() as int,
                ));
            }
        }
        buffer.push_back(frame[i]);
        proof {
            assert(s1.subrange(0, s1.len() as int) =~= s1);
        }
        while buffer.len() > cap
            invariant
                buffer@.len() <= s1.len(),
                buffer@ == s1.subrange(s1.len() - buffer@.len(), s1.len() as int),
                buffer@.len() >= cap as int || buffer@ == s1,
            decreases buffer@.len(),
        {
            let _ = buffer.pop_front();
            proof {
                assert(buffer@ =~= s1.subrange(s1.len() - buffer@.len(), s1.len() as int));
            }
        }
        proof {
            if buffer@.len() >= cap as int {
                assert(buffer@ =~= take_last(s1, cap as int));
            } else {
                assert(buffer@ == s1);
            }
        }
        i += 1;
    }
    proof {
        assert(b0 + frame@.take(frame@.len() as int) =~= b0 + frame@);
    }
}

} // verus!
