//! The audio worker: the state the engine keeps between device callbacks
//! and the per-callback algorithm.
//!
//! The embedding program owns the device and the threads.  Once per device
//! callback it hands the worker everything that arrived on the control
//! queues since the last callback (new processors and key events, in queue
//! order) through [`AudioWorker::drain_control`], and then has the worker
//! fill the device buffer through one of the `render` functions.  The
//! worker never blocks: it only consumes what it was handed.

use vstd::arithmetic::div_mod::lemma_basic_div;
use vstd::arithmetic::div_mod::lemma_fundamental_div_mod;
use vstd::arithmetic::div_mod::lemma_fundamental_div_mod_converse;
use vstd::arithmetic::div_mod::lemma_mod_bound;
use vstd::prelude::*;

use crate::keys_state::apply_events;
use crate::keys_state::front_of;
use crate::keys_state::KeysState;
use crate::sample::encode_i16;
use crate::sample::encode_u16;
use crate::sample::i16_sample;
use crate::sample::lemma_silence_encodes_to_zero;
use crate::sample::u16_sample;
use crate::types::KeyAction;

verus! {

/// The sample encodings the engine can write.
#[derive(Clone, Copy, PartialEq, Eq, Structural, Debug)]
pub enum SampleEncoding {
    F32,
    I16,
    U16,
}

/// Why the engine could not start.  All of these are fatal to `start`; the
/// embedder reports them and does not launch.
#[derive(Clone, Copy, PartialEq, Eq, Structural, Debug)]
pub enum EngineStartError {
    /// No default output device was found.
    DeviceUnavailable,
    /// The device reported a format the engine cannot write.
    UnsupportedFormat,
    /// The device opened but refused to play.
    StreamStartFailed,
}

impl EngineStartError {
    /// The description of this error.
    pub open spec fn message_spec(self) -> Seq<char> {
        match self {
            EngineStartError::DeviceUnavailable => "no default output device"@,
            EngineStartError::UnsupportedFormat => "unsupported output format"@,
            EngineStartError::StreamStartFailed => "output stream failed to start"@,
        }
    }

    /// A short description of the error, for the embedder's reporting.
    pub fn message(&self) -> (r: &'static str)
        ensures
            r@ == self.message_spec(),
    {
        match self {
            EngineStartError::DeviceUnavailable => "no default output device",
            EngineStartError::UnsupportedFormat => "unsupported output format",
            EngineStartError::StreamStartFailed => "output stream failed to start",
        }
    }
}

/// What the engine needs to know about the output device: interleaved
/// frames of `channels` samples, `sample_rate` frames per second, samples
/// written in `encoding`.
#[derive(Clone, Copy, PartialEq, Eq, Structural, Debug)]
pub struct DeviceFormat {
    pub channels: u16,
    pub sample_rate: u32,
    pub encoding: SampleEncoding,
}

impl DeviceFormat {
    /// A usable format has at least one channel and a positive rate.
    pub open spec fn wf(&self) -> bool {
        self.channels >= 1 && self.sample_rate >= 1
    }

    /// Checks what the device reported; a format without channels or with a
    /// zero sample rate cannot be written and fails `start`.
    pub fn new(channels: u16, sample_rate: u32, encoding: SampleEncoding) -> (r: Result<
        DeviceFormat,
        EngineStartError,
    >)
        ensures
            channels >= 1 && sample_rate >= 1 ==> r == Ok::<DeviceFormat, EngineStartError>(
                DeviceFormat { channels, sample_rate, encoding },
            ),
            !(channels >= 1 && sample_rate >= 1) ==> r == Err::<DeviceFormat, EngineStartError>(
                EngineStartError::UnsupportedFormat,
            ),
    {
        if channels >= 1 && sample_rate >= 1 {
            Ok(DeviceFormat { channels, sample_rate, encoding })
        } else {
            Err(EngineStartError::UnsupportedFormat)
        }
    }
}

/// The signal-processing callable the embedder installs.  It produces one
/// signal value per frame, in the fixed-point scale of
/// [`crate::types::SIGNAL_UNIT`], given the currently sounding note.  It
/// may carry internal state (an oscillator phase, an envelope); the worker
/// calls it from a single thread only.
pub trait SignalProcessor {
    /// The next signal value for one frame.
    fn process(&mut self, current: Option<i32>) -> i64;
}

/// The number of frames in a buffer of `samples` interleaved samples:
/// `samples / channels`, rounded up for a trailing partial frame.
pub open spec fn frames_in(samples: int, channels: int) -> int {
    (samples + channels - 1) / channels
}

/// Crossing from a frame boundary `i` to `i2`, at most one frame further,
/// fills exactly one more frame.
proof fn lemma_frames_in_step(i: int, i2: int, ch: int)
    requires
        ch >= 1,
        0 <= i,
        i % ch == 0,
        i < i2 <= i + ch,
    ensures
        frames_in(i2, ch) == frames_in(i, ch) + 1,
{
    let q = i / ch;
    lemma_fundamental_div_mod(i, ch);
    assert(i == ch * q);
    assert(ch * q == q * ch && (q + 1) * ch == ch * q + ch) by (nonlinear_arith);
    lemma_fundamental_div_mod_converse(i + ch - 1, ch, q, ch - 1);
    lemma_fundamental_div_mod_converse(i2 + ch - 1, ch, q + 1, i2 - i - 1);
}

/// After one more frame `[fstart, i)` of an interleaved buffer has been
/// filled with one value, every filled sample still equals the first sample
/// of its frame.
proof fn lemma_frame_fanout<T>(pre: Seq<T>, post: Seq<T>, fstart: int, i: int, ch: int, v: T)
    requires
        ch >= 1,
        pre.len() == post.len(),
        0 <= fstart < post.len(),
        fstart % ch == 0,
        fstart < i <= fstart + ch,
        i <= post.len(),
        forall|j: int| 0 <= j < fstart ==> post[j] == pre[j],
        forall|j: int| fstart <= j < i ==> post[j] == v,
        forall|j: int| 0 <= j < fstart ==> #[trigger] pre[j] == pre[(j / ch) * ch],
    ensures
        forall|j: int| 0 <= j < i ==> #[trigger] post[j] == post[(j / ch) * ch],
{
    assert forall|j: int| 0 <= j < i implies #[trigger] post[j] == post[(j / ch) * ch] by {
        lemma_fundamental_div_mod(fstart, ch);
        if j < fstart {
            lemma_fundamental_div_mod(j, ch);
            lemma_mod_bound(j, ch);
            assert(0 <= (j / ch) * ch <= j);
        } else {
            let q = fstart / ch;
            assert(fstart == ch * q);
            assert(ch * q == q * ch) by (nonlinear_arith);
            assert(j == q * ch + (j - fstart));
            lemma_fundamental_div_mod_converse(j, ch, q, j - fstart);
            assert((j / ch) * ch == fstart);
        }
    }
}

/// The state the audio worker carries between device callbacks: the held
/// keys, the installed processor (none yet means the silent default), and
/// the running count of frames rendered since the start.
pub struct AudioWorker<P> {
    keys: KeysState,
    processor: Option<P>,
    frames_rendered: u64,
}

impl<P: SignalProcessor> AudioWorker<P> {
    /// The held-key stack, most recent press first.
    pub closed spec fn keys_seq(&self) -> Seq<i32> {
        self.keys@
    }

    /// The installed processor, or none while the silent default stands.
    pub closed spec fn processor_state(&self) -> Option<P> {
        self.processor
    }

    /// Whether a processor has been installed.
    pub open spec fn has_processor(&self) -> bool {
        self.processor_state() is Some
    }

    /// How many frames the worker has rendered since it started.
    pub closed spec fn frame_count(&self) -> u64 {
        self.frames_rendered
    }

    /// The key stack never holds a note twice.
    pub open spec fn wf(&self) -> bool {
        self.keys_seq().no_duplicates()
    }

    /// A fresh worker: no key held, the silent default processor, no frame
    /// rendered yet.
    pub fn new() -> (r: Self)
        ensures
            r.wf(),
            r.keys_seq() == Seq::<i32>::empty(),
            !r.has_processor(),
            r.frame_count() == 0,
    {
        AudioWorker { keys: KeysState::new(), processor: None, frames_rendered: 0 }
    }

    /// The note that should sound now: the front of the held-key stack.
    pub fn current(&self) -> (r: Option<i32>)
        ensures
            r == front_of(self.keys_seq()),
    {
        self.keys.current()
    }

    /// How many frames the worker has rendered since it started.
    pub fn frames_rendered(&self) -> (r: u64)
        ensures
            r == self.frame_count(),
    {
        self.frames_rendered
    }

    /// Applies everything one callback drains from the control queues,
    /// before any frame of that callback is rendered: the newest queued
    /// processor (earlier queued ones are dropped unused), then every key
    /// event in submission order.
    pub fn drain_control(&mut self, new_processors: Vec<P>, events: &Vec<KeyAction>)
        requires
            old(self).wf(),
        ensures
            final(self).wf(),
            final(self).frame_count() == old(self).frame_count(),
            final(self).processor_state() == (if new_processors@.len() > 0 {
                Some(new_processors@.last())
            } else {
                old(self).processor_state()
            }),
            final(self).keys_seq() == apply_events(old(self).keys_seq(), events@),
    {
        let mut ps = new_processors;
        match ps.pop() {
            Some(p) => {
                self.processor = Some(p);
            },
            None => {},
        }
        let ghost keys0 = self.keys@;
        let ghost proc0 = self.processor;
        let ghost cnt0 = self.frames_rendered;
        let mut i: usize = 0;
        while i < events.len()
            invariant
                i <= events@.len(),
                self.keys@.no_duplicates(),
                self.keys@ == apply_events(keys0, events@.take(i as int)),
                self.processor == proc0,
                self.frames_rendered == cnt0,
            decreases events@.len() - i,
        {
            let e = events[i];
            let _ = self.keys.key_down(e);
            proof {
                assert(events@.take(i as int + 1).drop_last() =~= events@.take(i as int));
                assert(events@.take(i as int + 1).last() == events@[i as int]);
            }
            i += 1;
        }
        proof {
            assert(events@.take(events@.len() as int) =~= events@);
        }
    }

    /// Renders the frames of one callback and returns their signal values,
    /// one per frame, for a device taking the amplitude as it is (the F32
    /// encoding): the embedder only converts each value to the device's
    /// floating-point scale.  The currently sounding note is sampled once,
    /// before the first frame, and held for the whole callback.  While no
    /// processor is installed every value is zero: silence.
    pub fn render_frames(&mut self, frames: usize) -> (values: Vec<i64>)
        requires
            old(self).wf(),
            old(self).frame_count() + frames <= u64::MAX,
        ensures
            final(self).wf(),
            values@.len() == frames as int,
            final(self).keys_seq() == old(self).keys_seq(),
            final(self).has_processor() == old(self).has_processor(),
            final(self).frame_count() == old(self).frame_count() + frames,
            !old(self).has_processor() ==> forall|i: int|
                0 <= i < values@.len() ==> values@[i] == 0,
    {
        let current = self.keys.current();
        let ghost keys0 = self.keys@;
        let ghost had = self.has_processor();
        let ghost cnt0 = self.frames_rendered;
        let mut values: Vec<i64> = Vec::new();
        let mut f: usize = 0;
        while f < frames
            invariant
                f <= frames,
                values@.len() == f as int,
                self.keys@ == keys0,
                self.has_processor() == had,
                self.frames_rendered == cnt0 + f,
                cnt0 + frames <= u64::MAX,
                !had ==> forall|i: int| 0 <= i < values@.len() ==> values@[i] == 0,
            decreases frames - f,
        {
            let q: i64 = match &mut self.processor {
                Some(p) => p.process(current),
                None => 0,
            };
            values.push(q);
            self.frames_rendered = self.frames_rendered + 1;
            f += 1;
        }
        values
    }

    /// Renders one callback into an interleaved I16 device buffer: one
    /// processor call per frame, the sample fanned out to every channel of
    /// the frame.  The currently sounding note is sampled once, before the
    /// first frame, and held for the whole callback.  While no processor is
    /// installed every sample is 0: silence.
    pub fn render_i16(&mut self, channels: usize, buffer: &mut Vec<i16>)
        requires
            channels >= 1,
            old(self).wf(),
            old(self).frame_count() + frames_in(old(buffer)@.len() as int, channels as int)
                <= u64::MAX,
        ensures
            final(self).wf(),
            final(self).keys_seq() == old(self).keys_seq(),
            final(self).has_processor() == old(self).has_processor(),
            final(self).frame_count() == old(self).frame_count() + frames_in(
                old(buffer)@.len() as int,
                channels as int,
            ),
            final(buffer)@.len() == old(buffer)@.len(),
            forall|i: int|
                0 <= i < final(buffer)@.len() ==> #[trigger] final(buffer)@[i]
                    == final(buffer)@[(i / (channels as int)) * (channels as int)],
            !old(self).has_processor() ==> forall|i: int|
                0 <= i < final(buffer)@.len() ==> final(buffer)@[i] == 0,
    {
        let current = self.keys.current();
        let n = buffer.len();
        let ghost keys0 = self.keys@;
        let ghost had = self.has_processor();
        let ghost cnt0 = self.frames_rendered;
        proof {
            lemma_basic_div(channels as int - 1, channels as int);
        }
        let mut i: usize = 0;
        let mut f: usize = 0;
        while i < n
            invariant
                channels >= 1,
                n == buffer@.len(),
                i <= n,
                f <= i,
                i as int % (channels as int) == 0 || i == n,
                f as int == frames_in(i as int, channels as int),
                self.keys@ == keys0,
                self.has_processor() == had,
                self.frames_rendered == cnt0,
                cnt0 + frames_in(n as int, channels as int) <= u64::MAX,
                forall|j: int|
                    0 <= j < i ==> #[trigger] buffer@[j] == buffer@[(j / (channels as int)) * (
                    channels as int)],
                !had ==> forall|j: int| 0 <= j < i ==> buffer@[j] == 0,
            decreases n - i,
        {
            let q: i64 = match &mut self.processor {
                Some(p) => p.process(current),
                None => 0,
            };
            let v = encode_i16(q);
            proof {
                lemma_silence_encodes_to_zero();
            }
            let ghost fstart = i as int;
            let ghost bsnap = buffer@;
            proof {
                assert(forall|j: int|
                    0 <= j < fstart ==> #[trigger] bsnap[j] == bsnap[(j / (channels as int)) * (
                    channels as int)]);
                assert(!had ==> forall|j: int| 0 <= j < fstart ==> bsnap[j] == 0);
            }
            let mut c: usize = 0;
            while c < channels && i < n
                invariant
                    channels >= 1,
                    n == buffer@.len(),
                    i as int == fstart + c,
                    c <= channels,
                    i <= n,
                    0 <= fstart < n,
                    fstart % (channels as int) == 0,
                    bsnap.len() == n,
                    forall|j: int| 0 <= j < fstart ==> buffer@[j] == bsnap[j],
                    forall|j: int| fstart <= j < i ==> buffer@[j] == v,
                    !had ==> v == 0,
                    v as int == i16_sample(q),
                decreases channels - c,
            {
                buffer.set(i, v);
                i += 1;
                c += 1;
            }
            f += 1;
            proof {
                let ch = channels as int;
                lemma_frames_in_step(fstart, i as int, ch);
                if c == channels {
                    lemma_fundamental_div_mod(fstart, ch);
                    let q = fstart / ch;
                    assert(fstart == ch * q);
                    assert((q + 1) * ch == ch * q + ch) by (nonlinear_arith);
                    lemma_fundamental_div_mod_converse(i as int, ch, q + 1, 0);
                }
                lemma_frame_fanout(bsnap, buffer@, fstart, i as int, ch, v);
                if !had {
                    assert forall|j: int| 0 <= j < i implies buffer@[j] == 0 by {
                        if j < fstart {
                            assert(buffer@[j] == bsnap[j]);
                        }
                    }
                }
            }
        }
        self.frames_rendered = self.frames_rendered + (f as u64);
    }

    /// Renders one callback into an interleaved U16 device buffer, exactly
    /// as [`AudioWorker::render_i16`] does for I16.  While no processor is
    /// installed every sample is 32767: the encoding's zero.
    pub fn render_u16(&mut self, channels: usize, buffer: &mut Vec<u16>)
        requires
            channels >= 1,
            old(self).wf(),
            old(self).frame_count() + frames_in(old(buffer)@.len() as int, channels as int)
                <= u64::MAX,
        ensures
            final(self).wf(),
            final(self).keys_seq() == old(self).keys_seq(),
            final(self).has_processor() == old(self).has_processor(),
            final(self).frame_count() == old(self).frame_count() + frames_in(
                old(buffer)@.len() as int,
                channels as int,
            ),
            final(buffer)@.len() == old(buffer)@.len(),
            forall|i: int|
                0 <= i < final(buffer)@.len() ==> #[trigger] final(buffer)@[i]
                    == final(buffer)@[(i / (channels as int)) * (channels as int)],
            !old(self).has_processor() ==> forall|i: int|
                0 <= i < final(buffer)@.len() ==> final(buffer)@[i] == 32767,
    {
        let current = self.keys.current();
        let n = buffer.len();
        let ghost keys0 = self.keys@;
        let ghost had = self.has_processor();
        let ghost cnt0 = self.frames_rendered;
        proof {
            lemma_basic_div(channels as int - 1, channels as int);
        }
        let mut i: usize = 0;
        let mut f: usize = 0;
        while i < n
            invariant
                channels >= 1,
                n == buffer@.len(),
                i <= n,
                f <= i,
                i as int % (channels as int) == 0 || i == n,
                f as int == frames_in(i as int, channels as int),
                self.keys@ == keys0,
                self.has_processor() == had,
                self.frames_rendered == cnt0,
                cnt0 + frames_in(n as int, channels as int) <= u64::MAX,
                forall|j: int|
                    0 <= j < i ==> #[trigger] buffer@[j] == buffer@[(j / (channels as int)) * (
                    channels as int)],
                !had ==> forall|j: int| 0 <= j < i ==> buffer@[j] == 32767,
            decreases n - i,
        {
            let q: i64 = match &mut self.processor {
                Some(p) => p.process(current),
                None => 0,
            };
            let v = encode_u16(q);
            proof {
                lemma_silence_encodes_to_zero();
            }
            let ghost fstart = i as int;
            let ghost bsnap = buffer@;
            proof {
                assert(forall|j: int|
                    0 <= j < fstart ==> #[trigger] bsnap[j] == bsnap[(j / (channels as int)) * (
                    channels as int)]);
                assert(!had ==> forall|j: int| 0 <= j < fstart ==> bsnap[j] == 32767);
            }
            let mut c: usize = 0;
            while c < channels && i < n
                invariant
                    channels >= 1,
                    n == buffer@.len(),
                    i as int == fstart + c,
                    c <= channels,
                    i <= n,
                    0 <= fstart < n,
                    fstart % (channels as int) == 0,
                    bsnap.len() == n,
                    forall|j: int| 0 <= j < fstart ==> buffer@[j] == bsnap[j],
                    forall|j: int| fstart <= j < i ==> buffer@[j] == v,
                    !had ==> v == 32767,
                    v as int == u16_sample(q),
                decreases channels - c,
            {
                buffer.set(i, v);
                i += 1;
                c += 1;
            }
            f += 1;
            proof {
                let ch = channels as int;
                lemma_frames_in_step(fstart, i as int, ch);
                if c == channels {
                    lemma_fundamental_div_mod(fstart, ch);
                    let q = fstart / ch;
                    assert(fstart == ch * q);
                    assert((q + 1) * ch == ch * q + ch) by (nonlinear_arith);
                    lemma_fundamental_div_mod_converse(i as int, ch, q + 1, 0);
                }
                lemma_frame_fanout(bsnap, buffer@, fstart, i as int, ch, v);
                if !had {
                    assert forall|j: int| 0 <= j < i implies buffer@[j] == 32767 by {
                        if j < fstart {
                            assert(buffer@[j] == bsnap[j]);
                        }
                    }
                }
            }
        }
        self.frames_rendered = self.frames_rendered + (f as u64);
    }
}

} // verus!
