//! Core of a small monophonic keyboard synthesizer.
//!
//! The library owns the parts of the synthesizer that decide and compute:
//! the held-key stack with its "last-pressed wins" priority rule, the
//! per-callback algorithm of the audio worker (drain control queues, then
//! fill the device buffer frame by frame), the conversion of signal values
//! into the device's sample encodings, the pacing decisions of the UI event
//! loop, and the keyboard binding table.  Device I/O, threads and window
//! handling live outside, in the embedding program, and talk to this
//! library through plain values.

pub mod engine;

pub mod event_loop;

pub mod keys_state;

pub mod sample;

pub mod types;

pub mod ui;

pub use engine::AudioWorker;

pub use engine::DeviceFormat;

pub use engine::EngineStartError;

pub use engine::SampleEncoding;

pub use engine::SignalProcessor;

pub use event_loop::EventLoop;

pub use keys_state::KeysState;

pub use types::KeyAction;

pub use types::SliderEventType;

pub use ui::SettingsKey;
