use audioengine::engine::AudioWorker;
use audioengine::engine::DeviceFormat;
use audioengine::engine::EngineStartError;
use audioengine::engine::SampleEncoding;
use audioengine::engine::SignalProcessor;
use audioengine::sample::fill_frames;
use audioengine::types::KeyAction;
use audioengine::types::SIGNAL_UNIT;

/// A processor that always returns the same amplitude.
struct ConstProc(i64);

impl SignalProcessor for ConstProc {
    fn process(&mut self, _current: Option<i32>) -> i64 {
        self.0
    }
}

/// A processor that sounds only while one chosen note is current.
struct GateProc {
    note: i32,
    level: i64,
}

impl SignalProcessor for GateProc {
    fn process(&mut self, current: Option<i32>) -> i64 {
        if current == Some(self.note) {
            self.level
        } else {
            0
        }
    }
}

/// A stateful processor: every call returns a higher amplitude.
struct RampProc {
    next: i64,
}

impl SignalProcessor for RampProc {
    fn process(&mut self, _current: Option<i32>) -> i64 {
        self.next += SIGNAL_UNIT / 1024;
        self.next
    }
}

fn to_f32(values: &[i64]) -> Vec<f32> {
    values.iter().map(|q| (*q as f64 / SIGNAL_UNIT as f64) as f32).collect()
}

#[test]
fn s1_silent_default_f32() {
    // S1: no processor installed, 1024 frames at 44100 Hz, stereo F32:
    // every sample is 0.0 and the running time advances by 1024/44100 s.
    let mut worker: AudioWorker<ConstProc> = AudioWorker::new();
    worker.drain_control(Vec::new(), &Vec::new());
    let values = worker.render_frames(1024);
    assert_eq!(values.len(), 1024);
    assert!(values.iter().all(|q| *q == 0));

    let floats = to_f32(&values);
    let mut buffer: Vec<f32> = vec![1.0; 2048];
    fill_frames(&mut buffer, 2, &floats);
    assert!(buffer.iter().all(|s| *s == 0.0));

    assert_eq!(worker.frames_rendered(), 1024);
    let elapsed = worker.frames_rendered() as f64 / 44100.0;
    assert!((elapsed - 1024.0 / 44100.0).abs() < 1e-12);
}

#[test]
fn s2_gated_processor_sounds_for_held_note() {
    // S2: p(cur) = 0.5 when cur == Some(7); Press(7); 8 stereo F32 frames
    // are all 0.5.
    let mut worker: AudioWorker<GateProc> = AudioWorker::new();
    let processors = vec![GateProc { note: 7, level: SIGNAL_UNIT / 2 }];
    worker.drain_control(processors, &vec![KeyAction::Press(7)]);
    let values = worker.render_frames(8);
    let floats = to_f32(&values);
    let mut buffer: Vec<f32> = vec![0.0; 16];
    fill_frames(&mut buffer, 2, &floats);
    assert_eq!(buffer.len(), 16);
    assert!(buffer.iter().all(|s| *s == 0.5));
}

#[test]
fn s5_last_installed_processor_wins() {
    // S5: install A (0.25) then B (-0.25) before any callback: the first
    // callback already plays B.
    let mut worker: AudioWorker<ConstProc> = AudioWorker::new();
    let processors = vec![ConstProc(SIGNAL_UNIT / 4), ConstProc(-SIGNAL_UNIT / 4)];
    worker.drain_control(processors, &Vec::new());
    let values = worker.render_frames(4);
    let floats = to_f32(&values);
    assert!(floats.iter().all(|s| *s == -0.25));
}

#[test]
fn s6_i16_full_scale_saturates() {
    // S6: on an I16 device, +1.0 writes 32767 everywhere and -1.0 writes
    // -32767 everywhere.
    let mut worker: AudioWorker<ConstProc> = AudioWorker::new();
    worker.drain_control(vec![ConstProc(SIGNAL_UNIT)], &Vec::new());
    let mut buffer: Vec<i16> = vec![0; 8];
    worker.render_i16(2, &mut buffer);
    assert!(buffer.iter().all(|s| *s == 32767));

    worker.drain_control(vec![ConstProc(-SIGNAL_UNIT)], &Vec::new());
    let mut buffer: Vec<i16> = vec![0; 8];
    worker.render_i16(2, &mut buffer);
    assert!(buffer.iter().all(|s| *s == -32767));
}

#[test]
fn silent_default_writes_encoding_zero() {
    // Before any processor is installed, I16 writes 0 and U16 writes 32767.
    let mut worker: AudioWorker<ConstProc> = AudioWorker::new();
    let mut i16_buffer: Vec<i16> = vec![7; 6];
    worker.render_i16(2, &mut i16_buffer);
    assert!(i16_buffer.iter().all(|s| *s == 0));

    let mut u16_buffer: Vec<u16> = vec![7; 6];
    worker.render_u16(3, &mut u16_buffer);
    assert!(u16_buffer.iter().all(|s| *s == 32767));
    assert_eq!(worker.frames_rendered(), 5);
}

#[test]
fn fan_out_is_per_frame() {
    // Three channels: within every frame all samples are equal, while
    // frames may differ (the ramp makes them differ).
    let mut worker: AudioWorker<RampProc> = AudioWorker::new();
    worker.drain_control(vec![RampProc { next: 0 }], &Vec::new());
    let mut buffer: Vec<i16> = vec![0; 9];
    worker.render_i16(3, &mut buffer);
    for f in 0..3 {
        assert_eq!(buffer[3 * f], buffer[3 * f + 1]);
        assert_eq!(buffer[3 * f], buffer[3 * f + 2]);
    }
    assert_ne!(buffer[0], buffer[3]);
    assert_ne!(buffer[3], buffer[6]);
}

#[test]
fn partial_last_frame_counts_as_a_frame() {
    let mut worker: AudioWorker<ConstProc> = AudioWorker::new();
    worker.drain_control(vec![ConstProc(SIGNAL_UNIT / 4)], &Vec::new());
    let mut buffer: Vec<i16> = vec![0; 7];
    worker.render_i16(2, &mut buffer);
    assert_eq!(worker.frames_rendered(), 4);
    assert!(buffer.iter().all(|s| *s == 8191));
}

#[test]
fn p8_events_apply_before_the_frame_loop() {
    // P8: Press(1), Press(2), Release(2) submitted before one callback:
    // every processor call of that callback sees Some(1).
    let mut worker: AudioWorker<GateProc> = AudioWorker::new();
    let events = vec![KeyAction::Press(1), KeyAction::Press(2), KeyAction::Release(2)];
    worker.drain_control(vec![GateProc { note: 1, level: SIGNAL_UNIT / 2 }], &events);
    assert_eq!(worker.current(), Some(1));
    let mut buffer: Vec<i16> = vec![0; 6];
    worker.render_i16(2, &mut buffer);
    // Note 1 was current for every frame of the callback.
    assert!(buffer.iter().all(|s| *s == 16383));
    // A second callback drains nothing and still sees Some(1).
    worker.drain_control(Vec::new(), &Vec::new());
    assert_eq!(worker.current(), Some(1));
}

#[test]
fn frame_counter_accumulates_across_callbacks() {
    let mut worker: AudioWorker<ConstProc> = AudioWorker::new();
    let mut buffer: Vec<i16> = vec![0; 6];
    worker.render_i16(2, &mut buffer);
    let mut buffer2: Vec<u16> = vec![0; 8];
    worker.render_u16(2, &mut buffer2);
    let values = worker.render_frames(5);
    assert_eq!(values.len(), 5);
    assert_eq!(worker.frames_rendered(), 3 + 4 + 5);
}

#[test]
fn device_format_validation() {
    let ok = DeviceFormat::new(2, 44100, SampleEncoding::F32);
    assert_eq!(
        ok,
        Ok(DeviceFormat { channels: 2, sample_rate: 44100, encoding: SampleEncoding::F32 })
    );
    assert_eq!(
        DeviceFormat::new(0, 44100, SampleEncoding::I16),
        Err(EngineStartError::UnsupportedFormat)
    );
    assert_eq!(
        DeviceFormat::new(2, 0, SampleEncoding::U16),
        Err(EngineStartError::UnsupportedFormat)
    );
}

#[test]
fn start_error_messages() {
    assert_eq!(EngineStartError::DeviceUnavailable.message(), "no default output device");
    assert_eq!(EngineStartError::UnsupportedFormat.message(), "unsupported output format");
    assert_eq!(EngineStartError::StreamStartFailed.message(), "output stream failed to start");
}
