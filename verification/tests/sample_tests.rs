use audioengine::sample::encode_i16;
use audioengine::sample::encode_u16;
use audioengine::sample::fill_frames;
use audioengine::types::SIGNAL_UNIT;

#[test]
fn i16_full_scale() {
    // S6: +1.0 gives 32767, -1.0 gives -32767.
    assert_eq!(encode_i16(SIGNAL_UNIT), 32767);
    assert_eq!(encode_i16(-SIGNAL_UNIT), -32767);
}

#[test]
fn i16_zero_and_midpoints() {
    assert_eq!(encode_i16(0), 0);
    // +0.5: floor(0.5 * 32767) = 16383.
    assert_eq!(encode_i16(32768), 16383);
    // -0.5: floor(-16383.5) = -16384.
    assert_eq!(encode_i16(-32768), -16384);
    // +0.25 and -0.25.
    assert_eq!(encode_i16(16384), 8191);
    assert_eq!(encode_i16(-16384), -8192);
}

#[test]
fn i16_saturates_beyond_full_scale() {
    assert_eq!(encode_i16(200000), 32767);
    assert_eq!(encode_i16(i64::MAX), 32767);
    assert_eq!(encode_i16(-200000), -32768);
    assert_eq!(encode_i16(i64::MIN), -32768);
    // Just below -1.0 the floor already reaches the type minimum.
    assert_eq!(encode_i16(-65537), -32768);
}

#[test]
fn u16_full_scale_and_zero() {
    // The U16 zero convention: silence encodes to 32767.
    assert_eq!(encode_u16(0), 32767);
    assert_eq!(encode_u16(SIGNAL_UNIT), 65535);
    assert_eq!(encode_u16(-SIGNAL_UNIT), 0);
}

#[test]
fn u16_midpoints_and_saturation() {
    // +0.5: floor(0.75 * 65535) = 49151.
    assert_eq!(encode_u16(32768), 49151);
    // -0.5: floor(0.25 * 65535) = 16383.
    assert_eq!(encode_u16(-32768), 16383);
    assert_eq!(encode_u16(300000), 65535);
    assert_eq!(encode_u16(-300000), 0);
    assert_eq!(encode_u16(i64::MAX), 65535);
    assert_eq!(encode_u16(i64::MIN), 0);
}

#[test]
fn fill_frames_fans_out_each_value() {
    let mut buffer: Vec<i32> = vec![0; 6];
    let values: Vec<i32> = vec![1, 2, 3];
    fill_frames(&mut buffer, 2, &values);
    assert_eq!(buffer, vec![1, 1, 2, 2, 3, 3]);
}

#[test]
fn fill_frames_partial_last_frame() {
    let mut buffer: Vec<i32> = vec![9; 5];
    let values: Vec<i32> = vec![1, 2, 3];
    fill_frames(&mut buffer, 2, &values);
    assert_eq!(buffer, vec![1, 1, 2, 2, 3]);
}

#[test]
fn fill_frames_mono_and_float() {
    let mut buffer: Vec<f32> = vec![1.0; 4];
    let values: Vec<f32> = vec![0.25, -0.25, 0.5, 0.0];
    fill_frames(&mut buffer, 1, &values);
    assert_eq!(buffer, vec![0.25, -0.25, 0.5, 0.0]);

    let mut stereo: Vec<f32> = vec![1.0; 4];
    let two: Vec<f32> = vec![-0.5, 0.125];
    fill_frames(&mut stereo, 2, &two);
    assert_eq!(stereo, vec![-0.5, -0.5, 0.125, 0.125]);
}
