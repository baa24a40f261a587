use particelle::audio::{ambisonic_order, first_inactive, render_block_frames, AudioBlock, CoreError};
use particelle::curve::{Extrapolation, ExtrapolationMode};
use particelle::context::NullFields;
use particelle::m0::{
    check_output_layout, check_preset_schema, is_control_frame, is_midi_status_byte,
    M0EngineError, PresetError, M0_PRESET_SCHEMA_VERSION,
};
use particelle::resample::{
    check_resample_input, check_resampler_channels, decimal_string, deinterleave,
};
use particelle::window::{compose_asymmetric, half_left, half_right, WindowNormalization};

#[test]
fn new_block_is_silent() {
    let block = AudioBlock::new(6, 256, 0.0f64);
    assert_eq!(block.n_channels(), 6);
    assert_eq!(block.frames, 256);
    assert!(block.channels.iter().all(|ch| ch.iter().all(|&s| s == 0.0)));
}

#[test]
fn silence_clears_samples() {
    let mut block = AudioBlock::new(2, 4, 0.0f64);
    block.channels[0][0] = 1.0;
    block.silence(0.0);
    assert_eq!(block.channels[0][0], 0.0);
}

#[test]
fn mix_from_channel_mismatch_errors() {
    let dst = AudioBlock::new(2, 4, 0.0f64);
    let src = AudioBlock::new(6, 4, 0.0f64);
    assert!(dst.check_mix_source::<f64>(&src).is_err());
}

#[test]
fn mix_source_checks_channels_before_frames() {
    let dst = AudioBlock::new(2, 4, 0.0f64);
    assert_eq!(
        dst.check_mix_source::<f64>(&AudioBlock::new(3, 5, 0.0)),
        Err(CoreError::ChannelCountMismatch { expected: 2, actual: 3 })
    );
    assert_eq!(
        dst.check_mix_source::<f64>(&AudioBlock::new(2, 5, 0.0)),
        Err(CoreError::BufferSizeMismatch { expected: 4, actual: 5 })
    );
    assert_eq!(dst.check_mix_source::<f64>(&AudioBlock::new(2, 4, 1.0)), Ok(()));
}

#[test]
fn first_inactive_slot() {
    assert_eq!(first_inactive(&[true, false, false]), Some(1));
    assert_eq!(first_inactive(&[true, true]), None);
    assert_eq!(first_inactive(&[]), None);
}

#[test]
fn preset_schema_version() {
    assert_eq!(M0_PRESET_SCHEMA_VERSION, 1);
    assert_eq!(check_preset_schema::<f64>(1), Ok(()));
    assert_eq!(check_preset_schema::<f64>(2), Err(PresetError::UnsupportedSchema(2)));
}

#[test]
fn output_layout() {
    assert_eq!(check_output_layout::<f64>(&[128, 128, 128, 128]), Ok(128));
    assert_eq!(check_output_layout::<f64>(&[64]), Ok(64));
    assert_eq!(check_output_layout::<f64>(&[]), Err(M0EngineError::InvalidOutputLayout));
    assert_eq!(check_output_layout::<f64>(&[4, 5]), Err(M0EngineError::InvalidOutputLayout));
}

#[test]
fn midi_status_bytes_and_control_frames() {
    assert!(is_midi_status_byte(0x90));
    assert!(is_midi_status_byte(0x80));
    assert!(!is_midi_status_byte(0x7f));
    assert!(is_control_frame(0));
    assert!(is_control_frame(32));
    assert!(!is_control_frame(17));
}

#[test]
fn defaults() {
    let e = Extrapolation::default();
    assert_eq!(e.left, ExtrapolationMode::Clamp);
    assert_eq!(e.right, ExtrapolationMode::Clamp);
    assert_eq!(WindowNormalization::default(), WindowNormalization::Peak);
    assert_eq!(NullFields.get::<f64>("density"), None);
}

#[test]
fn composite_windows() {
    let left = [1, 2, 3, 4];
    let right = [5, 6, 7, 8];
    assert_eq!(compose_asymmetric(&left, &right, 4), vec![1, 2, 7, 8]);
    assert_eq!(compose_asymmetric(&left, &right, 5), vec![1, 2, 7, 8, 8]);
    let base = [1, 2, 3, 2, 1];
    assert_eq!(half_left(&base, 3), vec![1, 2, 3]);
    assert_eq!(half_right(&base, 3), vec![3, 2, 1]);
}

#[test]
fn ambisonic_orders() {
    assert_eq!(ambisonic_order(1), Some(0));
    assert_eq!(ambisonic_order(4), Some(1));
    assert_eq!(ambisonic_order(9), Some(2));
    assert_eq!(ambisonic_order(16), Some(3));
    assert_eq!(ambisonic_order(2), None);
    assert_eq!(ambisonic_order(25), None);
}

#[test]
fn resample_checks() {
    assert_eq!(check_resampler_channels(1), Ok(()));
    assert_eq!(
        check_resampler_channels(0),
        Err("resampler must have at least one channel".to_owned())
    );
    assert_eq!(
        check_resample_input(2, &[8]),
        Err("expected 2 input channels, got 1".to_owned())
    );
    assert_eq!(
        check_resample_input(2, &[8, 7]),
        Err("all input channels must have the same frame count".to_owned())
    );
    assert_eq!(check_resample_input(2, &[8, 8]), Ok(Some(8)));
    assert_eq!(check_resample_input(2, &[0, 5]), Ok(None));
    assert_eq!(decimal_string(0), "0");
    assert_eq!(decimal_string(1234567890), "1234567890");
    assert_eq!(decimal_string(usize::MAX), usize::MAX.to_string());
}

#[test]
fn deinterleave_splits_frames() {
    let data = [1, 2, 3, 4, 5, 6, 7];
    assert_eq!(deinterleave(&data, 2, 3), vec![vec![1, 3, 5], vec![2, 4, 6]]);
    assert_eq!(deinterleave(&data, 3, 0), vec![Vec::<i32>::new(), vec![], vec![]]);
}

#[test]
fn render_schedule_trims_the_last_block() {
    let mut rendered: u64 = 0;
    let mut sizes = Vec::new();
    while rendered < 1000 {
        let frames = render_block_frames(1000, rendered, 256);
        sizes.push(frames);
        rendered += frames as u64;
    }
    assert_eq!(sizes, vec![256, 256, 256, 232]);
    assert_eq!(rendered, 1000);
}

#[test]
fn trimmed_block_keeps_the_first_frames() {
    let mut block = AudioBlock::new(2, 4, 0.0f64);
    block.channels[0] = vec![1.0, 2.0, 3.0, 4.0];
    block.channels[1] = vec![5.0, 6.0, 7.0, 8.0];
    let t = block.trimmed(3);
    assert_eq!(t.frames, 3);
    assert_eq!(t.channels, vec![vec![1.0, 2.0, 3.0], vec![5.0, 6.0, 7.0]]);
}
