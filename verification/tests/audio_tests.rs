use seedrelay::audio::{
    check_pcm_frame, even_pcm_bytes, opus_channels, pad_frame, pcm_samples, silence_frame,
    AudioConfig, OpusChannels,
};

#[test]
fn pads_partial_pcm_frame_to_20ms() {
    let config = AudioConfig::default();
    let input = vec![7u8; 10];

    let frame = pad_frame(&input, config);

    assert_eq!(frame.len(), config.bytes_per_frame);
    assert_eq!(&frame[..10], vec![7u8; 10].as_slice());
    assert!(frame[10..].iter().all(|byte| *byte == 0));
}

#[test]
fn default_config_is_16k_mono_20ms() {
    let config = AudioConfig::default();
    assert_eq!(config.sample_rate, 16_000);
    assert_eq!(config.channels, 1);
    assert_eq!(config.samples_per_frame, 320);
    assert_eq!(config.bytes_per_frame, 640);
    assert_eq!(AudioConfig::new(48_000, 2, 10).bytes_per_frame, 1920);
}

#[test]
fn frames_are_cut_padded_or_silent() {
    let config = AudioConfig::new(1000, 1, 2);
    assert_eq!(pad_frame(&[1, 2, 3, 4, 5, 6], config), vec![1, 2, 3, 4]);
    assert_eq!(silence_frame(config), vec![0, 0, 0, 0]);
    assert_eq!(even_pcm_bytes(&[1, 2, 3]), vec![1, 2]);
    assert_eq!(even_pcm_bytes(&[1, 2]), vec![1, 2]);
}

#[test]
fn reads_little_endian_samples() {
    assert_eq!(pcm_samples(&[1, 0, 0xff, 0xff, 0, 0x80, 0xff, 0x7f, 9]), vec![1, -1, -32768, 32767]);
}

#[test]
fn maps_channel_counts_and_checks_frame_sizes() {
    assert_eq!(opus_channels(1), Ok(OpusChannels::Mono));
    assert_eq!(opus_channels(2), Ok(OpusChannels::Stereo));
    assert_eq!(
        opus_channels(3),
        Err("unsupported channel count: 3".to_string())
    );
    let config = AudioConfig::default();
    assert_eq!(check_pcm_frame(config, 640), Ok(()));
    assert_eq!(
        check_pcm_frame(config, 10),
        Err("expected 640 bytes per PCM frame, got 10".to_string())
    );
}
