use recording_audio::encode::{encode_single_audio, encode_single_audio_as, ffmpeg_encode_args, EncodeError};
use recording_audio::format::RecordingFormat;
use recording_audio::text::{decimal_string, zero_padded_string};

#[test]
fn encode_arguments() {
    assert_eq!(
        ffmpeg_encode_args(48000, 1, "/tmp/a.wav", RecordingFormat::Wav),
        vec![
            "-f", "f32le", "-ar", "48000", "-ac", "1", "-i", "pipe:0", "-c:a", "pcm_s16le", "-f",
            "wav", "-y", "/tmp/a.wav"
        ]
    );
}

#[test]
fn format_is_chosen_by_the_file_name() {
    let data = [0u8; 8];
    let job = encode_single_audio(&data, 44100, 2, Some("/out/take.flac")).unwrap();
    assert_eq!(job.format, RecordingFormat::Flac);
    assert_eq!(job.args, ffmpeg_encode_args(44100, 2, "/out/take.flac", RecordingFormat::Flac));
    let job = encode_single_audio(&data, 16000, 1, Some("/out/take.ogg")).unwrap();
    assert_eq!(job.format, RecordingFormat::Mp3);
    let job = encode_single_audio(&data, 16000, 1, Some("/out/take")).unwrap();
    assert_eq!(job.format, RecordingFormat::Mp3);
    assert_eq!(job.args[job.args.len() - 1], "/out/take");
}

#[test]
fn encode_errors() {
    assert_eq!(
        encode_single_audio(&[], 48000, 1, Some("a.wav")).err(),
        Some(EncodeError::NoAudioData)
    );
    assert_eq!(
        encode_single_audio(&[], 48000, 1, None).err(),
        Some(EncodeError::NoAudioData)
    );
    assert_eq!(
        encode_single_audio_as(&[1], 48000, 1, None, RecordingFormat::Wav).err(),
        Some(EncodeError::InvalidOutputPath)
    );
    let job = encode_single_audio_as(&[1], 8000, 3, Some("x.mp3"), RecordingFormat::M4a).unwrap();
    assert_eq!(job.format, RecordingFormat::M4a);
}

#[test]
fn decimal_rendering() {
    assert_eq!(decimal_string(0), "0");
    assert_eq!(decimal_string(7), "7");
    assert_eq!(decimal_string(48000), "48000");
    assert_eq!(decimal_string(u64::MAX), u64::MAX.to_string());
    assert_eq!(zero_padded_string(5, 3), "005");
    assert_eq!(zero_padded_string(12345, 3), "12345");
    assert_eq!(zero_padded_string(0, 0), "0");
}
