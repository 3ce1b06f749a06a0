use recording_audio::format::{RecordingFormat, CHECKPOINT_EXTENSION, DEFAULT_RECORDING_FORMAT, RECORDING_FORMATS};
use std::path::PathBuf;

#[test]
fn parses_extensions_case_insensitively_and_with_dots() {
    assert_eq!(RecordingFormat::from_extension("WAV"), Some(RecordingFormat::Wav));
    assert_eq!(RecordingFormat::from_extension(".Mp3"), Some(RecordingFormat::Mp3));
    assert_eq!(RecordingFormat::from_extension("flac"), Some(RecordingFormat::Flac));
    assert_eq!(RecordingFormat::from_extension("ogg"), None);
}

#[test]
fn unknown_preference_falls_back_to_default() {
    assert_eq!(
        RecordingFormat::parse_or_default("banana"),
        RecordingFormat::Mp3
    );
    // A legacy stored preference must keep working.
    assert_eq!(RecordingFormat::parse_or_default("mp4"), RecordingFormat::Mp4);
}

#[test]
fn infers_format_from_output_path() {
    let flac = PathBuf::from("/tmp/audio.flac");
    let bare = PathBuf::from("/tmp/audio");
    assert_eq!(
        RecordingFormat::from_path(flac.to_str().unwrap()),
        Some(RecordingFormat::Flac)
    );
    assert_eq!(RecordingFormat::from_path(bare.to_str().unwrap()), None);
}

#[test]
fn every_advertised_format_is_parseable_and_round_trips() {
    for ext in RECORDING_FORMATS.iter() {
        let fmt = RecordingFormat::from_extension(ext)
            .unwrap_or_else(|| panic!("{} should parse", ext));
        assert_eq!(&fmt.extension(), ext);
        assert!(!fmt.ffmpeg_output_args().is_empty());
    }
}

#[test]
fn only_wav_can_stream_copy_from_wav_checkpoints() {
    assert!(RecordingFormat::Wav.can_stream_copy_from_checkpoints());
    for f in [RecordingFormat::Mp3, RecordingFormat::M4a, RecordingFormat::Flac, RecordingFormat::Mp4] {
        assert!(!f.can_stream_copy_from_checkpoints());
    }
}

#[test]
fn checkpoints_are_wav() {
    assert_eq!(
        RecordingFormat::from_extension(CHECKPOINT_EXTENSION),
        Some(RecordingFormat::Wav)
    );
}

#[test]
fn extension_parsing_trims_every_leading_dot_and_ignores_ascii_case() {
    assert_eq!(RecordingFormat::from_extension("..FlAc"), Some(RecordingFormat::Flac));
    assert_eq!(RecordingFormat::from_extension("...m4A"), Some(RecordingFormat::M4a));
    assert_eq!(RecordingFormat::from_extension("mp3."), None);
    assert_eq!(RecordingFormat::from_extension(" mp3"), None);
    assert_eq!(RecordingFormat::from_extension(""), None);
    assert_eq!(RecordingFormat::from_extension("."), None);
    assert_eq!(RecordingFormat::from_extension("wavs"), None);
    // Only ASCII letters are folded: a dotless capital I is not `i`.
    assert_eq!(RecordingFormat::from_extension("MP\u{0130}"), None);
}

#[test]
fn default_format_is_the_default_preference() {
    assert_eq!(RecordingFormat::default(), RecordingFormat::Mp3);
    assert_eq!(RecordingFormat::parse_or_default(DEFAULT_RECORDING_FORMAT), RecordingFormat::Mp3);
    assert_eq!(RecordingFormat::parse_or_default(".WAV"), RecordingFormat::Wav);
}

#[test]
fn path_inference_follows_the_file_name() {
    assert_eq!(RecordingFormat::from_path("audio.mp3"), Some(RecordingFormat::Mp3));
    assert_eq!(RecordingFormat::from_path("rec.tar.M4A"), Some(RecordingFormat::M4a));
    assert_eq!(RecordingFormat::from_path(".wav"), None);
    assert_eq!(RecordingFormat::from_path("dir.wav/audio"), None);
    assert_eq!(RecordingFormat::from_path("/tmp/x.mp4/"), Some(RecordingFormat::Mp4));
    assert_eq!(RecordingFormat::from_path(""), None);
}

#[test]
fn names_and_text_of_each_format() {
    let all = [
        (RecordingFormat::Mp3, "mp3", "MP3"),
        (RecordingFormat::Wav, "wav", "WAV"),
        (RecordingFormat::M4a, "m4a", "M4A"),
        (RecordingFormat::Flac, "flac", "FLAC"),
        (RecordingFormat::Mp4, "mp4", "MP4"),
    ];
    for (f, ext, name) in all {
        assert_eq!(f.extension(), ext);
        assert_eq!(f.display_name(), name);
        assert_eq!(f.to_string(), ext);
        assert_eq!(RecordingFormat::parse_or_default(ext), f);
    }
}

#[test]
fn ffmpeg_output_args_per_format() {
    assert_eq!(
        RecordingFormat::Mp3.ffmpeg_output_args(),
        vec!["-c:a", "libmp3lame", "-b:a", "128k", "-f", "mp3"]
    );
    assert_eq!(
        RecordingFormat::Wav.ffmpeg_output_args(),
        vec!["-c:a", "pcm_s16le", "-f", "wav"]
    );
    assert_eq!(
        RecordingFormat::Flac.ffmpeg_output_args(),
        vec!["-c:a", "flac", "-compression_level", "5", "-f", "flac"]
    );
    let m4a = RecordingFormat::M4a.ffmpeg_output_args();
    assert_eq!(&m4a[m4a.len() - 2..], &["-f", "ipod"]);
    let mp4 = RecordingFormat::Mp4.ffmpeg_output_args();
    assert_eq!(&mp4[mp4.len() - 2..], &["-f", "mp4"]);
    assert_eq!(m4a[..m4a.len() - 1], mp4[..mp4.len() - 1]);
}
