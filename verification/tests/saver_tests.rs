use recording_audio::format::RecordingFormat;
use recording_audio::recovery::{
    any_checkpoint_file, checkpoint_merge_order, is_checkpoint_file, no_recovery_report,
    plan_recovery, recovery_report, MergeRun,
};
use recording_audio::saver::{
    checkpoint_file_name, concat_list, concat_merge_args, final_audio_file_name, CheckpointStep,
    FinalizeError, FinalizeStep, IncrementalAudioSaver,
};

/// Drive the saver as the caller does, every checkpoint write succeeding.
fn add(saver: &mut IncrementalAudioSaver, len: usize, written: &mut Vec<String>) {
    if saver.add_chunk(len) {
        save(saver, written);
    }
}

fn save(saver: &mut IncrementalAudioSaver, written: &mut Vec<String>) {
    match saver.next_checkpoint() {
        CheckpointStep::Skip => saver.drop_empty_buffer(),
        CheckpointStep::Write { index, file_name, format, channels } => {
            assert_eq!(index, saver.get_checkpoint_count());
            assert_eq!(format, RecordingFormat::Wav);
            assert_eq!(channels, 1);
            written.push(file_name);
            saver.checkpoint_written();
        }
    }
}

#[test]
fn sixty_seconds_of_chunks_make_two_checkpoints() {
    let mut saver = IncrementalAudioSaver::new(48000, RecordingFormat::Mp3);
    let mut written = Vec::new();
    for _ in 0..120 {
        add(&mut saver, 24000, &mut written);
    }
    assert_eq!(saver.get_checkpoint_count(), 2);
    assert!(!saver.has_buffered_chunks());
    assert_eq!(written, vec!["audio_chunk_000.wav", "audio_chunk_001.wav"]);
    assert_eq!(saver.final_audio_file(), Ok("audio.mp3".to_string()));
    assert_eq!(saver.checkpoint_file_names(), written);
}

#[test]
fn remainder_is_saved_at_finalize() {
    let mut saver = IncrementalAudioSaver::new(48000, RecordingFormat::Wav);
    let mut written = Vec::new();
    for _ in 0..70 {
        add(&mut saver, 24000, &mut written);
    }
    assert_eq!(saver.get_checkpoint_count(), 1);
    assert!(saver.has_buffered_chunks());
    assert_eq!(saver.buffered_samples(), 10 * 24000);
    // Finalize: save what is left, then merge.
    save(&mut saver, &mut written);
    assert_eq!(saver.get_checkpoint_count(), 2);
    assert_eq!(saver.final_audio_file(), Ok("audio.wav".to_string()));
    let args = saver.merge_args("/c/concat_list.txt", "/m/audio.wav");
    assert_eq!(
        args,
        vec!["-f", "concat", "-safe", "0", "-i", "/c/concat_list.txt", "-c", "copy", "-y", "/m/audio.wav"]
    );
}

#[test]
fn empty_recording_cannot_be_finalized() {
    let mut saver = IncrementalAudioSaver::new(48000, RecordingFormat::Wav);
    assert!(!saver.has_buffered_chunks());
    assert_eq!(saver.final_audio_file(), Err(FinalizeError::NoCheckpoints));
    // Empty chunks never make a checkpoint.
    let mut written = Vec::new();
    add(&mut saver, 0, &mut written);
    assert!(matches!(saver.next_checkpoint(), CheckpointStep::Skip));
    assert_eq!(saver.get_checkpoint_count(), 0);
    assert_eq!(saver.final_audio_file(), Err(FinalizeError::NoCheckpoints));
}

#[test]
fn zero_sample_rate_checkpoints_every_non_empty_chunk() {
    let mut saver = IncrementalAudioSaver::new(0, RecordingFormat::Flac);
    let mut written = Vec::new();
    add(&mut saver, 0, &mut written);
    assert_eq!(saver.get_checkpoint_count(), 0);
    add(&mut saver, 5, &mut written);
    add(&mut saver, 7, &mut written);
    assert_eq!(saver.get_checkpoint_count(), 2);
}

#[test]
fn uneven_chunks_checkpoint_when_the_threshold_is_reached() {
    // 1 Hz: the threshold is 30 samples.
    let mut saver = IncrementalAudioSaver::new(1, RecordingFormat::Mp3);
    assert!(!saver.add_chunk(29));
    assert!(saver.add_chunk(1));
    assert_eq!(saver.buffered_samples(), 30);
    match saver.next_checkpoint() {
        CheckpointStep::Write { index, file_name, .. } => {
            assert_eq!(index, 0);
            assert_eq!(file_name, "audio_chunk_000.wav");
        }
        CheckpointStep::Skip => panic!("a non-empty buffer is written"),
    }
    // A failed write leaves the state as it was: nothing is recorded.
    assert_eq!(saver.get_checkpoint_count(), 0);
    assert!(saver.add_chunk(3));
    assert_eq!(saver.buffered_samples(), 33);
}

#[test]
fn file_names() {
    assert_eq!(checkpoint_file_name(0), "audio_chunk_000.wav");
    assert_eq!(checkpoint_file_name(42), "audio_chunk_042.wav");
    assert_eq!(checkpoint_file_name(999), "audio_chunk_999.wav");
    assert_eq!(checkpoint_file_name(1000), "audio_chunk_1000.wav");
    assert_eq!(checkpoint_file_name(4294967295), "audio_chunk_4294967295.wav");
    assert_eq!(final_audio_file_name(RecordingFormat::M4a), "audio.m4a");
}

#[test]
fn merge_arguments_and_list() {
    assert_eq!(
        concat_merge_args("l.txt", false, RecordingFormat::Mp3, "audio.mp3"),
        vec![
            "-f", "concat", "-safe", "0", "-i", "l.txt", "-c:a", "libmp3lame", "-b:a", "128k",
            "-f", "mp3", "-y", "audio.mp3"
        ]
    );
    let saver = IncrementalAudioSaver::new(48000, RecordingFormat::Flac);
    assert_eq!(
        saver.merge_args("l.txt", "audio.flac"),
        concat_merge_args("l.txt", false, RecordingFormat::Flac, "audio.flac")
    );
    let paths = vec!["/a/audio_chunk_000.wav".to_string(), "/a/audio_chunk_001.wav".to_string()];
    assert_eq!(
        concat_list(&paths),
        "file '/a/audio_chunk_000.wav'\nfile '/a/audio_chunk_001.wav'\n"
    );
    assert_eq!(concat_list(&Vec::new()), "");
}

#[test]
fn test_checkpoint_detection_accepts_wav_and_legacy_mp4() {
    assert!(is_checkpoint_file("audio_chunk_000.wav"));
    assert!(is_checkpoint_file("audio_chunk_000.mp4"));
    assert!(!is_checkpoint_file("concat_list.txt"));
}

#[test]
fn recovery_orders_checkpoints_by_name() {
    let names: Vec<String> = [
        "audio_chunk_002.wav",
        "concat_list.txt",
        "audio_chunk_000.wav",
        "audio_chunk_010.wav",
        "audio_chunk_001.wav",
    ]
    .iter()
    .map(|s| s.to_string())
    .collect();
    assert!(any_checkpoint_file(&names));
    assert_eq!(checkpoint_merge_order(&names), vec![2, 4, 0, 3]);
    let plan = plan_recovery(&names, RecordingFormat::Mp3).unwrap();
    assert_eq!(plan.checkpoint_files, vec![2, 4, 0, 3]);
    assert_eq!(plan.chunk_count, 4);
    assert_eq!(plan.checkpoint_format, RecordingFormat::Wav);
    assert!(!plan.stream_copy);
    assert_eq!(plan.output_file_name, "audio.mp3");
    let same = plan_recovery(&names, RecordingFormat::Wav).unwrap();
    assert!(same.stream_copy);
    assert_eq!(same.output_file_name, "audio.wav");
}

#[test]
fn recovery_of_legacy_mp4_chunks_and_of_nothing() {
    let legacy: Vec<String> = ["audio_chunk_001.mp4", "audio_chunk_000.mp4"]
        .iter()
        .map(|s| s.to_string())
        .collect();
    let plan = plan_recovery(&legacy, RecordingFormat::Mp4).unwrap();
    assert_eq!(plan.checkpoint_files, vec![1, 0]);
    assert_eq!(plan.checkpoint_format, RecordingFormat::Mp4);
    assert!(plan.stream_copy);
    let none: Vec<String> = vec!["concat_list.txt".to_string(), "notes".to_string()];
    assert!(!any_checkpoint_file(&none));
    assert!(plan_recovery(&none, RecordingFormat::Wav).is_none());
    assert!(plan_recovery(&Vec::new(), RecordingFormat::Wav).is_none());
}

#[test]
fn recovery_sorts_by_bytes_beyond_a_thousand_checkpoints() {
    let names: Vec<String> = ["audio_chunk_1000.wav", "audio_chunk_101.wav", "Z.wav", "a.WAV"]
        .iter()
        .map(|s| s.to_string())
        .collect();
    assert_eq!(checkpoint_merge_order(&names), vec![2, 3, 0, 1]);
}

#[test]
fn buffer_never_holds_a_full_interval_between_chunks() {
    let mut saver = IncrementalAudioSaver::new(1, RecordingFormat::Wav);
    let mut written = Vec::new();
    for len in [7usize, 13, 29, 1, 0, 45, 2, 30, 11, 19] {
        add(&mut saver, len, &mut written);
        assert!(saver.buffered_samples() < 30);
    }
    // 7+13+29 | 1+0+45 | 2+30 | 11+19 reach 30 four times.
    assert_eq!(saver.get_checkpoint_count(), 4);
    assert_eq!(written.len(), 4);
}

#[test]
fn finalize_saves_the_remainder_then_merges() {
    let mut saver = IncrementalAudioSaver::new(48000, RecordingFormat::Flac);
    let mut written = Vec::new();
    for _ in 0..70 {
        add(&mut saver, 24000, &mut written);
    }
    match saver.next_finalize_step() {
        Ok(FinalizeStep::SaveRemaining(CheckpointStep::Write { index, file_name, .. })) => {
            assert_eq!(index, 1);
            assert_eq!(file_name, "audio_chunk_001.wav");
        }
        _ => panic!("buffered chunks are saved first"),
    }
    save(&mut saver, &mut written);
    match saver.next_finalize_step() {
        Ok(FinalizeStep::Merge { file_name }) => assert_eq!(file_name, "audio.flac"),
        _ => panic!("then the checkpoints are merged"),
    }
    let empty = IncrementalAudioSaver::new(48000, RecordingFormat::Flac);
    assert!(matches!(empty.next_finalize_step(), Err(FinalizeError::NoCheckpoints)));
}

#[test]
fn saver_settings_never_change() {
    let mut saver = IncrementalAudioSaver::new(44100, RecordingFormat::M4a);
    assert_eq!(saver.checkpoint_interval_samples(), 44100 * 30);
    let mut written = Vec::new();
    for len in [100usize, 2_000_000, 0, 5] {
        add(&mut saver, len, &mut written);
    }
    assert_eq!(saver.get_output_format(), RecordingFormat::M4a);
    assert_eq!(saver.get_sample_rate(), 44100);
    assert_eq!(saver.checkpoint_interval_samples(), 44100 * 30);
}

#[test]
fn recovery_plans_agree_for_the_same_names() {
    let names: Vec<String> = ["audio_chunk_001.wav", "x.txt", "audio_chunk_000.wav"]
        .iter()
        .map(|s| s.to_string())
        .collect();
    let a = plan_recovery(&names, RecordingFormat::Mp3).unwrap();
    let b = plan_recovery(&names, RecordingFormat::Mp3).unwrap();
    assert_eq!(a.checkpoint_files, b.checkpoint_files);
    assert_eq!(a.checkpoint_files, vec![2, 0]);
    assert_eq!(a.chunk_count, b.chunk_count);
    assert_eq!(a.checkpoint_format, b.checkpoint_format);
    assert_eq!(a.stream_copy, b.stream_copy);
    assert_eq!(a.output_file_name, b.output_file_name);
}

#[test]
fn recovery_reports() {
    let ok = recovery_report(4, "/m/audio.mp3", MergeRun::Succeeded);
    assert_eq!(ok.status, "success");
    assert_eq!(ok.chunk_count, 4);
    assert_eq!(ok.audio_file_path, Some("/m/audio.mp3".to_string()));
    assert_eq!(ok.message, "Successfully recovered 4 audio chunks");
    let failed = recovery_report(2, "/m/audio.mp3", MergeRun::Failed { stderr: "bad input".to_string() });
    assert_eq!(failed.status, "failed");
    assert_eq!(failed.audio_file_path, None);
    assert_eq!(failed.message, "FFmpeg failed: bad input");
    let not_run = recovery_report(2, "/m/a.wav", MergeRun::NotRun { error: "no such file".to_string() });
    assert_eq!(not_run.status, "failed");
    assert_eq!(not_run.message, "Failed to run FFmpeg: no such file");
    let none = no_recovery_report(false);
    assert_eq!(none.status, "none");
    assert_eq!(none.chunk_count, 0);
    assert_eq!(none.message, "No audio checkpoints found");
    assert_eq!(no_recovery_report(true).message, "No audio checkpoint files found");
}

#[test]
fn every_sample_reaches_a_checkpoint() {
    let mut saver = IncrementalAudioSaver::new(10, RecordingFormat::Wav);
    let mut written = Vec::new();
    let lens = [120usize, 0, 250, 31, 299, 1, 0, 7];
    for len in lens {
        add(&mut saver, len, &mut written);
    }
    // 120+0+250 | 31+299 | 1+0+7 buffered: the threshold is 300 samples.
    assert_eq!(saver.get_checkpoint_count(), 2);
    assert_eq!(saver.buffered_samples(), 8);
    save(&mut saver, &mut written);
    assert_eq!(saver.buffered_samples(), 0);
    assert_eq!(saver.get_checkpoint_count(), 3);
    assert!(!saver.has_buffered_chunks());
}
