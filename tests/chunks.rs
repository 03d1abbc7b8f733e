use memoire::chunks::{audio_chunk_path, transcription_rows, video_chunk_complete, video_chunk_path, AudioChunker};
use memoire::config::AudioEncoderConfig;
use memoire::tokenizer::WordSegment;

#[test]
fn video_chunk_rolls_over_after_duration() {
    assert!(!video_chunk_complete(0, 299_999, 300));
    assert!(video_chunk_complete(0, 300_000, 300));
    assert!(!video_chunk_complete(1_000, 0, 1));
    assert!(!video_chunk_complete(10_000, 9_000, 300));
    assert!(video_chunk_complete(0, 0, 0));
}

#[test]
fn audio_chunker_counts_samples() {
    let config = AudioEncoderConfig::default();
    let mut c = AudioChunker::new(&config);
    assert!(!c.add_samples(240_000, 1000));
    assert_eq!(c.buffered_samples(), 240_000);
    assert!(c.add_samples(240_000, 2000));
    assert_eq!(c.finish(), Some((Some(1000), 0)));
    assert_eq!(c.buffered_samples(), 0);
    assert_eq!(c.finish(), None);
    assert!(!c.add_samples(10, 5000));
    assert_eq!(c.finish(), Some((Some(5000), 1)));
}

#[test]
fn chunk_file_paths() {
    // 2024-03-05 14:07:09 UTC
    let secs = 1_709_647_629;
    assert_eq!(
        video_chunk_path("\\\\.\\DISPLAY1", secs, 3).unwrap(),
        "videos/DISPLAY1/2024-03-05/chunk_14-07-09_3.mp4"
    );
    assert_eq!(
        audio_chunk_path("data/audio", "Mic: USB", secs, 12).unwrap(),
        "data/audio/Mic_ USB/2024-03-05/chunk_14-07-09_12.wav"
    );
}

#[test]
fn chunk_paths_exist_for_dated_times() {
    assert!(video_chunk_path("m", 0, 0).is_some());
    assert!(video_chunk_path("m", -8_000_000_000_000, 0).is_some());
    assert!(audio_chunk_path("a", "d", 8_000_000_000_000, 1).is_some());
    assert_eq!(video_chunk_path("m", 0, 0).unwrap(), "videos/m/1970-01-01/chunk_00-00-00_0.mp4");
}

#[test]
fn rows_for_segments_text_and_silence() {
    let segs = vec![
        WordSegment { text: "hi".to_string(), start_ms: 0, end_ms: 80 },
        WordSegment { text: "there".to_string(), start_ms: 160, end_ms: 240 },
    ];
    let rows = transcription_rows("hi there", &segs);
    assert_eq!(rows.len(), 2);
    assert_eq!((rows[1].text.as_str(), rows[1].start_ms, rows[1].end_ms), ("there", Some(160), Some(240)));
    let rows = transcription_rows("hello", &Vec::new());
    assert_eq!(rows.len(), 1);
    assert_eq!((rows[0].text.as_str(), rows[0].start_ms), ("hello", None));
}
