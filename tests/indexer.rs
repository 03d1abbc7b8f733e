use memoire::indexer::{
    confidence_from_classes, estimate_confidence, BusEvent, CharClass, IndexerAction, IndexerSchedule, Mode,
    OcrBatch,
};
use memoire::indexer::{ocr_row, shutdown_overdue};

#[test]
fn test_confidence_estimation() {
    let c = |s: &str| estimate_confidence(s) as f32 / 10000.0;
    assert!(c("Hello") > 0.7);
    assert!(c("HelloWorld123") > 0.8);
    assert!(c("ALLCAPS") < 0.7);
    assert!(c("12345") < 0.6);
    assert_eq!(c(""), 0.0);
}

#[test]
fn confidence_exact_values() {
    assert_eq!(estimate_confidence("Hello"), 7000 + 375 + 500);
    assert_eq!(estimate_confidence("HelloWorld123"), 7000 + 975 + 500 + 500);
    assert_eq!(estimate_confidence("ALLCAPS"), 7000 + 525 - 1000);
    assert_eq!(estimate_confidence("12345"), 7000 + 375 - 1000 - 1500);
    assert_eq!(estimate_confidence("a long lowercase sentence"), 7000 + 1500);
    assert_eq!(estimate_confidence("é"), 7000 + 150);
}

#[test]
fn confidence_is_clamped() {
    let all = CharClass { lower: true, upper: true, numeric: true, alphabetic: true };
    assert_eq!(confidence_from_classes(100, &vec![all; 3]), 7000 + 1500 + 500 + 500 - 1000 - 1500);
    assert_eq!(confidence_from_classes(0, &vec![]), 0);
}

#[test]
fn lag_brings_a_polling_sweep_then_events_again() {
    let mut s = IndexerSchedule::new(true);
    assert_eq!(s.on_event(BusEvent::Chunk(4)), IndexerAction::ProcessChunk(4));
    assert_eq!(s.on_event(BusEvent::Lagged(12)), IndexerAction::PollSweep);
    assert_eq!(s.mode(), Mode::Events);
    assert_eq!(s.on_event(BusEvent::Chunk(5)), IndexerAction::ProcessChunk(5));
    assert_eq!(s.on_event(BusEvent::Timeout), IndexerAction::PollSweep);
}

#[test]
fn closed_bus_means_polling_for_good() {
    let mut s = IndexerSchedule::new(true);
    assert_eq!(s.on_event(BusEvent::Closed), IndexerAction::PollSweep);
    assert_eq!(s.mode(), Mode::Polling);
    assert_eq!(s.on_event(BusEvent::Chunk(9)), IndexerAction::PollSweep);
    assert_eq!(s.mode(), Mode::Polling);
    assert_eq!(IndexerSchedule::new(false).mode(), Mode::Polling);
}

#[test]
fn shutdown_mid_batch_finishes_frame_in_flight_only() {
    let mut b = OcrBatch::new(5);
    assert_eq!(b.next_frame(false), Some(0));
    assert_eq!(b.next_frame(false), Some(1));
    // Shutdown arrives while frame 1 is being recognized; it completes.
    assert_eq!(b.next_frame(true), None);
    assert_eq!(b.next_frame(false), None);
    assert_eq!(b.processed(), 2);
}

#[test]
fn batch_runs_to_its_end() {
    let mut b = OcrBatch::new(2);
    assert_eq!(b.next_frame(false), Some(0));
    assert_eq!(b.next_frame(false), Some(1));
    assert_eq!(b.next_frame(false), None);
}

#[test]
fn shutdown_deadline() {
    assert!(!shutdown_overdue(1000, 30_999));
    assert!(shutdown_overdue(1000, 31_000));
    assert!(!shutdown_overdue(5000, 10));
}

#[test]
fn failed_frames_get_an_empty_row() {
    let r = ocr_row(None);
    assert_eq!((r.text.as_str(), r.text_json.clone(), r.confidence_bp), ("", None, 0));
    let r = ocr_row(Some(("Hello".to_string(), Some("[]".to_string()))));
    assert_eq!((r.text.as_str(), r.text_json.as_deref(), r.confidence_bp), ("Hello", Some("[]"), 7875));
}
