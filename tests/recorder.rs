use memoire::recorder::{Action, MonitorState, NewFrame, Poll};

/// Feeds one captured frame through the decisions, opening a chunk with
/// `next_id` where one is asked for; returns whether a row was buffered.
fn offer(m: &mut MonitorState, hash: u64, ts: i64, next_id: &mut i64, rows: &mut Vec<NewFrame>) -> bool {
    let mut a = m.on_poll(Poll::Frame { hash, timestamp_ms: ts }, ts);
    if a == Action::OpenChunk {
        *next_id += 1;
        assert!(m.start_chunk(*next_id));
        a = m.on_poll(Poll::Frame { hash, timestamp_ms: ts }, ts);
    }
    match a {
        Action::Buffered { flush_due } => {
            if flush_due {
                rows.extend(m.take_pending(ts));
            }
            true
        }
        Action::Skipped => false,
        other => panic!("unexpected action {:?}", other),
    }
}

fn finalize(m: &mut MonitorState, now: i64, rows: &mut Vec<NewFrame>) -> Option<i64> {
    rows.extend(m.take_pending(now));
    m.finish_chunk(true)
}

#[test]
fn single_monitor_ten_frames_first_four_identical() {
    let mut m = MonitorState::new(0);
    let mut rows = Vec::new();
    let mut next_id = 0;
    let hashes: [u64; 10] = [0, 0, 0, 0, 0xff, 0xff00, 0xff_0000, 0xff00_0000, 0xff_0000_0000, 0xff00_0000_0000];
    for (i, h) in hashes.iter().enumerate() {
        offer(&mut m, *h, i as i64 * 1000, &mut next_id, &mut rows);
    }
    let ev = finalize(&mut m, 10_000, &mut rows);
    assert_eq!(ev, Some(1));
    assert_eq!(next_id, 1);
    assert_eq!(rows.len(), 7);
    let offsets: Vec<i64> = rows.iter().map(|r| r.offset_index).collect();
    assert_eq!(offsets, vec![0, 1, 2, 3, 4, 5, 6]);
    assert!(rows.iter().all(|r| r.video_chunk_id == 1 && r.frame_hash.is_some()));
    assert_eq!(m.skipped_frames(), 3);
}

#[test]
fn two_monitors_record_independently() {
    let mut a = MonitorState::new(0);
    let mut b = MonitorState::new(0);
    let mut rows = Vec::new();
    let mut next_id = 0;
    for i in 0..5u64 {
        offer(&mut a, 0xffu64 << (8 * i), i as i64 * 1000, &mut next_id, &mut rows);
        offer(&mut b, 0xff00_0000_0000_0000u64 >> (8 * i) | 1, i as i64 * 1000, &mut next_id, &mut rows);
    }
    let ea = finalize(&mut a, 5000, &mut rows);
    let eb = finalize(&mut b, 5000, &mut rows);
    assert_eq!(ea, Some(1));
    assert_eq!(eb, Some(2));
    assert_eq!(rows.len(), 10);
    for chunk in [1, 2] {
        let mut offs: Vec<i64> = rows.iter().filter(|r| r.video_chunk_id == chunk).map(|r| r.offset_index).collect();
        offs.sort();
        assert_eq!(offs, vec![0, 1, 2, 3, 4]);
    }
}

#[test]
fn device_lost_finalizes_and_restarts_at_offset_zero() {
    let mut m = MonitorState::new(0);
    let mut rows = Vec::new();
    let mut next_id = 0;
    for i in 0..12u64 {
        assert!(offer(&mut m, if i % 2 == 0 { 0 } else { u64::MAX }, i as i64, &mut next_id, &mut rows));
    }
    // Frame 12: the display device is lost; one poll asks for a rebuild.
    assert_eq!(m.on_poll(Poll::DeviceLost, 100), Action::Reinitialize);
    let ev = finalize(&mut m, 100, &mut rows);
    assert_eq!(ev, Some(1));
    assert_eq!(m.current_chunk_id(), None);
    m.reset_errors();
    let n = 3u64;
    for i in 0..n {
        assert!(offer(&mut m, if i % 2 == 0 { 0 } else { u64::MAX }, 200 + i as i64, &mut next_id, &mut rows));
    }
    assert_eq!(finalize(&mut m, 300, &mut rows), Some(2));
    assert_eq!(rows.len() as u64, 12 + n);
    let first: Vec<i64> = rows.iter().filter(|r| r.video_chunk_id == 1).map(|r| r.offset_index).collect();
    assert_eq!(first, (0..12).collect::<Vec<i64>>());
    let second: Vec<i64> = rows.iter().filter(|r| r.video_chunk_id == 2).map(|r| r.offset_index).collect();
    assert_eq!(second, vec![0, 1, 2]);
}

#[test]
fn ten_failed_polls_in_a_row_ask_for_a_rebuild() {
    let mut m = MonitorState::new(0);
    for k in 1..10 {
        assert_eq!(m.on_poll(Poll::Failed, k), Action::Idle);
    }
    assert_eq!(m.consecutive_errors(), 9);
    assert_eq!(m.on_poll(Poll::Failed, 10), Action::Reinitialize);
    m.reset_errors();
    assert_eq!(m.on_poll(Poll::Failed, 11), Action::Idle);
}

#[test]
fn idle_polls_create_nothing() {
    let mut m = MonitorState::new(0);
    for t in 0..30 {
        assert_eq!(m.on_poll(Poll::NoFrame, t * 1000), Action::Idle);
    }
    assert_eq!(m.current_chunk_id(), None);
    assert_eq!(m.pending_len(), 0);
    assert_eq!(m.finish_chunk(true), None);
}

#[test]
fn shutdown_announces_each_open_chunk_once() {
    let mut m = MonitorState::new(0);
    let mut rows = Vec::new();
    let mut next_id = 41;
    offer(&mut m, 7, 0, &mut next_id, &mut rows);
    assert_eq!(finalize(&mut m, 1, &mut rows), Some(42));
    assert_eq!(m.chunk_index(), 1);
    // A second shutdown pass: no chunk is open, the encoder wrote nothing.
    assert!(m.take_pending(2).is_empty());
    assert_eq!(m.finish_chunk(false), None);
    assert_eq!(m.chunk_index(), 1);
}

#[test]
fn batch_fills_at_thirty_rows_or_five_seconds() {
    let mut m = MonitorState::new(0);
    assert_eq!(m.on_poll(Poll::Frame { hash: 0, timestamp_ms: 0 }, 0), Action::OpenChunk);
    assert!(m.start_chunk(3));
    let mut due_at = None;
    for i in 0..30u64 {
        let h = if i % 2 == 0 { 0 } else { u64::MAX };
        if let Action::Buffered { flush_due: true } = m.on_poll(Poll::Frame { hash: h, timestamp_ms: 0 }, 10) {
            due_at.get_or_insert(i);
        }
    }
    assert_eq!(due_at, Some(29));
    assert_eq!(m.take_pending(10).len(), 30);
    assert_eq!(m.on_poll(Poll::Frame { hash: 0, timestamp_ms: 0 }, 5010), Action::Buffered { flush_due: true });
}

#[test]
fn chunk_ids_must_grow() {
    let mut m = MonitorState::new(0);
    assert!(m.start_chunk(5));
    assert!(!m.start_chunk(6));
    assert_eq!(m.finish_chunk(false), None);
    assert!(!m.start_chunk(5));
    assert!(m.start_chunk(6));
    assert_eq!(m.frame_index(), 0);
}
