//! Per-monitor recording decisions: duplicate suppression, chunk allocation,
//! batched frame rows, error counting and chunk finalization.
//!
//! The capture, the encoder and the database stay with the caller, which
//! reports each poll of the capture and carries out the returned action.

use vstd::prelude::*;
use crate::fingerprint::{bit_difference, CapturedFrame, DEDUP_THRESHOLD};

verus! {

/// Frame rows written to the database in one batch.
pub const FRAME_BATCH_SIZE: usize = 30;

/// Longest time pending frame rows wait before a flush, in milliseconds.
pub const FRAME_FLUSH_INTERVAL_MS: i64 = 5000;

/// Consecutive capture errors after which the capture is rebuilt.
pub const MAX_CONSECUTIVE_ERRORS: u32 = 10;

/// Published when a video chunk is closed and all its frame rows are stored.
#[derive(Debug, Clone, PartialEq, Eq)]
pub struct ChunkFinalizedEvent {
    pub chunk_id: i64,
    pub video_path: String,
    pub monitor_name: String,
}

/// A video chunk row to insert.
#[derive(Debug, Clone, PartialEq, Eq)]
pub struct NewVideoChunk {
    pub file_path: String,
    pub device_name: String,
    pub width: Option<u32>,
    pub height: Option<u32>,
}

/// A frame row to insert.
#[derive(Debug, Clone, PartialEq, Eq)]
pub struct NewFrame {
    pub video_chunk_id: i64,
    pub offset_index: i64,
    /// Capture time, milliseconds since the Unix epoch.
    pub timestamp_ms: i64,
    pub app_name: Option<String>,
    pub window_name: Option<String>,
    pub browser_url: Option<String>,
    pub focused: bool,
    pub frame_hash: Option<u64>,
}

/// What one poll of a monitor's capture gave.
#[derive(Debug, Clone, Copy, PartialEq, Eq)]
pub enum Poll {
    /// A new frame with its fingerprint.
    Frame { hash: u64, timestamp_ms: i64 },
    /// No new frame within the poll's timeout.
    NoFrame,
    /// The capture failed in another way (a frame could not be read).
    Failed,
    /// The display device was lost or access to it was denied: the current
    /// chunk is finalized at once and the capture rebuilt.
    DeviceLost,
}

/// What the caller does after a poll.
#[derive(Debug, Clone, Copy, PartialEq, Eq)]
pub enum Action {
    /// Nothing.
    Idle,
    /// The frame repeats the last accepted one and was dropped.
    Skipped,
    /// A chunk row must be inserted and passed to `start_chunk`; then the
    /// same frame is offered again.
    OpenChunk,
    /// The frame row is pending and the frame goes to the encoder; with
    /// `flush_due` the pending rows are to be written now.
    Buffered { flush_due: bool },
    /// The current chunk is to be finalized and the capture rebuilt: at
    /// once on a lost device, else after `MAX_CONSECUTIVE_ERRORS` failed
    /// polls in a row.
    Reinitialize,
}

/// A frame row as the history records it.
pub struct FrameRow {
    pub chunk: i64,
    pub offset: i64,
    pub hash: u64,
}

/// Abstract state of one monitor's recorder.
pub struct MonitorModel {
    pub current_chunk: Option<i64>,
    pub last_chunk: Option<i64>,
    pub frame_index: int,
    pub chunk_index: int,
    pub errors: int,
    pub pending: Seq<FrameRow>,
    pub last_flush_ms: int,
    pub last_hash: Option<u64>,
    pub skipped: int,
    /// Every frame row ever buffered, in order.
    pub rows: Seq<FrameRow>,
}

/// Offsets of the rows of `chunk`, in order.
pub open spec fn offsets_in(rows: Seq<FrameRow>, chunk: i64) -> Seq<int>
    decreases rows.len(),
{
    if rows.len() == 0 {
        Seq::empty()
    } else {
        offsets_in(rows.drop_last(), chunk) + if rows.last().chunk == chunk {
            seq![rows.last().offset as int]
        } else {
            Seq::empty()
        }
    }
}

/// The offsets `0, 1, ..., n - 1`.
pub open spec fn dense(n: nat) -> Seq<int> {
    Seq::new(n, |j: int| j)
}

/// Whether `hash` repeats `last` within the dedup threshold.
pub open spec fn is_repeat(last: Option<u64>, hash: u64) -> bool {
    match last {
        Some(h) => bit_difference(hash, h) <= DEDUP_THRESHOLD,
        None => false,
    }
}

pub open spec fn flush_due(pending_len: int, last_flush_ms: int, now_ms: int) -> bool {
    pending_len >= FRAME_BATCH_SIZE || now_ms - last_flush_ms >= FRAME_FLUSH_INTERVAL_MS
}

/// The state and action after one poll at time `now_ms`.
pub open spec fn poll_step(m: MonitorModel, poll: Poll, now_ms: int) -> (MonitorModel, Action) {
    match poll {
        Poll::NoFrame => (m, Action::Idle),
        Poll::DeviceLost => (m, Action::Reinitialize),
        Poll::Failed => {
            let e = if m.errors < u32::MAX { m.errors + 1 } else { m.errors };
            (
                MonitorModel { errors: e, ..m },
                if e >= MAX_CONSECUTIVE_ERRORS { Action::Reinitialize } else { Action::Idle },
            )
        },
        Poll::Frame { hash, timestamp_ms } => {
            if is_repeat(m.last_hash, hash) {
                (
                    MonitorModel {
                        skipped: if m.skipped < u64::MAX { m.skipped + 1 } else { m.skipped },
                        ..m
                    },
                    Action::Skipped,
                )
            } else {
                match m.current_chunk {
                    None => (m, Action::OpenChunk),
                    Some(c) => {
                        let row = FrameRow { chunk: c, offset: m.frame_index as i64, hash };
                        let pending = m.pending.push(row);
                        (
                            MonitorModel {
                                current_chunk: if m.frame_index + 1 == i64::MAX {
                                    None
                                } else {
                                    Some(c)
                                },
                                frame_index: m.frame_index + 1,
                                errors: 0,
                                pending,
                                last_hash: Some(hash),
                                rows: m.rows.push(row),
                                ..m
                            },
                            Action::Buffered {
                                flush_due: flush_due(pending.len() as int, m.last_flush_ms, now_ms),
                            },
                        )
                    },
                }
            }
        },
    }
}

/// Recording state of one monitor.
pub struct MonitorState {
    current_chunk_id: Option<i64>,
    last_chunk_id: Option<i64>,
    frame_index: i64,
    chunk_index: u64,
    consecutive_errors: u32,
    pending_frames: Vec<NewFrame>,
    last_flush_ms: i64,
    last_frame_hash: Option<u64>,
    skipped_frames: u64,
    rows: Ghost<Seq<FrameRow>>,
}

pub open spec fn row_of(f: NewFrame) -> FrameRow {
    FrameRow {
        chunk: f.video_chunk_id,
        offset: f.offset_index,
        hash: match f.frame_hash {
            Some(h) => h,
            None => 0,
        },
    }
}

pub open spec fn rows_of(v: Seq<NewFrame>) -> Seq<FrameRow> {
    v.map_values(|f: NewFrame| row_of(f))
}

impl MonitorState {
    pub closed spec fn model(&self) -> MonitorModel {
        MonitorModel {
            current_chunk: self.current_chunk_id,
            last_chunk: self.last_chunk_id,
            frame_index: self.frame_index as int,
            chunk_index: self.chunk_index as int,
            errors: self.consecutive_errors as int,
            pending: rows_of(self.pending_frames@),
            last_flush_ms: self.last_flush_ms as int,
            last_hash: self.last_frame_hash,
            skipped: self.skipped_frames as int,
            rows: self.rows@,
        }
    }

    /// The frame rows still to be written.
    pub closed spec fn pending(&self) -> Seq<NewFrame> {
        self.pending_frames@
    }

    /// The state's invariant: the offsets of each chunk's rows are
    /// `0, 1, ...` in order; the current chunk has `frame_index` rows and
    /// is the newest chunk; each row's frame differs by more than the
    /// threshold from the one before it.
    pub open spec fn wf(&self) -> bool {
        let m = self.model();
        &&& forall|c: i64| #[trigger] offsets_in(m.rows, c) == dense(offsets_in(m.rows, c).len())
        &&& forall|c: i64|
            #![trigger offsets_in(m.rows, c)]
            (m.last_chunk matches Some(l) && c > l) ==> offsets_in(m.rows, c).len() == 0
        &&& m.last_chunk is None ==> m.rows.len() == 0
        &&& m.current_chunk matches Some(c) ==> m.last_chunk == Some(c) && offsets_in(m.rows, c).len()
            == m.frame_index
        &&& 0 <= m.frame_index <= i64::MAX
        &&& m.current_chunk is Some ==> m.frame_index < i64::MAX
        &&& m.pending == rows_of(self.pending())
        &&& (m.current_chunk is Some && m.frame_index > 0) ==> m.rows.len() > 0 && m.rows.last().chunk
            == m.current_chunk->0 && m.rows.last().offset == m.frame_index - 1
        &&& forall|i: int|
            0 <= i < m.rows.len() && (#[trigger] m.rows[i]).offset > 0 ==> i > 0 && m.rows[i - 1].chunk
                == m.rows[i].chunk && m.rows[i - 1].offset + 1 == m.rows[i].offset
        &&& forall|i: int| 0 <= i < m.rows.len() ==> (#[trigger] m.rows[i]).offset >= 0
        &&& forall|i: int|
            0 <= i < m.rows.len() ==> m.last_chunk is Some && (#[trigger] m.rows[i]).chunk
                <= m.last_chunk->0
        &&& forall|i: int|
            0 <= i < m.rows.len() && m.current_chunk is Some && (#[trigger] m.rows[i]).chunk
                == m.current_chunk->0 ==> m.rows[i].offset < m.frame_index
        &&& forall|i: int, j: int|
            0 <= i < j < m.rows.len() && (#[trigger] m.rows[i]).chunk == (#[trigger] m.rows[j]).chunk
                ==> m.rows[i].offset < m.rows[j].offset
        &&& m.rows.len() > 0 ==> m.last_hash == Some(m.rows.last().hash)
        &&& forall|i: int|
            0 < i < m.rows.len() ==> bit_difference(#[trigger] m.rows[i].hash, m.rows[i - 1].hash)
                > DEDUP_THRESHOLD
        &&& forall|i: int| 0 <= i < self.pending().len() ==> (#[trigger] self.pending()[i]).frame_hash is Some
    }

    /// A monitor with no chunk, nothing pending, and the last flush at
    /// `now_ms`.
    pub fn new(now_ms: i64) -> (r: MonitorState)
        ensures
            r.wf(),
            r.model() == (MonitorModel {
                current_chunk: None,
                last_chunk: None,
                frame_index: 0,
                chunk_index: 0,
                errors: 0,
                pending: Seq::empty(),
                last_flush_ms: now_ms as int,
                last_hash: None,
                skipped: 0,
                rows: Seq::empty(),
            }),
    {
        let r = MonitorState {
            current_chunk_id: None,
            last_chunk_id: None,
            frame_index: 0,
            chunk_index: 0,
            consecutive_errors: 0,
            pending_frames: Vec::new(),
            last_flush_ms: now_ms,
            last_frame_hash: None,
            skipped_frames: 0,
            rows: Ghost(Seq::empty()),
        };
        assert(rows_of(r.pending_frames@) =~= Seq::<FrameRow>::empty());
        assert forall|c: i64| #[trigger] offsets_in(Seq::<FrameRow>::empty(), c) == dense(
            offsets_in(Seq::<FrameRow>::empty(), c).len(),
        ) by {
            assert(dense(0) =~= Seq::<int>::empty());
        }
        r
    }

    /// Handles one poll of the capture at time `now_ms`; see `poll_step`.
    pub fn on_poll(&mut self, poll: Poll, now_ms: i64) -> (a: Action)
        requires
            old(self).wf(),
        ensures
            final(self).wf(),
            (final(self).model(), a) == poll_step(old(self).model(), poll, now_ms as int),
            a is Buffered ==> final(self).pending() == old(self).pending().push(
                NewFrame {
                    video_chunk_id: old(self).model().current_chunk->0,
                    offset_index: old(self).model().frame_index as i64,
                    timestamp_ms: match poll {
                        Poll::Frame { hash: _, timestamp_ms } => timestamp_ms,
                        _ => 0,
                    },
                    app_name: None,
                    window_name: None,
                    browser_url: None,
                    focused: true,
                    frame_hash: match poll {
                        Poll::Frame { hash, timestamp_ms: _ } => Some(hash),
                        _ => None,
                    },
                },
            ),
            !(a is Buffered) ==> final(self).pending() == old(self).pending(),
    {
        match poll {
            Poll::NoFrame => Action::Idle,
            Poll::DeviceLost => Action::Reinitialize,
            Poll::Failed => {
                if self.consecutive_errors < u32::MAX {
                    self.consecutive_errors = self.consecutive_errors + 1;
                }
                if self.consecutive_errors >= MAX_CONSECUTIVE_ERRORS {
                    Action::Reinitialize
                } else {
                    Action::Idle
                }
            },
            Poll::Frame { hash, timestamp_ms } => {
                let repeat = match self.last_frame_hash {
                    Some(h) => CapturedFrame::hash_distance(hash, h) <= DEDUP_THRESHOLD,
                    None => false,
                };
                if repeat {
                    if self.skipped_frames < u64::MAX {
                        self.skipped_frames = self.skipped_frames + 1;
                    }
                    return Action::Skipped;
                }
                match self.current_chunk_id {
                    None => Action::OpenChunk,
                    Some(c) => {
                        let due = self.buffer_frame(c, hash, timestamp_ms, now_ms);
                        Action::Buffered { flush_due: due }
                    },
                }
            },
        }
    }

    /// Appends the row of an accepted frame to the current chunk `c`.
    #[verifier::rlimit(100)]
    fn buffer_frame(&mut self, c: i64, hash: u64, timestamp_ms: i64, now_ms: i64) -> (due: bool)
        requires
            old(self).wf(),
            old(self).model().current_chunk == Some(c),
            !is_repeat(old(self).model().last_hash, hash),
        ensures
            final(self).wf(),
            (final(self).model(), Action::Buffered { flush_due: due }) == poll_step(
                old(self).model(),
                Poll::Frame { hash, timestamp_ms },
                now_ms as int,
            ),
            final(self).pending() == old(self).pending().push(
                NewFrame {
                    video_chunk_id: c,
                    offset_index: old(self).model().frame_index as i64,
                    timestamp_ms,
                    app_name: None,
                    window_name: None,
                    browser_url: None,
                    focused: true,
                    frame_hash: Some(hash),
                },
            ),
    {
        let ghost m0 = self.model();
        let ghost old_rows = self.rows@;
        let ghost old_pending = self.pending_frames@;
        let f = NewFrame {
            video_chunk_id: c,
            offset_index: self.frame_index,
            timestamp_ms,
            app_name: None,
            window_name: None,
            browser_url: None,
            focused: true,
            frame_hash: Some(hash),
        };
        let ghost row = row_of(f);
        self.pending_frames.push(f);
        self.rows = Ghost(old_rows.push(row));
        proof {
            assert(rows_of(self.pending_frames@) =~= rows_of(old_pending).push(row));
            lemma_offsets_push(old_rows, row);
            let rows = old_rows.push(row);
            assert forall|d: i64| #[trigger] offsets_in(rows, d) == dense(offsets_in(rows, d).len()) by {
                if d == c {
                    assert(offsets_in(old_rows, d).len() == m0.frame_index);
                    assert(offsets_in(rows, d) =~= dense(offsets_in(rows, d).len()));
                }
            }
            assert forall|i: int| 0 < i < rows.len() implies bit_difference(
                #[trigger] rows[i].hash,
                rows[i - 1].hash,
            ) > DEDUP_THRESHOLD by {
                if i == rows.len() - 1 {
                    assert(rows[i].hash == hash);
                    assert(rows[i - 1] == old_rows.last());
                } else {
                    assert(rows[i] == old_rows[i]);
                    assert(rows[i - 1] == old_rows[i - 1]);
                }
            }
            assert forall|i: int| 0 <= i < self.pending_frames@.len() implies (
            #[trigger] self.pending_frames@[i]).frame_hash is Some by {
                if i < old_pending.len() {
                    assert(self.pending_frames@[i] == old_pending[i]);
                }
            }
        }
        self.frame_index = self.frame_index + 1;
        self.consecutive_errors = 0;
        self.last_frame_hash = Some(hash);
        let n = self.pending_frames.len();
        let elapsed: i128 = now_ms as i128 - self.last_flush_ms as i128;
        let due = n >= FRAME_BATCH_SIZE || elapsed >= FRAME_FLUSH_INTERVAL_MS as i128;
        if self.frame_index == i64::MAX {
            self.current_chunk_id = None;
        }
        proof {
            let m = self.model();
            let rows = m.rows;
            assert(rows == old_rows.push(row));
            assert forall|d: i64|
                #![trigger offsets_in(rows, d)]
                (m.last_chunk matches Some(l) && d > l) implies offsets_in(rows, d).len() == 0 by {
                assert(offsets_in(rows, d) == offsets_in(old_rows, d));
            }
            assert(offsets_in(rows, c) == offsets_in(old_rows, c) + seq![row.offset as int]);
            assert(m.rows.last().hash == hash);
            assert forall|i: int|
                0 <= i < rows.len() && (#[trigger] rows[i]).offset > 0 implies i > 0 && rows[i - 1].chunk
                    == rows[i].chunk && rows[i - 1].offset + 1 == rows[i].offset by {
                if i < old_rows.len() {
                    assert(rows[i] == old_rows[i]);
                    if i > 0 {
                        assert(rows[i - 1] == old_rows[i - 1]);
                    }
                } else {
                    assert(rows[i] == row);
                    assert(rows[i - 1] == old_rows.last());
                }
            }
            assert forall|i: int| 0 <= i < rows.len() implies (#[trigger] rows[i]).offset >= 0 by {
                if i < old_rows.len() {
                    assert(rows[i] == old_rows[i]);
                }
            }
            assert(m.pending == rows_of(self.pending()));
            assert forall|i: int| 0 <= i < rows.len() implies m.last_chunk is Some && (
            #[trigger] rows[i]).chunk <= m.last_chunk->0 by {
                if i < old_rows.len() {
                    assert(rows[i] == old_rows[i]);
                }
            }
            assert forall|i: int|
                0 <= i < rows.len() && m.current_chunk is Some && (#[trigger] rows[i]).chunk
                    == m.current_chunk->0 implies rows[i].offset < m.frame_index by {
                if i < old_rows.len() {
                    assert(rows[i] == old_rows[i]);
                }
            }
            assert forall|i: int, j: int|
                0 <= i < j < rows.len() && (#[trigger] rows[i]).chunk == (#[trigger] rows[j]).chunk
                    implies rows[i].offset < rows[j].offset by {
                assert(rows[i] == old_rows[i]);
                if j < old_rows.len() {
                    assert(rows[j] == old_rows[j]);
                } else {
                    assert(rows[j] == row);
                }
            }
        }
        due
    }
}

impl MonitorState {
    /// Makes `chunk_id`, a freshly inserted chunk row, the current chunk,
    /// starting at offset 0. Refused (`false`, nothing changed) while a chunk
    /// is open or where the id is not above every id this monitor used.
    pub fn start_chunk(&mut self, chunk_id: i64) -> (ok: bool)
        requires
            old(self).wf(),
        ensures
            final(self).wf(),
            final(self).pending() == old(self).pending(),
            ok == (old(self).model().current_chunk is None && match old(self).model().last_chunk {
                Some(l) => chunk_id > l,
                None => true,
            }),
            ok ==> final(self).model() == (MonitorModel {
                current_chunk: Some(chunk_id),
                last_chunk: Some(chunk_id),
                frame_index: 0,
                ..old(self).model()
            }),
            !ok ==> final(self).model() == old(self).model(),
    {
        if self.current_chunk_id.is_some() {
            return false;
        }
        match self.last_chunk_id {
            Some(l) => {
                if chunk_id <= l {
                    return false;
                }
            },
            None => {},
        }
        self.current_chunk_id = Some(chunk_id);
        self.last_chunk_id = Some(chunk_id);
        self.frame_index = 0;
        true
    }

    /// Hands over the pending frame rows, in order, for one batch insert;
    /// `now_ms` becomes the time of the last flush.
    pub fn take_pending(&mut self, now_ms: i64) -> (r: Vec<NewFrame>)
        requires
            old(self).wf(),
        ensures
            final(self).wf(),
            r@ == old(self).pending(),
            final(self).pending().len() == 0,
            final(self).model() == (MonitorModel {
                pending: Seq::empty(),
                last_flush_ms: now_ms as int,
                ..old(self).model()
            }),
    {
        let mut r: Vec<NewFrame> = Vec::new();
        std::mem::swap(&mut r, &mut self.pending_frames);
        self.last_flush_ms = now_ms;
        assert(rows_of(self.pending_frames@) =~= Seq::<FrameRow>::empty());
        r
    }

    /// Closes the current chunk once its rows are written and the encoder
    /// has finished its file (`file_written`). Returns the id to announce in
    /// a chunk-finalized event: the current chunk's, where there is one and
    /// a file was written.
    pub fn finish_chunk(&mut self, file_written: bool) -> (r: Option<i64>)
        requires
            old(self).wf(),
            old(self).pending().len() == 0,
        ensures
            final(self).wf(),
            final(self).pending().len() == 0,
            r == finish_result(old(self).model(), file_written),
            final(self).model() == finish_model(old(self).model(), file_written),
    {
        let r = if file_written {
            self.current_chunk_id
        } else {
            None
        };
        if file_written && self.chunk_index < u64::MAX {
            self.chunk_index = self.chunk_index + 1;
        }
        self.current_chunk_id = None;
        r
    }

    /// Clears the error count once the capture is rebuilt.
    pub fn reset_errors(&mut self)
        requires
            old(self).wf(),
        ensures
            final(self).wf(),
            final(self).pending() == old(self).pending(),
            final(self).model() == (MonitorModel { errors: 0, ..old(self).model() }),
    {
        self.consecutive_errors = 0;
    }

    /// Frames dropped as repeats so far.
    pub fn skipped_frames(&self) -> (r: u64)
        ensures
            r == self.model().skipped,
    {
        self.skipped_frames
    }

    /// The chunk that accepted frames join, if one is open.
    pub fn current_chunk_id(&self) -> (r: Option<i64>)
        ensures
            r == self.model().current_chunk,
    {
        self.current_chunk_id
    }

    /// Offset that the next accepted frame gets.
    pub fn frame_index(&self) -> (r: i64)
        ensures
            r == self.model().frame_index,
    {
        self.frame_index
    }

    /// Number of chunks finalized with a file.
    pub fn chunk_index(&self) -> (r: u64)
        ensures
            r == self.model().chunk_index,
    {
        self.chunk_index
    }

    /// Number of frame rows waiting for a flush.
    pub fn pending_len(&self) -> (r: usize)
        ensures
            r == self.pending().len(),
    {
        self.pending_frames.len()
    }

    /// Consecutive failed polls.
    pub fn consecutive_errors(&self) -> (r: u32)
        ensures
            r == self.model().errors,
    {
        self.consecutive_errors
    }
}

/// The id that `finish_chunk` announces.
pub open spec fn finish_result(m: MonitorModel, file_written: bool) -> Option<i64> {
    if file_written {
        m.current_chunk
    } else {
        None
    }
}

/// The state after `finish_chunk`.
pub open spec fn finish_model(m: MonitorModel, file_written: bool) -> MonitorModel {
    MonitorModel {
        current_chunk: None,
        chunk_index: if file_written && m.chunk_index < u64::MAX {
            m.chunk_index + 1
        } else {
            m.chunk_index
        },
        ..m
    }
}

/// The state after a series of polls, each with its time.
pub open spec fn run_polls(m: MonitorModel, polls: Seq<(Poll, int)>) -> MonitorModel
    decreases polls.len(),
{
    if polls.len() == 0 {
        m
    } else {
        poll_step(run_polls(m, polls.drop_last()), polls.last().0, polls.last().1).0
    }
}

/// Within every chunk the frame offsets are `0, 1, ..., n - 1` in the order
/// the rows were produced: the largest offset plus one is the number of
/// rows, and every offset up to it occurs.
pub proof fn lemma_chunk_offsets_dense(m: &MonitorState, chunk: i64)
    requires
        m.wf(),
    ensures
        offsets_in(m.model().rows, chunk) == dense(offsets_in(m.model().rows, chunk).len()),
        offsets_in(m.model().rows, chunk).len() > 0 ==> offsets_in(m.model().rows, chunk).last() + 1
            == offsets_in(m.model().rows, chunk).len(),
        forall|k: int|
            0 <= k < offsets_in(m.model().rows, chunk).len() ==> offsets_in(
                m.model().rows,
                chunk,
            ).contains(k),
{
    let o = offsets_in(m.model().rows, chunk);
    assert forall|k: int| 0 <= k < o.len() implies o.contains(k) by {
        assert(o[k] == k);
    }
}

/// A stored frame differs from the frame stored just before it on the same
/// monitor by more than the dedup threshold.
pub proof fn lemma_consecutive_frames_differ(m: &MonitorState, i: int)
    requires
        m.wf(),
        0 < i < m.model().rows.len(),
    ensures
        bit_difference(m.model().rows[i].hash, m.model().rows[i - 1].hash) > DEDUP_THRESHOLD,
{
}

/// The stored frame at offset k > 0 of a chunk comes right after the frame
/// at offset k - 1 of the same chunk, and the two differ by more than the
/// dedup threshold.
pub proof fn lemma_previous_offset_differs(m: &MonitorState, i: int)
    requires
        m.wf(),
        0 <= i < m.model().rows.len(),
        m.model().rows[i].offset > 0,
    ensures
        i > 0,
        m.model().rows[i - 1].chunk == m.model().rows[i].chunk,
        m.model().rows[i - 1].offset + 1 == m.model().rows[i].offset,
        bit_difference(m.model().rows[i].hash, m.model().rows[i - 1].hash) > DEDUP_THRESHOLD,
{
    assert(m.model().rows[i].offset > 0);
}

/// Any two stored frames of one chunk at offsets k - 1 and k were stored
/// one right after the other, and differ by more than the dedup threshold.
pub proof fn lemma_adjacent_offsets_differ(m: &MonitorState, i: int, j: int)
    requires
        m.wf(),
        0 <= i < m.model().rows.len(),
        0 <= j < m.model().rows.len(),
        m.model().rows[i].chunk == m.model().rows[j].chunk,
        m.model().rows[j].offset == m.model().rows[i].offset + 1,
    ensures
        j == i + 1,
        bit_difference(m.model().rows[j].hash, m.model().rows[i].hash) > DEDUP_THRESHOLD,
{
    let rows = m.model().rows;
    assert(rows[i].offset >= 0);
    lemma_previous_offset_differs(m, j);
    let k = j - 1;
    if k < i {
        assert(rows[k].offset < rows[i].offset);
    } else if k > i {
        assert(rows[i].offset < rows[k].offset);
    }
}

/// Polls that bring no frame change nothing: no row, no chunk, no count.
pub proof fn lemma_idle_polls_change_nothing(m: MonitorModel, polls: Seq<(Poll, int)>)
    requires
        forall|i: int| 0 <= i < polls.len() ==> (#[trigger] polls[i]).0 == Poll::NoFrame,
    ensures
        run_polls(m, polls) == m,
    decreases polls.len(),
{
    if polls.len() > 0 {
        let p = polls.drop_last();
        assert forall|i: int| 0 <= i < p.len() implies (#[trigger] p[i]).0 == Poll::NoFrame by {
            assert(p[i] == polls[i]);
        }
        lemma_idle_polls_change_nothing(m, p);
        assert(polls.last().0 == Poll::NoFrame);
    }
}

/// Finalizing a monitor with an open chunk whose file was written announces
/// that chunk once; finalizing again announces nothing.
pub proof fn lemma_finalize_announces_once(m: MonitorModel, c: i64, again_written: bool)
    requires
        m.current_chunk == Some(c),
    ensures
        finish_result(m, true) == Some(c),
        finish_result(finish_model(m, true), again_written) is None,
{
}

proof fn lemma_offsets_push(rows: Seq<FrameRow>, row: FrameRow)
    ensures
        forall|c: i64|
            #[trigger] offsets_in(rows.push(row), c) == offsets_in(rows, c) + if row.chunk == c {
                seq![row.offset as int]
            } else {
                Seq::empty()
            },
{
    assert forall|c: i64|
        #[trigger] offsets_in(rows.push(row), c) == offsets_in(rows, c) + if row.chunk == c {
            seq![row.offset as int]
        } else {
            Seq::empty()
        } by {
        assert(rows.push(row).drop_last() =~= rows);
    }
}

} // verus!
