//! Scheduling of the OCR indexer and the confidence it gives recognized text.

use vstd::prelude::*;
use crate::text::chars_of;

verus! {

/// Frames taken per polling sweep.
pub const OCR_BATCH_SIZE: usize = 30;

/// Frame extractions run at the same time.
pub const MAX_CONCURRENT_EXTRACTIONS: usize = 4;

/// Wait between polling sweeps, in milliseconds.
pub const POLL_INTERVAL_MS: u64 = 10000;

/// Interval between statistics refreshes, in milliseconds.
pub const STATS_INTERVAL_MS: u64 = 30000;

/// Longest wait for the stages to stop once shutdown is asked, in
/// milliseconds.
pub const SHUTDOWN_TIMEOUT_MS: u64 = 30000;

/// Whether a shutdown asked at `asked_ms` has run out of time at `now_ms`,
/// so that stages still running are abandoned.
pub fn shutdown_overdue(asked_ms: u64, now_ms: u64) -> (r: bool)
    ensures
        r == (now_ms >= asked_ms && now_ms - asked_ms >= SHUTDOWN_TIMEOUT_MS),
{
    now_ms >= asked_ms && now_ms - asked_ms >= SHUTDOWN_TIMEOUT_MS
}

/// How the indexer learns of new frames.
#[derive(Debug, Clone, Copy, PartialEq, Eq, Structural)]
pub enum Mode {
    /// Chunk-finalized events, with a polling sweep on each timeout.
    Events,
    /// Polling sweeps only; entered for good once the bus closes.
    Polling,
}

/// What waiting on the chunk-finalized bus gave.
#[derive(Debug, Clone, Copy, PartialEq, Eq, Structural)]
pub enum BusEvent {
    /// A chunk was finalized.
    Chunk(i64),
    /// This subscriber fell behind and missed that many events.
    Lagged(u64),
    /// Every sender is gone.
    Closed,
    /// The polling interval passed without an event.
    Timeout,
}

/// What the indexer does next.
#[derive(Debug, Clone, Copy, PartialEq, Eq, Structural)]
pub enum IndexerAction {
    /// OCR the frames of this chunk that have none.
    ProcessChunk(i64),
    /// OCR the oldest frames without OCR, up to a batch.
    PollSweep,
}

/// The mode and action after `ev` in mode `mode`.
pub open spec fn indexer_step(mode: Mode, ev: BusEvent) -> (Mode, IndexerAction) {
    match mode {
        Mode::Polling => (Mode::Polling, IndexerAction::PollSweep),
        Mode::Events => match ev {
            BusEvent::Chunk(id) => (Mode::Events, IndexerAction::ProcessChunk(id)),
            BusEvent::Lagged(_) => (Mode::Events, IndexerAction::PollSweep),
            BusEvent::Closed => (Mode::Polling, IndexerAction::PollSweep),
            BusEvent::Timeout => (Mode::Events, IndexerAction::PollSweep),
        },
    }
}

/// The indexer's choice between events and polling.
pub struct IndexerSchedule {
    mode: Mode,
}

impl IndexerSchedule {
    pub closed spec fn spec_mode(&self) -> Mode {
        self.mode
    }

    /// Event-driven where a subscription exists, polling otherwise.
    pub fn new(subscribed: bool) -> (r: IndexerSchedule)
        ensures
            r.spec_mode() == if subscribed { Mode::Events } else { Mode::Polling },
    {
        IndexerSchedule { mode: if subscribed { Mode::Events } else { Mode::Polling } }
    }

    pub fn mode(&self) -> (r: Mode)
        ensures
            r == self.spec_mode(),
    {
        self.mode
    }

    /// Decides what to do after `ev`: a finalized chunk is processed at
    /// once; a lag, a timeout or a closed bus bring a polling sweep, and a
    /// closed bus switches to polling for good.
    pub fn on_event(&mut self, ev: BusEvent) -> (a: IndexerAction)
        ensures
            (final(self).spec_mode(), a) == indexer_step(old(self).spec_mode(), ev),
    {
        match self.mode {
            Mode::Polling => IndexerAction::PollSweep,
            Mode::Events => match ev {
                BusEvent::Chunk(id) => IndexerAction::ProcessChunk(id),
                BusEvent::Lagged(_) => IndexerAction::PollSweep,
                BusEvent::Closed => {
                    self.mode = Mode::Polling;
                    IndexerAction::PollSweep
                },
                BusEvent::Timeout => IndexerAction::PollSweep,
            },
        }
    }
}

/// Mode after a series of events.
pub open spec fn mode_after(mode: Mode, evs: Seq<BusEvent>) -> Mode
    decreases evs.len(),
{
    if evs.len() == 0 {
        mode
    } else {
        indexer_step(mode_after(mode, evs.drop_last()), evs.last()).0
    }
}

/// A lag notice is answered with a polling sweep before the indexer goes
/// back to waiting for events.
pub proof fn lemma_lag_triggers_sweep(mode: Mode, skipped: u64)
    ensures
        indexer_step(mode, BusEvent::Lagged(skipped)).1 == IndexerAction::PollSweep,
        indexer_step(mode, BusEvent::Lagged(skipped)).0 == mode,
{
}

/// Once the bus has closed the indexer polls, whatever follows.
pub proof fn lemma_closed_is_final(mode: Mode, evs: Seq<BusEvent>)
    ensures
        mode_after(indexer_step(mode, BusEvent::Closed).0, evs) == Mode::Polling,
    decreases evs.len(),
{
    if evs.len() > 0 {
        lemma_closed_is_final(mode, evs.drop_last());
    }
}

/// Progress through one batch of frames, frame by frame.
pub struct OcrBatch {
    total: usize,
    done: usize,
    stopped: bool,
}

impl OcrBatch {
    pub closed spec fn spec_total(&self) -> usize {
        self.total
    }

    pub closed spec fn spec_done(&self) -> usize {
        self.done
    }

    pub closed spec fn spec_stopped(&self) -> bool {
        self.stopped
    }

    pub fn new(total: usize) -> (r: OcrBatch)
        ensures
            r.spec_total() == total,
            r.spec_done() == 0,
            !r.spec_stopped(),
    {
        OcrBatch { total, done: 0, stopped: false }
    }

    /// The index of the next frame to process, if any. Once shutdown is
    /// seen the batch stops: the frame in flight was finished by the
    /// previous call's caller and the rest stay pending.
    pub fn next_frame(&mut self, shutdown: bool) -> (r: Option<usize>)
        requires
            old(self).spec_done() <= old(self).spec_total(),
        ensures
            final(self).spec_total() == old(self).spec_total(),
            final(self).spec_done() <= final(self).spec_total(),
            final(self).spec_stopped() == (old(self).spec_stopped() || shutdown),
            match r {
                Some(i) => !old(self).spec_stopped() && !shutdown && i == old(self).spec_done() && i
                    < old(self).spec_total() && final(self).spec_done() == i + 1,
                None => final(self).spec_done() == old(self).spec_done() && (old(self).spec_stopped()
                    || shutdown || old(self).spec_done() == old(self).spec_total()),
            },
    {
        if shutdown {
            self.stopped = true;
        }
        if self.stopped || self.done >= self.total {
            return None;
        }
        let i = self.done;
        self.done = self.done + 1;
        Some(i)
    }

    /// Frames handed out so far.
    pub fn processed(&self) -> (r: usize)
        ensures
            r == self.spec_done(),
    {
        self.done
    }
}

/// Whether `c` is lowercase, as `char::is_lowercase` says.
pub uninterp spec fn lowercase_char(c: char) -> bool;

/// Whether `c` is uppercase, as `char::is_uppercase` says.
pub uninterp spec fn uppercase_char(c: char) -> bool;

/// Whether `c` is numeric, as `char::is_numeric` says.
pub uninterp spec fn numeric_char(c: char) -> bool;

/// Whether `c` is alphabetic, as `char::is_alphabetic` says.
pub uninterp spec fn alphabetic_char(c: char) -> bool;

/// Relies on `char::is_lowercase` (Unicode `Lowercase` property).
#[verifier::external_body]
fn is_lower(c: char) -> (r: bool)
    ensures
        r == lowercase_char(c),
{
    c.is_lowercase()
}

/// Relies on `char::is_uppercase` (Unicode `Uppercase` property).
#[verifier::external_body]
fn is_upper(c: char) -> (r: bool)
    ensures
        r == uppercase_char(c),
{
    c.is_uppercase()
}

/// Relies on `char::is_numeric` (Unicode general categories `Nd`, `Nl`, `No`).
#[verifier::external_body]
fn is_numeric(c: char) -> (r: bool)
    ensures
        r == numeric_char(c),
{
    c.is_numeric()
}

/// Relies on `char::is_alphabetic` (Unicode `Alphabetic` property).
#[verifier::external_body]
fn is_alphabetic(c: char) -> (r: bool)
    ensures
        r == alphabetic_char(c),
{
    c.is_alphabetic()
}

/// The Unicode classes of one character that the confidence reads.
#[derive(Debug, Clone, Copy, PartialEq, Eq, Structural)]
pub struct CharClass {
    pub lower: bool,
    pub upper: bool,
    pub numeric: bool,
    pub alphabetic: bool,
}

pub open spec fn class_of(c: char) -> CharClass {
    CharClass {
        lower: lowercase_char(c),
        upper: uppercase_char(c),
        numeric: numeric_char(c),
        alphabetic: alphabetic_char(c),
    }
}

/// Bytes that `c` takes in UTF-8.
pub open spec fn utf8_width(c: char) -> int {
    let u = c as u32;
    if u < 0x80 {
        1
    } else if u < 0x800 {
        2
    } else if u < 0x10000 {
        3
    } else {
        4
    }
}

pub open spec fn utf8_len(s: Seq<char>) -> int
    decreases s.len(),
{
    if s.len() == 0 {
        0
    } else {
        utf8_len(s.drop_last()) + utf8_width(s.last())
    }
}

/// Confidence, in units of 1/10000, of recognized text of `byte_len` bytes
/// whose characters have the classes `cls`: 7000, plus 1500 scaled by the
/// length up to 20 bytes, plus 500 for mixed case, plus 500 for digits
/// beside letters, minus 1000 when every character is uppercase or not a letter, minus
/// 1500 when
/// every character is numeric, kept within 0..=10000; 0 for no text.
pub open spec fn confidence_spec(byte_len: int, cls: Seq<CharClass>) -> int {
    if cls.len() == 0 {
        0
    } else {
        let has_lower = exists|i: int| 0 <= i < cls.len() && (#[trigger] cls[i]).lower;
        let has_upper = exists|i: int| 0 <= i < cls.len() && (#[trigger] cls[i]).upper;
        let has_digit = exists|i: int| 0 <= i < cls.len() && (#[trigger] cls[i]).numeric;
        let caps_only = forall|i: int|
            0 <= i < cls.len() ==> (#[trigger] cls[i]).upper || !cls[i].alphabetic;
        let digits_only = forall|i: int| 0 <= i < cls.len() ==> (#[trigger] cls[i]).numeric;
        let len_bonus = if byte_len * 75 < 1500 { byte_len * 75 } else { 1500 };
        let s = 7000 + len_bonus + (if has_lower && has_upper { 500int } else { 0 }) + (if has_digit
            && (has_lower || has_upper) { 500int } else { 0 }) - (if caps_only { 1000int } else { 0 })
            - (if digits_only { 1500int } else { 0 });
        if s < 0 {
            0
        } else if s > 10000 {
            10000
        } else {
            s
        }
    }
}

/// Confidence of text with `byte_len` bytes and character classes `cls`;
/// see `confidence_spec`.
pub fn confidence_from_classes(byte_len: usize, cls: &Vec<CharClass>) -> (r: u32)
    ensures
        r as int == confidence_spec(byte_len as int, cls@),
{
    if cls.len() == 0 {
        return 0;
    }
    let mut has_lower = false;
    let mut has_upper = false;
    let mut has_digit = false;
    let mut caps_only = true;
    let mut digits_only = true;
    let mut i: usize = 0;
    while i < cls.len()
        invariant
            i <= cls@.len(),
            has_lower == exists|j: int| 0 <= j < i && (#[trigger] cls@[j]).lower,
            has_upper == exists|j: int| 0 <= j < i && (#[trigger] cls@[j]).upper,
            has_digit == exists|j: int| 0 <= j < i && (#[trigger] cls@[j]).numeric,
            caps_only == forall|j: int| 0 <= j < i ==> (#[trigger] cls@[j]).upper || !cls@[j].alphabetic,
            digits_only == forall|j: int| 0 <= j < i ==> (#[trigger] cls@[j]).numeric,
        decreases cls@.len() - i,
    {
        let c = cls[i];
        has_lower = has_lower || c.lower;
        has_upper = has_upper || c.upper;
        has_digit = has_digit || c.numeric;
        caps_only = caps_only && (c.upper || !c.alphabetic);
        digits_only = digits_only && c.numeric;
        i = i + 1;
    }
    let len_bonus: i64 = if byte_len < 20 { byte_len as i64 * 75 } else { 1500 };
    let mut s: i64 = 7000 + len_bonus;
    if has_lower && has_upper {
        s = s + 500;
    }
    if has_digit && (has_lower || has_upper) {
        s = s + 500;
    }
    if caps_only {
        s = s - 1000;
    }
    if digits_only {
        s = s - 1500;
    }
    if s < 0 {
        0
    } else if s > 10000 {
        10000
    } else {
        s as u32
    }
}

proof fn lemma_utf8_len_nonneg(s: Seq<char>)
    ensures
        utf8_len(s) >= 0,
    decreases s.len(),
{
    if s.len() > 0 {
        lemma_utf8_len_nonneg(s.drop_last());
    }
}

/// Confidence of recognized `text`, in units of 1/10000; see
/// `confidence_spec`.
pub fn estimate_confidence(text: &str) -> (r: u32)
    ensures
        r as int == confidence_spec(utf8_len(text@), text@.map_values(|c: char| class_of(c))),
{
    let cs = chars_of(text);
    let mut cls: Vec<CharClass> = Vec::new();
    let mut bytes: usize = 0;
    let mut i: usize = 0;
    while i < cs.len()
        invariant
            i <= cs@.len(),
            cs@ == text@,
            bytes <= 20,
            cls@ == cs@.subrange(0, i as int).map_values(|c: char| class_of(c)),
            bytes as int == if utf8_len(cs@.subrange(0, i as int)) < 20 {
                utf8_len(cs@.subrange(0, i as int))
            } else {
                20
            },
        decreases cs@.len() - i,
    {
        let c = cs[i];
        cls.push(CharClass {
            lower: is_lower(c),
            upper: is_upper(c),
            numeric: is_numeric(c),
            alphabetic: is_alphabetic(c),
        });
        let u = c as u32;
        let w: usize = if u < 0x80 {
            1
        } else if u < 0x800 {
            2
        } else if u < 0x10000 {
            3
        } else {
            4
        };
        assert(cs@.subrange(0, i + 1).drop_last() =~= cs@.subrange(0, i as int));
        assert(cls@ =~= cs@.subrange(0, i + 1).map_values(|c: char| class_of(c)));
        bytes = if bytes + w < 20 { bytes + w } else { 20 };
        i = i + 1;
    }
    assert(cs@.subrange(0, i as int) =~= cs@);
    proof {
        lemma_utf8_len_nonneg(cs@);
    }
    confidence_from_classes(bytes, &cls)
}


/// The OCR row stored for one frame.
#[derive(Debug, Clone, PartialEq, Eq)]
pub struct OcrRow {
    pub text: String,
    /// The recognized lines, as JSON.
    pub text_json: Option<String>,
    /// Confidence in units of 1/10000.
    pub confidence_bp: u32,
}

/// The row for a frame whose extraction and recognition gave `result`: the
/// text, its lines and its estimated confidence; where either step failed
/// (`None`), an empty row of confidence 0, which marks the frame done so
/// that it is not tried again.
pub fn ocr_row(result: Option<(String, Option<String>)>) -> (r: OcrRow)
    ensures
        match result {
            Some((t, j)) => r.text@ == t@ && r.text_json == j && r.confidence_bp as int == confidence_spec(
                utf8_len(t@),
                t@.map_values(|c: char| class_of(c)),
            ),
            None => r.text@.len() == 0 && r.text_json is None && r.confidence_bp == 0,
        },
{
    match result {
        Some((text, json)) => {
            let confidence_bp = estimate_confidence(text.as_str());
            OcrRow { text, text_json: json, confidence_bp }
        },
        None => OcrRow { text: String::new(), text_json: None, confidence_bp: 0 },
    }
}

} // verus!
