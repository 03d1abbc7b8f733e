//! When video and audio chunks roll over, and what their files are called.

use vstd::prelude::*;
use vstd::string::StringExecFns;
use crate::config::{join_path, joined_path, AudioEncoderConfig};
use crate::text::{decimal_digits, push_decimal, push_str, string_of};
use crate::sanitize::{sanitize_device_name, sanitize_monitor_name, sanitized_name};

verus! {

/// Whether a video chunk started at `start_ms` is complete once a frame
/// stamped `frame_ms` has joined it: at least `duration_secs` have passed
/// since its start.
pub open spec fn video_chunk_due(start_ms: int, frame_ms: int, duration_secs: int) -> bool {
    frame_ms >= start_ms && frame_ms - start_ms >= duration_secs * 1000
}

/// See `video_chunk_due`.
pub fn video_chunk_complete(start_ms: i64, frame_ms: i64, duration_secs: u64) -> (r: bool)
    ensures
        r == video_chunk_due(start_ms as int, frame_ms as int, duration_secs as int),
{
    let elapsed: i128 = frame_ms as i128 - start_ms as i128;
    elapsed >= 0 && elapsed >= duration_secs as i128 * 1000
}

/// Samples in a full audio chunk.
pub open spec fn chunk_sample_count(c: AudioEncoderConfig) -> int {
    c.chunk_duration_secs as int * c.sample_rate as int * c.channels as int
}

/// Buffered-sample bookkeeping of the audio encoder.
pub struct AudioChunker {
    chunk_samples: u128,
    buffered: u128,
    start_ms: Option<i64>,
    chunk_index: u64,
}

impl AudioChunker {
    pub closed spec fn spec_chunk_samples(&self) -> int {
        self.chunk_samples as int
    }

    pub closed spec fn spec_buffered(&self) -> int {
        self.buffered as int
    }

    pub closed spec fn spec_start(&self) -> Option<i64> {
        self.start_ms
    }

    pub closed spec fn spec_chunk_index(&self) -> int {
        self.chunk_index as int
    }

    pub open spec fn wf(&self) -> bool {
        &&& 0 <= self.spec_buffered() <= 0x1_0000_0000_0000_0000_0000 * 2
        &&& 0 <= self.spec_chunk_index() <= u64::MAX
        &&& 0 <= self.spec_chunk_samples()
        &&& self.spec_chunk_samples() <= 0x1_0000_0000_0000_0000_0000
    }

    /// Nothing buffered; chunks of `chunk_duration_secs * sample_rate *
    /// channels` samples.
    pub fn new(config: &AudioEncoderConfig) -> (r: AudioChunker)
        ensures
            r.wf(),
            r.spec_chunk_samples() == chunk_sample_count(*config),
            r.spec_buffered() == 0,
            r.spec_start() is None,
            r.spec_chunk_index() == 0,
    {
        let d = config.chunk_duration_secs as u128;
        let sr = config.sample_rate as u128;
        let ch = config.channels as u128;
        assert(d * sr <= 0xffff_ffff_ffff_ffff) by (nonlinear_arith)
            requires
                d <= 0xffff_ffff,
                sr <= 0xffff_ffff,
        ;
        let n: u128 = d * sr;
        assert(n * ch <= 0x1_0000_0000_0000_0000_0000) by (nonlinear_arith)
            requires
                n <= 0xffff_ffff_ffff_ffff,
                ch <= 0xffff,
        ;
        let n: u128 = n * ch;
        AudioChunker { chunk_samples: n, buffered: 0, start_ms: None, chunk_index: 0 }
    }

    /// Counts `count` samples stamped `timestamp_ms`; the first of a chunk
    /// gives its start. Returns whether the chunk is now full.
    pub fn add_samples(&mut self, count: usize, timestamp_ms: i64) -> (full: bool)
        requires
            old(self).spec_buffered() < old(self).spec_chunk_samples() || old(self).spec_buffered() == 0,
            old(self).wf(),
        ensures
            final(self).wf(),
            final(self).spec_chunk_samples() == old(self).spec_chunk_samples(),
            final(self).spec_chunk_index() == old(self).spec_chunk_index(),
            final(self).spec_buffered() == old(self).spec_buffered() + count,
            final(self).spec_start() == match old(self).spec_start() {
                Some(s) => Some(s),
                None => Some(timestamp_ms),
            },
            full == (final(self).spec_buffered() >= final(self).spec_chunk_samples()),
    {
        if self.start_ms.is_none() {
            self.start_ms = Some(timestamp_ms);
        }
        self.buffered = self.buffered + count as u128;
        self.buffered >= self.chunk_samples
    }

    /// Closes the chunk: where samples are buffered, returns its start time
    /// and index, then clears the buffer and moves to the next index.
    pub fn finish(&mut self) -> (r: Option<(Option<i64>, u64)>)
        requires
            old(self).wf(),
        ensures
            final(self).wf(),
            final(self).spec_chunk_samples() == old(self).spec_chunk_samples(),
            old(self).spec_buffered() == 0 ==> r is None && *final(self) == *old(self),
            old(self).spec_buffered() > 0 ==> r == Some((old(self).spec_start(), old(self).spec_chunk_index() as u64))
                && final(self).spec_buffered() == 0 && final(self).spec_start() is None
                && final(self).spec_chunk_index() == if old(self).spec_chunk_index() < u64::MAX {
                    old(self).spec_chunk_index() + 1
                } else {
                    old(self).spec_chunk_index()
                },
    {
        if self.buffered == 0 {
            return None;
        }
        let r = Some((self.start_ms, self.chunk_index));
        self.buffered = 0;
        self.start_ms = None;
        if self.chunk_index < u64::MAX {
            self.chunk_index = self.chunk_index + 1;
        }
        r
    }

    /// Samples buffered for the current chunk.
    pub fn buffered_samples(&self) -> (r: u128)
        ensures
            r == self.spec_buffered(),
    {
        self.buffered
    }
}

/// `secs` (Unix time, UTC) formatted by chrono with `pattern`.
pub uninterp spec fn utc_formatted(secs: i64, pattern: Seq<char>) -> Seq<char>;

/// Earliest and latest Unix times, in seconds, whose UTC date chrono
/// represents (within its range of about 262000 years either side of year 0).
pub const MIN_DATED_SECS: i64 = -8_000_000_000_000;

pub const MAX_DATED_SECS: i64 = 8_000_000_000_000;

/// Relies on chrono's `DateTime::<Utc>::from_timestamp` and `format`: the
/// UTC time `secs` written with `pattern`; `None` only where the day count
/// leaves chrono's date range, which the times within
/// `MIN_DATED_SECS..=MAX_DATED_SECS` do not.
#[verifier::external_body]
fn format_utc(secs: i64, pattern: &str) -> (r: Option<String>)
    requires
        pattern@ == "%Y-%m-%d"@ || pattern@ == "%H-%M-%S"@,
    ensures
        r matches Some(t) ==> t@ == utc_formatted(secs, pattern@),
        MIN_DATED_SECS <= secs <= MAX_DATED_SECS ==> r is Some,
{
    match chrono::DateTime::from_timestamp(secs, 0) {
        Some(t) => Some(t.format(pattern).to_string()),
        None => None,
    }
}

/// `chunk_<time>_<index>.<ext>` for a chunk started at `secs`.
pub open spec fn chunk_file_name(secs: i64, index: u64, ext: Seq<char>) -> Seq<char> {
    "chunk_"@ + utc_formatted(secs, "%H-%M-%S"@) + "_"@ + decimal_digits(index as nat) + "."@ + ext
}

/// The path, relative to the data directory, of the video chunk `index` of
/// monitor `monitor`, started at `secs`:
/// `videos/<monitor>/<YYYY-MM-DD>/chunk_<HH-MM-SS>_<index>.mp4`.
pub open spec fn video_chunk_path_of(monitor: Seq<char>, secs: i64, index: u64) -> Seq<char> {
    "videos/"@ + sanitized_name(monitor, "monitor"@) + "/"@ + utc_formatted(secs, "%Y-%m-%d"@) + "/"@
        + chunk_file_name(secs, index, "mp4"@)
}

fn chunk_file(out: &mut Vec<char>, secs: i64, index: u64, ext: &str) -> (ok: bool)
    ensures
        ok ==> final(out)@ == old(out)@ + chunk_file_name(secs, index, ext@),
        MIN_DATED_SECS <= secs <= MAX_DATED_SECS ==> ok,
{
    let time = match format_utc(secs, "%H-%M-%S") {
        Some(t) => t,
        None => {
            return false;
        },
    };
    push_str(out, "chunk_");
    push_str(out, time.as_str());
    push_str(out, "_");
    push_decimal(out, index);
    push_str(out, ".");
    push_str(out, ext);
    true
}

/// See `video_chunk_path_of`; `None` only where the time has no calendar
/// date.
pub fn video_chunk_path(monitor: &str, secs: i64, index: u64) -> (r: Option<String>)
    ensures
        r matches Some(p) ==> p@ == video_chunk_path_of(monitor@, secs, index),
        MIN_DATED_SECS <= secs <= MAX_DATED_SECS ==> r is Some,
{
    let date = match format_utc(secs, "%Y-%m-%d") {
        Some(d) => d,
        None => {
            return None;
        },
    };
    let name = sanitize_monitor_name(monitor);
    let mut out: Vec<char> = Vec::new();
    push_str(&mut out, "videos/");
    push_str(&mut out, name.as_str());
    push_str(&mut out, "/");
    push_str(&mut out, date.as_str());
    push_str(&mut out, "/");
    if !chunk_file(&mut out, secs, index, "mp4") {
        return None;
    }
    let r = string_of(&out);
    assert(r@ =~= video_chunk_path_of(monitor@, secs, index));
    Some(r)
}

/// The file of audio chunk `index` of device `device`, started at `secs`:
/// `<output_dir>/<device>/<YYYY-MM-DD>/chunk_<HH-MM-SS>_<index>.wav`.
pub open spec fn audio_chunk_path_of(output_dir: Seq<char>, device: Seq<char>, secs: i64, index: u64) -> Seq<char> {
    joined_path(
        joined_path(joined_path(output_dir, sanitized_name(device, "audio_device"@)), utc_formatted(secs, "%Y-%m-%d"@)),
        chunk_file_name(secs, index, "wav"@),
    )
}

/// See `audio_chunk_path_of`; `None` only where the time has no calendar
/// date.
pub fn audio_chunk_path(output_dir: &str, device: &str, secs: i64, index: u64) -> (r: Option<String>)
    ensures
        r matches Some(p) ==> p@ == audio_chunk_path_of(output_dir@, device@, secs, index),
        MIN_DATED_SECS <= secs <= MAX_DATED_SECS ==> r is Some,
{
    let date = match format_utc(secs, "%Y-%m-%d") {
        Some(d) => d,
        None => {
            return None;
        },
    };
    let name = sanitize_device_name(device);
    let dev_dir = join_path(output_dir, name.as_str());
    let date_dir = join_path(dev_dir.as_str(), date.as_str());
    let mut file: Vec<char> = Vec::new();
    if !chunk_file(&mut file, secs, index, "wav") {
        return None;
    }
    let file = string_of(&file);
    Some(join_path(date_dir.as_str(), file.as_str()))
}

/// One transcription row to store for an audio chunk.
#[derive(Debug, Clone, PartialEq, Eq)]
pub struct TranscriptionRow {
    pub text: String,
    pub start_ms: Option<i64>,
    pub end_ms: Option<i64>,
}

/// The rows stored for a transcribed chunk: one per word segment; without
/// segments, the whole text as one untimed row, or one empty row that marks
/// the chunk done.
pub open spec fn rows_for(text: Seq<char>, segs: Seq<(Seq<char>, int, int)>) -> Seq<(Seq<char>, Option<int>, Option<int>)> {
    if segs.len() > 0 {
        segs.map_values(|s: (Seq<char>, int, int)| (s.0, Some(s.1), Some(s.2)))
    } else if text.len() > 0 {
        seq![(text, None, None)]
    } else {
        seq![(Seq::empty(), None, None)]
    }
}

pub open spec fn row_views(v: Seq<TranscriptionRow>) -> Seq<(Seq<char>, Option<int>, Option<int>)> {
    v.map_values(|r: TranscriptionRow| (r.text@, match r.start_ms {
        Some(s) => Some(s as int),
        None => None,
    }, match r.end_ms {
        Some(e) => Some(e as int),
        None => None,
    }))
}

/// See `rows_for`.
pub fn transcription_rows(text: &str, segments: &Vec<crate::tokenizer::WordSegment>) -> (r: Vec<TranscriptionRow>)
    ensures
        row_views(r@) == rows_for(text@, crate::tokenizer::segment_views(segments@)),
        r@.len() >= 1,
{
    let mut out: Vec<TranscriptionRow> = Vec::new();
    if segments.len() > 0 {
        let mut i: usize = 0;
        while i < segments.len()
            invariant
                i <= segments@.len(),
                row_views(out@) == rows_for(text@, crate::tokenizer::segment_views(segments@)).subrange(0, i as int),
                segments@.len() > 0,
            decreases segments@.len() - i,
        {
            let s = &segments[i];
            let ghost o0 = out@;
            out.push(TranscriptionRow {
                text: String::from_str(s.text.as_str()),
                start_ms: Some(s.start_ms),
                end_ms: Some(s.end_ms),
            });
            assert(row_views(out@) =~= row_views(o0).push((s.text@, Some(s.start_ms as int), Some(s.end_ms as int))));
            assert(rows_for(text@, crate::tokenizer::segment_views(segments@)).subrange(0, i + 1) =~= rows_for(
                text@,
                crate::tokenizer::segment_views(segments@),
            ).subrange(0, i as int).push((s.text@, Some(s.start_ms as int), Some(s.end_ms as int))));
            i = i + 1;
        }
        assert(rows_for(text@, crate::tokenizer::segment_views(segments@)).subrange(0, i as int) =~= rows_for(
            text@,
            crate::tokenizer::segment_views(segments@),
        ));
    } else if text.unicode_len() > 0 {
        out.push(TranscriptionRow { text: String::from_str(text), start_ms: None, end_ms: None });
        assert(row_views(out@) =~= seq![(text@, None::<int>, None::<int>)]);
    } else {
        out.push(TranscriptionRow { text: String::new(), start_ms: None, end_ms: None });
        assert(row_views(out@) =~= seq![(Seq::<char>::empty(), None::<int>, None::<int>)]);
    }
    out
}

} // verus!
