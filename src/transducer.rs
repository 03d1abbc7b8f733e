//! Greedy decoding of a token-and-duration transducer, one decision at a time.
//!
//! The caller runs the decoder and joiner networks and hands each step the
//! highest-scoring token and duration; this module decides what is emitted
//! and how far the encoder frame index moves.

use vstd::prelude::*;

verus! {

/// Most tokens emitted while the frame index stays put.
pub const MAX_TOKENS_PER_FRAME: u32 = 5;

/// Speech samples per second that the feature extractor expects.
pub const SAMPLE_RATE: u32 = 16000;

/// Analysis window, in samples (25 ms).
pub const WINDOW_SIZE: usize = 400;

/// Hop between windows, in samples (10 ms).
pub const HOP_SIZE: usize = 160;

/// Feature frames per encoder frame.
pub const SUBSAMPLING_FACTOR: usize = 8;

/// Length of one encoder frame, in milliseconds (8 hops of 10 ms).
pub const ENCODER_FRAME_MS: u32 = 80;

/// Number of feature frames for `n` samples: one per hop while a whole
/// window fits, none for fewer samples than a window.
pub open spec fn spec_num_frames(n: int) -> int {
    if n < WINDOW_SIZE {
        0
    } else {
        (n - WINDOW_SIZE) / (HOP_SIZE as int) + 1
    }
}

/// Number of feature frames that `num_samples` samples give.
pub fn num_feature_frames(num_samples: usize) -> (r: usize)
    ensures
        r == spec_num_frames(num_samples as int),
{
    if num_samples < WINDOW_SIZE {
        0
    } else {
        (num_samples - WINDOW_SIZE) / HOP_SIZE + 1
    }
}

/// The decoder's state between two steps.
pub struct TdtState {
    pub frame: int,
    pub prev_token: i32,
    pub emitted_here: int,
    pub tokens: Seq<i32>,
    pub frames: Seq<i32>,
}

/// The frames to advance and the new per-frame emission count, for a step
/// that predicted `token` and duration `raw_skip` (1 without a duration
/// head) after `emitted_here` emissions at this frame. The frame index
/// always moves, by the duration or by one where the duration is 0; the
/// count restarts on a move by a duration, on a blank, and when it reaches
/// `MAX_TOKENS_PER_FRAME`.
pub open spec fn step_skip(blank: i32, emitted_here: int, token: i32, raw_skip: Option<usize>) -> (
    int,
    int,
) {
    let s: int = match raw_skip {
        Some(k) => k as int,
        None => 1,
    };
    let advance = if s > 1 { s } else { 1 };
    let count = if s > 0 || token == blank || emitted_here + 1 >= MAX_TOKENS_PER_FRAME {
        0
    } else {
        emitted_here + 1
    };
    (advance, count)
}

/// The state after one step.
pub open spec fn tdt_step(blank: i32, s: TdtState, token: i32, raw_skip: Option<usize>) -> TdtState {
    let (adv, count) = step_skip(blank, s.emitted_here, token, raw_skip);
    TdtState {
        frame: s.frame + adv,
        prev_token: if token != blank { token } else { s.prev_token },
        emitted_here: count,
        tokens: if token != blank { s.tokens.push(token) } else { s.tokens },
        frames: if token != blank { s.frames.push(s.frame as i32) } else { s.frames },
    }
}

/// The frames of the emitted tokens strictly increase and all lie before
/// the current frame `frame`.
pub open spec fn frames_increasing(frames: Seq<i32>, frame: int) -> bool {
    &&& forall|i: int, j: int| 0 <= i < j < frames.len() ==> frames[i] < frames[j]
    &&& forall|i: int| 0 <= i < frames.len() ==> #[trigger] frames[i] < frame
}

/// Decoding never emits two tokens at one encoder frame, let alone more
/// than `MAX_TOKENS_PER_FRAME`: the frame index moves on every step.
pub proof fn lemma_one_token_per_frame(d: &TdtDecoder, i: int, j: int)
    requires
        d.wf(),
        0 <= i < j < d.state().frames.len(),
    ensures
        d.state().frames[i] != d.state().frames[j],
{
}

/// Greedy decoding state over `frame_count` encoder frames.
pub struct TdtDecoder {
    blank_id: i32,
    frame_count: usize,
    frame: usize,
    prev_token: i32,
    emitted_here: u32,
    tokens: Vec<i32>,
    frames: Vec<i32>,
}

impl TdtDecoder {
    pub closed spec fn state(&self) -> TdtState {
        TdtState {
            frame: self.frame as int,
            prev_token: self.prev_token,
            emitted_here: self.emitted_here as int,
            tokens: self.tokens@,
            frames: self.frames@,
        }
    }

    pub closed spec fn spec_blank(&self) -> i32 {
        self.blank_id
    }

    pub closed spec fn spec_frame_count(&self) -> usize {
        self.frame_count
    }

    pub closed spec fn wf(&self) -> bool {
        &&& self.frame_count <= i32::MAX
        &&& self.emitted_here < MAX_TOKENS_PER_FRAME
        &&& self.tokens@.len() == self.frames@.len()
        &&& frames_increasing(self.frames@, self.frame as int)
    }

    /// Starts at frame 0 with the blank token as the previous token.
    pub fn new(blank_id: i32, frame_count: usize) -> (r: TdtDecoder)
        requires
            frame_count <= i32::MAX,
        ensures
            r.wf(),
            r.spec_blank() == blank_id,
            r.spec_frame_count() == frame_count,
            r.state() == (TdtState {
                frame: 0,
                prev_token: blank_id,
                emitted_here: 0,
                tokens: Seq::empty(),
                frames: Seq::empty(),
            }),
    {
        TdtDecoder {
            blank_id,
            frame_count,
            frame: 0,
            prev_token: blank_id,
            emitted_here: 0,
            tokens: Vec::new(),
            frames: Vec::new(),
        }
    }

    /// Whether every encoder frame has been consumed.
    pub fn is_done(&self) -> (r: bool)
        ensures
            r == (self.state().frame >= self.spec_frame_count()),
    {
        self.frame >= self.frame_count
    }

    /// The encoder frame the next step reads.
    pub fn current_frame(&self) -> (r: usize)
        ensures
            r == self.state().frame,
    {
        self.frame
    }

    /// The token the decoder network is fed next.
    pub fn prev_token(&self) -> (r: i32)
        ensures
            r == self.state().prev_token,
    {
        self.prev_token
    }

    /// Applies one prediction: a token other than blank is emitted at the
    /// current frame; the frame index then moves by the predicted duration,
    /// or by one where that is 0, so that a frame that has emitted
    /// `MAX_TOKENS_PER_FRAME` tokens is always left. Returns the number of
    /// frames moved, never 0; see `step_skip`.
    pub fn step(&mut self, token: i32, raw_skip: Option<usize>) -> (adv: usize)
        requires
            old(self).wf(),
            old(self).state().frame < old(self).spec_frame_count(),
            raw_skip matches Some(k) ==> k <= i32::MAX,
        ensures
            final(self).wf(),
            final(self).spec_blank() == old(self).spec_blank(),
            final(self).spec_frame_count() == old(self).spec_frame_count(),
            final(self).state() == tdt_step(old(self).spec_blank(), old(self).state(), token, raw_skip),
            adv >= 1,
            adv == final(self).state().frame - old(self).state().frame,
            (token != old(self).spec_blank() && old(self).state().emitted_here + 1
                >= MAX_TOKENS_PER_FRAME) ==> adv >= 1 && final(self).state().emitted_here == 0,
    {
        let mut skip: usize = match raw_skip {
            Some(s) => s,
            None => 1,
        };
        let mut count = self.emitted_here;
        if token != self.blank_id {
            self.tokens.push(token);
            self.frames.push(self.frame as i32);
            self.prev_token = token;
            count = count + 1;
        }
        if skip > 0 {
            count = 0;
        }
        if count >= MAX_TOKENS_PER_FRAME {
            count = 0;
            skip = 1;
        }
        if token == self.blank_id && skip == 0 {
            count = 0;
            skip = 1;
        }
        let adv: usize = if skip > 1 { skip } else { 1 };
        let ghost fr = self.frames@;
        let ghost t0 = self.frame as int;
        assert(forall|i: int| 0 <= i < fr.len() ==> #[trigger] fr[i] < t0 + adv);
        self.emitted_here = count;
        self.frame = self.frame + adv;
        adv
    }

    /// The emitted tokens and the encoder frame of each.
    pub fn into_tokens(self) -> (r: (Vec<i32>, Vec<i32>))
        ensures
            r.0@ == self.state().tokens,
            r.1@ == self.state().frames,
    {
        (self.tokens, self.frames)
    }
}

} // verus!
