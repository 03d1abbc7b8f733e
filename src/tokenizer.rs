//! Token vocabulary of the speech model and decoding of token ids to text.

use std::collections::HashMap;
use vstd::prelude::*;
use crate::numparse::{parse_i32, parsed_i32};
use crate::text::{slice_chars, string_of, chars_of, trim_ws, trim_ws_chars};

verus! {

broadcast use vstd::std_specs::hash::group_hash_axioms;

/// SentencePiece word-boundary marker, U+2581.
pub const WORD_BOUNDARY: char = '\u{2581}';

/// Why a vocabulary could not be read.
#[derive(Debug, Clone, PartialEq, Eq)]
pub enum TokenizerError {
    /// A line's last field is not an `i32`; holds the 0-based line number.
    BadTokenId(usize),
}

/// Vocabulary of a speech model: token strings by id, and the blank id.
pub struct Tokenizer {
    id_to_token: HashMap<i32, String>,
    blank_id: i32,
    vocab_size: usize,
}

/// Number of characters before the first line break of `s` (or all of them).
pub open spec fn line_len(s: Seq<char>) -> nat
    decreases s.len(),
{
    if s.len() == 0 || s[0] == '\n' {
        0
    } else {
        1 + line_len(s.drop_first())
    }
}

/// The lines of `s`, split at each `\n`.
pub open spec fn lines_of(s: Seq<char>) -> Seq<Seq<char>>
    decreases s.len(),
{
    let k = line_len(s);
    if k >= s.len() {
        seq![s]
    } else {
        seq![s.subrange(0, k as int)] + lines_of(s.subrange(k as int + 1, s.len() as int))
    }
}

/// What one vocabulary line holds.
pub enum LineEntry {
    /// Blank, or without a space: ignored.
    Skip,
    /// The text after the last space is not an `i32`.
    Bad,
    /// A token and its id.
    Entry(Seq<char>, i32),
}

/// Index of the last space in `t`, if any.
pub open spec fn last_space(t: Seq<char>) -> Option<int>
    decreases t.len(),
{
    if t.len() == 0 {
        None
    } else if t.last() == ' ' {
        Some(t.len() - 1)
    } else {
        last_space(t.drop_last())
    }
}

/// A vocabulary line: `token id`, trimmed, split at its last space.
pub open spec fn line_entry(line: Seq<char>) -> LineEntry {
    let t = trim_ws(line);
    match last_space(t) {
        None => LineEntry::Skip,
        Some(k) => match parsed_i32(t.subrange(k + 1, t.len() as int)) {
            None => LineEntry::Bad,
            Some(id) => LineEntry::Entry(t.subrange(0, k), id),
        },
    }
}

pub open spec fn is_blank_name(t: Seq<char>) -> bool {
    t == seq!['<', 'b', 'l', 'k', '>'] || t == seq!['<', 'b', 'l', 'a', 'n', 'k', '>']
}

/// Vocabulary read from `lines`: the token of each id (a later line wins),
/// the largest id (-1 if none) and the id of the last line naming the blank
/// token. `None` where a line has a bad id.
pub open spec fn vocab_of_lines(lines: Seq<Seq<char>>) -> Option<(Map<i32, Seq<char>>, int, Option<i32>)>
    decreases lines.len(),
{
    if lines.len() == 0 {
        Some((Map::empty(), -1, None))
    } else {
        match vocab_of_lines(lines.drop_last()) {
            None => None,
            Some((m, mx, b)) => match line_entry(lines.last()) {
                LineEntry::Skip => Some((m, mx, b)),
                LineEntry::Bad => None,
                LineEntry::Entry(tok, id) => Some(
                    (
                        m.insert(id, tok),
                        if id > mx { id as int } else { mx },
                        if is_blank_name(tok) { Some(id) } else { b },
                    ),
                ),
            },
        }
    }
}

/// `t` with each word-boundary marker turned into a space.
pub open spec fn marker_to_space(t: Seq<char>) -> Seq<char> {
    t.map_values(|c: char| if c == WORD_BOUNDARY { ' ' } else { c })
}

/// The text of `ids` joined: blank and unknown ids add nothing, markers
/// become spaces.
pub open spec fn joined_text(tokens: Map<i32, Seq<char>>, blank: i32, ids: Seq<i32>) -> Seq<char>
    decreases ids.len(),
{
    if ids.len() == 0 {
        Seq::empty()
    } else {
        let id = ids.last();
        joined_text(tokens, blank, ids.drop_last()) + if id != blank && tokens.contains_key(id) {
            marker_to_space(tokens[id])
        } else {
            Seq::empty()
        }
    }
}

impl Tokenizer {
    /// Token text by id.
    pub closed spec fn token_map(&self) -> Map<i32, Seq<char>> {
        self.id_to_token@.map_values(|s: String| s@)
    }

    /// Whether this tokenizer holds the vocabulary `v`: its tokens, its
    /// largest id plus one as size, and its named blank id or else the
    /// largest id.
    pub open spec fn describes(&self, v: Option<(Map<i32, Seq<char>>, int, Option<i32>)>) -> bool {
        match v {
            Some((m, mx, b)) => self.token_map() == m && self.spec_vocab_size() == mx + 1
                && self.spec_blank_id() == match b {
                Some(x) => x as int,
                None => mx,
            },
            None => false,
        }
    }

    pub closed spec fn spec_blank_id(&self) -> i32 {
        self.blank_id
    }

    pub closed spec fn spec_vocab_size(&self) -> usize {
        self.vocab_size
    }

    /// Reads a vocabulary, one `token id` per line. The token may hold
    /// spaces: the id is what follows the last one. Blank lines and lines
    /// without a space are ignored. The blank token is the one named
    /// `<blk>` or `<blank>`, else the largest id; the vocabulary size is
    /// the largest id plus one.
    pub fn from_str(content: &str) -> (r: Result<Tokenizer, TokenizerError>)
        ensures
            match r {
                Ok(t) => t.describes(vocab_of_lines(lines_of(content@))),
                Err(_) => vocab_of_lines(lines_of(content@)) is None,
            },
    {
        let cs = chars_of(content);
        let n = cs.len();
        let mut map: HashMap<i32, String> = HashMap::new();
        let mut max_id: i64 = -1;
        let mut blank: Option<i32> = None;
        let mut pos: usize = 0;
        let mut line_no: usize = 0;
        let ghost mut done: Seq<Seq<char>> = Seq::empty();
        assert(cs@.subrange(0, n as int) =~= cs@);
        assert(done + lines_of(cs@) =~= lines_of(cs@));
        loop
            invariant_except_break
                done + lines_of(cs@.subrange(pos as int, n as int)) == lines_of(cs@),
            invariant
                n == cs@.len(),
                cs@ == content@,
                pos <= n,
                vocab_of_lines(done) == Some(
                    (map@.map_values(|s: String| s@), max_id as int, blank),
                ),
                -1 <= max_id <= i32::MAX,
            ensures
                done == lines_of(cs@),
            decreases n - pos,
        {
            let ghost rest = cs@.subrange(pos as int, n as int);
            let mut k: usize = pos;
            while k < n && cs[k] != '\n'
                invariant
                    pos <= k <= n,
                    n == cs@.len(),
                    rest == cs@.subrange(pos as int, n as int),
                    forall|j: int| pos <= j < k ==> cs@[j] != '\n',
                decreases n - k,
            {
                k = k + 1;
            }
            proof {
                lemma_line_len(rest, k - pos);
            }
            let line = slice_chars(&cs, pos, k);
            assert(line@ == rest.subrange(0, (k - pos) as int));
            let ghost before = done;
            proof {
                done = done.push(line@);
                assert(done.drop_last() == before);
            }
            let entry = read_line(&line);
            match entry {
                ReadLine::Skip => {},
                ReadLine::Bad => {
                    proof {
                        let all = lines_of(cs@);
                        let tail = lines_of(cs@.subrange(k as int + 1, n as int));
                        if k < n {
                            assert(rest.subrange((k - pos) + 1, rest.len() as int) =~= cs@.subrange(
                                k + 1,
                                n as int,
                            ));
                            assert(lines_of(rest) == seq![line@] + tail);
                            assert(all =~= done + tail);
                        } else {
                            assert(lines_of(rest) == seq![rest]);
                            assert(rest.subrange(0, (k - pos) as int) =~= rest);
                            assert(all =~= done);
                        }
                        assert(all.subrange(0, done.len() as int) =~= done);
                        lemma_vocab_bad_prefix(all, done);
                    }
                    return Err(TokenizerError::BadTokenId(line_no));
                },
                ReadLine::Entry(tok, id) => {
                    let named_blank = is_blank_token(&tok);
                    if named_blank {
                        blank = Some(id);
                    }
                    if id as i64 > max_id {
                        max_id = id as i64;
                    }
                    let ghost m0 = map@;
                    let text = string_of(&tok);
                    map.insert(id, text);
                    assert(map@.map_values(|s: String| s@) =~= m0.map_values(|s: String| s@).insert(
                        id,
                        tok@,
                    ));
                },
            }
            if k >= n {
                assert(lines_of(rest) == seq![rest]);
                assert(rest.subrange(0, (k - pos) as int) =~= rest);
                assert(done =~= lines_of(cs@));
                break;
            }
            assert(rest.subrange((k - pos) + 1, rest.len() as int) =~= cs@.subrange(
                k + 1,
                n as int,
            ));
            assert(done + lines_of(cs@.subrange(k + 1, n as int)) =~= before + lines_of(rest));
            pos = k + 1;
            if line_no < usize::MAX {
                line_no = line_no + 1;
            }
        }
        let vocab_size = (max_id + 1) as usize;
        let blank_id = match blank {
            Some(b) => b,
            None => max_id as i32,
        };
        let t = Tokenizer { id_to_token: map, blank_id, vocab_size };
        assert(vocab_of_lines(lines_of(content@)) == Some((t.token_map(), max_id as int, blank)));
        assert(t.spec_vocab_size() == max_id + 1);
        assert(t.spec_blank_id() == match blank {
            Some(x) => x as int,
            None => max_id as int,
        });
        Ok(t)
    }

    /// The blank token's id.
    pub fn blank_id(&self) -> (r: i32)
        ensures
            r == self.spec_blank_id(),
    {
        self.blank_id
    }

    /// Largest token id plus one.
    pub fn vocab_size(&self) -> (r: usize)
        ensures
            r == self.spec_vocab_size(),
    {
        self.vocab_size
    }

    /// The text of token `id`, if the vocabulary has it.
    pub fn decode_token(&self, id: i32) -> (r: Option<&str>)
        ensures
            match r {
                Some(t) => self.token_map().contains_key(id) && t@ == self.token_map()[id],
                None => !self.token_map().contains_key(id),
            },
    {
        match self.id_to_token.get(&id) {
            Some(s) => Some(s.as_str()),
            None => None,
        }
    }

    /// The text of `tokens`: blank and unknown ids are left out, the
    /// pieces are joined with each word-boundary marker turned into a space,
    /// and the result is trimmed.
    pub fn decode(&self, tokens: &[i32]) -> (r: String)
        ensures
            r@ == trim_ws(joined_text(self.token_map(), self.spec_blank_id(), tokens@)),
    {
        let mut out: Vec<char> = Vec::new();
        let mut i: usize = 0;
        while i < tokens.len()
            invariant
                i <= tokens@.len(),
                out@ == joined_text(
                    self.token_map(),
                    self.spec_blank_id(),
                    tokens@.subrange(0, i as int),
                ),
            decreases tokens@.len() - i,
        {
            let id = tokens[i];
            let ghost prefix = tokens@.subrange(0, i + 1);
            assert(prefix.drop_last() =~= tokens@.subrange(0, i as int));
            if id != self.blank_id {
                match self.id_to_token.get(&id) {
                    Some(s) => {
                        let piece = chars_of(s.as_str());
                        let mut j: usize = 0;
                        let ghost start = out@;
                        while j < piece.len()
                            invariant
                                j <= piece@.len(),
                                out@ == start + marker_to_space(piece@).subrange(0, j as int),
                            decreases piece@.len() - j,
                        {
                            let c = piece[j];
                            out.push(if c == WORD_BOUNDARY { ' ' } else { c });
                            j = j + 1;
                        }
                        assert(marker_to_space(piece@).subrange(0, j as int) =~= marker_to_space(
                            piece@,
                        ));
                    },
                    None => {
                        assert(out@ + Seq::<char>::empty() =~= out@);
                    },
                }
            } else {
                assert(out@ + Seq::<char>::empty() =~= out@);
            }
            i = i + 1;
        }
        assert(tokens@.subrange(0, i as int) =~= tokens@);
        let trimmed = trim_ws_chars(&out);
        string_of(&trimmed)
    }
}

/// One word of a transcript with the times of its first and last token.
#[derive(Debug, Clone, PartialEq, Eq)]
pub struct WordSegment {
    pub text: String,
    /// Time of the word's first token, in milliseconds.
    pub start_ms: i64,
    /// Time of the word's last token, in milliseconds.
    pub end_ms: i64,
}

/// `t` without word-boundary markers.
pub open spec fn strip_marker(t: Seq<char>) -> Seq<char>
    decreases t.len(),
{
    if t.len() == 0 {
        Seq::empty()
    } else {
        strip_marker(t.drop_last()) + if t.last() == WORD_BOUNDARY {
            Seq::empty()
        } else {
            seq![t.last()]
        }
    }
}

/// Words found so far, the word being built, its start and its latest end.
pub struct WordState {
    pub words: Seq<(Seq<char>, int, int)>,
    pub current: Seq<char>,
    pub start: Option<int>,
    pub end: int,
}

/// Time of token `i`: its frame index (0 where none is given) times the
/// frame duration.
pub open spec fn token_time(frames: Seq<i32>, i: int, frame_ms: u32) -> int {
    (if i < frames.len() { frames[i] as int } else { 0 }) * frame_ms
}

/// The word state after the first `n` tokens. A token that starts with the
/// marker closes the word being built; its text without markers, if any,
/// extends the current word, whose start is the time of its first token and
/// whose end is the time of its latest.
pub open spec fn word_state(
    tokens: Map<i32, Seq<char>>,
    blank: i32,
    ids: Seq<i32>,
    frames: Seq<i32>,
    frame_ms: u32,
    n: nat,
) -> WordState
    decreases n,
{
    if n == 0 {
        WordState { words: Seq::empty(), current: Seq::empty(), start: None, end: 0 }
    } else {
        let st = word_state(tokens, blank, ids, frames, frame_ms, (n - 1) as nat);
        let id = ids[n - 1];
        if id == blank || !tokens.contains_key(id) {
            st
        } else {
            let tok = tokens[id];
            let time = token_time(frames, n - 1, frame_ms);
            let st1 = if tok.len() > 0 && tok[0] == WORD_BOUNDARY && st.current.len() > 0 {
                WordState {
                    words: match st.start {
                        Some(s) => st.words.push((st.current, s, st.end)),
                        None => st.words,
                    },
                    current: Seq::empty(),
                    start: None,
                    end: st.end,
                }
            } else {
                st
            };
            let clean = strip_marker(tok);
            if clean.len() > 0 {
                WordState {
                    words: st1.words,
                    current: st1.current + clean,
                    start: match st1.start {
                        Some(s) => Some(s),
                        None => Some(time),
                    },
                    end: time,
                }
            } else {
                st1
            }
        }
    }
}

/// The words of `ids`: those closed along the way, then the last one.
pub open spec fn words_of(
    tokens: Map<i32, Seq<char>>,
    blank: i32,
    ids: Seq<i32>,
    frames: Seq<i32>,
    frame_ms: u32,
) -> Seq<(Seq<char>, int, int)> {
    let st = word_state(tokens, blank, ids, frames, frame_ms, ids.len());
    if st.current.len() > 0 && st.start is Some {
        st.words.push((st.current, st.start->0, st.end))
    } else {
        st.words
    }
}

pub open spec fn segment_views(v: Seq<WordSegment>) -> Seq<(Seq<char>, int, int)> {
    v.map_values(|w: WordSegment| (w.text@, w.start_ms as int, w.end_ms as int))
}

impl Tokenizer {
    /// Groups `tokens` into words at word boundaries, each with the times of
    /// its first and last token; `frames[i]` is the encoder frame of token
    /// `i` and `frame_ms` the length of a frame.
    pub fn decode_with_timestamps(&self, tokens: &[i32], frames: &[i32], frame_ms: u32) -> (r: Vec<
        WordSegment,
    >)
        ensures
            segment_views(r@) == words_of(
                self.token_map(),
                self.spec_blank_id(),
                tokens@,
                frames@,
                frame_ms,
            ),
    {
        let ghost tm = self.token_map();
        let ghost blank = self.spec_blank_id();
        let mut words: Vec<WordSegment> = Vec::new();
        let mut current: Vec<char> = Vec::new();
        let mut start: Option<i64> = None;
        let mut end: i64 = 0;
        let mut i: usize = 0;
        while i < tokens.len()
            invariant
                i <= tokens@.len(),
                tm == self.token_map(),
                blank == self.spec_blank_id(),
                ({
                    let st = word_state(tm, blank, tokens@, frames@, frame_ms, i as nat);
                    &&& segment_views(words@) == st.words
                    &&& current@ == st.current
                    &&& st.start == match start {
                        Some(s) => Some(s as int),
                        None => None::<int>,
                    }
                    &&& st.end == end
                }),
            decreases tokens@.len() - i,
        {
            let id = tokens[i];
            if id != self.blank_id {
                match self.id_to_token.get(&id) {
                    Some(s) => {
                        let f: i32 = if i < frames.len() { frames[i] } else { 0 };
                        proof {
                            assert(-0x8000_0000 * 0xffff_ffff <= f * frame_ms <= 0x7fff_ffff * 0xffff_ffff) by (nonlinear_arith)
                                requires
                                    -0x8000_0000 <= f <= 0x7fff_ffff,
                                    0 <= frame_ms <= 0xffff_ffff,
                            ;
                        }
                        let time: i64 = f as i64 * frame_ms as i64;
                        let tok = chars_of(s.as_str());
                        assert(tok@ == tm[id]);
                        if tok.len() > 0 && tok[0] == WORD_BOUNDARY && current.len() > 0 {
                            let ghost w0 = words@;
                            match start {
                                Some(st) => {
                                    words.push(WordSegment { text: string_of(&current), start_ms: st, end_ms: end });
                                    assert(segment_views(words@) =~= segment_views(w0).push(
                                        (current@, st as int, end as int),
                                    ));
                                },
                                None => {},
                            }
                            current = Vec::new();
                            start = None;
                        }
                        let mut j: usize = 0;
                        let mut any = false;
                        let ghost c0 = current@;
                        while j < tok.len()
                            invariant
                                j <= tok@.len(),
                                current@ == c0 + strip_marker(tok@.subrange(0, j as int)),
                                any == (strip_marker(tok@.subrange(0, j as int)).len() > 0),
                            decreases tok@.len() - j,
                        {
                            assert(tok@.subrange(0, j + 1).drop_last() =~= tok@.subrange(0, j as int));
                            if tok[j] != WORD_BOUNDARY {
                                current.push(tok[j]);
                                any = true;
                            }
                            j = j + 1;
                            assert(current@ =~= c0 + strip_marker(tok@.subrange(0, j as int)));
                        }
                        assert(tok@.subrange(0, j as int) =~= tok@);
                        if any {
                            if start.is_none() {
                                start = Some(time);
                            }
                            end = time;
                        }
                    },
                    None => {},
                }
            }
            i = i + 1;
        }
        if current.len() > 0 {
            match start {
                Some(st) => {
                    let ghost w0 = words@;
                    words.push(WordSegment { text: string_of(&current), start_ms: st, end_ms: end });
                    assert(segment_views(words@) =~= segment_views(w0).push(
                        (current@, st as int, end as int),
                    ));
                },
                None => {},
            }
        }
        words
    }
}

/// What `read_line` found in a line.
enum ReadLine {
    Skip,
    Bad,
    Entry(Vec<char>, i32),
}

fn read_line(line: &Vec<char>) -> (r: ReadLine)
    ensures
        match (r, line_entry(line@)) {
            (ReadLine::Skip, LineEntry::Skip) => true,
            (ReadLine::Bad, LineEntry::Bad) => true,
            (ReadLine::Entry(tok, id), LineEntry::Entry(t2, id2)) => tok@ == t2 && id == id2,
            _ => false,
        },
{
    let t = trim_ws_chars(line);
    let mut k: usize = t.len();
    assert(t@.subrange(0, k as int) =~= t@);
    while k > 0 && t[k - 1] != ' '
        invariant
            k <= t@.len(),
            last_space(t@) == last_space(t@.subrange(0, k as int)),
        decreases k,
    {
        assert(t@.subrange(0, k as int).drop_last() =~= t@.subrange(0, k - 1));
        k = k - 1;
    }
    if k == 0 {
        assert(t@.subrange(0, 0) =~= Seq::<char>::empty());
        return ReadLine::Skip;
    }
    assert(last_space(t@.subrange(0, k as int)) == Some(k - 1));
    let id_part = slice_chars(&t, k, t.len());
    match parse_i32(&id_part) {
        None => ReadLine::Bad,
        Some(id) => ReadLine::Entry(slice_chars(&t, 0, k - 1), id),
    }
}

fn is_blank_token(t: &Vec<char>) -> (r: bool)
    ensures
        r == is_blank_name(t@),
{
    if t.len() == 5 {
        let r = t[0] == '<' && t[1] == 'b' && t[2] == 'l' && t[3] == 'k' && t[4] == '>';
        assert(r ==> t@ =~= seq!['<', 'b', 'l', 'k', '>']);
        assert(t@ != seq!['<', 'b', 'l', 'a', 'n', 'k', '>']);
        r
    } else if t.len() == 7 {
        let r = t[0] == '<' && t[1] == 'b' && t[2] == 'l' && t[3] == 'a' && t[4] == 'n' && t[5]
            == 'k' && t[6] == '>';
        assert(r ==> t@ =~= seq!['<', 'b', 'l', 'a', 'n', 'k', '>']);
        assert(t@ != seq!['<', 'b', 'l', 'k', '>']);
        r
    } else {
        assert(t@ != seq!['<', 'b', 'l', 'k', '>']);
        assert(t@ != seq!['<', 'b', 'l', 'a', 'n', 'k', '>']);
        false
    }
}

proof fn lemma_line_len(s: Seq<char>, k: int)
    requires
        0 <= k <= s.len(),
        forall|j: int| 0 <= j < k ==> s[j] != '\n',
        k < s.len() ==> s[k] == '\n',
    ensures
        line_len(s) == k,
    decreases k,
{
    if k > 0 {
        let t = s.drop_first();
        assert forall|j: int| 0 <= j < k - 1 implies t[j] != '\n' by {
            assert(t[j] == s[j + 1]);
        }
        if k - 1 < t.len() {
            assert(t[k - 1] == s[k]);
        }
        lemma_line_len(t, k - 1);
    }
}

/// Once a prefix of the lines holds a bad id, the whole vocabulary does.
proof fn lemma_vocab_bad_prefix(all: Seq<Seq<char>>, pre: Seq<Seq<char>>)
    requires
        vocab_of_lines(pre) is None,
        pre.len() <= all.len(),
        all.subrange(0, pre.len() as int) == pre,
    ensures
        vocab_of_lines(all) is None,
    decreases all.len() - pre.len(),
{
    if all.len() > pre.len() {
        let next = all.subrange(0, pre.len() as int + 1);
        assert(next.drop_last() =~= pre);
        assert(next.subrange(0, pre.len() as int) =~= pre);
        lemma_vocab_bad_prefix(all, next);
    } else {
        assert(all =~= pre);
    }
}

} // verus!
