//! Byte ranges of HTTP range requests on recorded media.

use vstd::prelude::*;
use crate::numparse::{parse_u64, parsed_u64};
use crate::text::{chars_of, slice_chars};

verus! {

/// Index of the first `-` in `s`, if any.
pub open spec fn first_dash(s: Seq<char>) -> Option<int>
    decreases s.len(),
{
    if s.len() == 0 {
        None
    } else if s[0] == '-' {
        Some(0)
    } else {
        match first_dash(s.drop_first()) {
            Some(k) => Some(k + 1),
            None => None,
        }
    }
}

pub open spec fn has_bytes_prefix(s: Seq<char>) -> bool {
    s.len() >= 6 && s.subrange(0, 6) == seq!['b', 'y', 't', 'e', 's', '=']
}

/// The inclusive byte range that header value `h` asks of a file of `size`
/// bytes: `bytes=start-end`, or `bytes=start-` up to the last byte, with an
/// end past the file cut to its last byte. `None` for another shape, an
/// empty file, or a start past the end.
pub open spec fn byte_range(h: Seq<char>, size: u64) -> Option<(u64, u64)> {
    if !has_bytes_prefix(h) {
        None
    } else {
        let rest = h.subrange(6, h.len() as int);
        match first_dash(rest) {
            None => None,
            Some(k) => match parsed_u64(rest.subrange(0, k)) {
                None => None,
                Some(start) => {
                    let end_s = rest.subrange(k + 1, rest.len() as int);
                    if size == 0 {
                        None
                    } else {
                        let end: Option<u64> = if end_s.len() == 0 {
                            Some((size - 1) as u64)
                        } else {
                            match parsed_u64(end_s) {
                                None => None,
                                Some(e) => Some(if e < size - 1 { e } else { (size - 1) as u64 }),
                            }
                        };
                        match end {
                            None => None,
                            Some(e) => if start <= e && e < size { Some((start, e)) } else { None },
                        }
                    }
                },
            },
        }
    }
}

proof fn lemma_first_dash(s: Seq<char>, k: int)
    requires
        0 <= k <= s.len(),
        forall|j: int| 0 <= j < k ==> s[j] != '-',
    ensures
        k < s.len() && s[k] == '-' ==> first_dash(s) == Some(k),
        k == s.len() ==> first_dash(s) is None,
    decreases k,
{
    if k > 0 {
        let t = s.drop_first();
        assert forall|j: int| 0 <= j < k - 1 implies t[j] != '-' by {
            assert(t[j] == s[j + 1]);
        }
        if k < s.len() {
            assert(t[k - 1] == s[k]);
        }
        lemma_first_dash(t, k - 1);
    }
}

/// The inclusive byte range of a `Range` header value for a file of
/// `file_size` bytes; see `byte_range`.
pub fn parse_range_header(range: &str, file_size: u64) -> (r: Option<(u64, u64)>)
    ensures
        r == byte_range(range@, file_size),
{
    let cs = chars_of(range);
    if cs.len() < 6 {
        return None;
    }
    let prefix_ok = cs[0] == 'b' && cs[1] == 'y' && cs[2] == 't' && cs[3] == 'e' && cs[4] == 's'
        && cs[5] == '=';
    if !prefix_ok {
        assert(!has_bytes_prefix(range@)) by {
            if has_bytes_prefix(range@) {
                assert(cs@.subrange(0, 6)[0] == cs@[0]);
                assert(cs@.subrange(0, 6)[5] == cs@[5]);
                assert(cs@.subrange(0, 6)[1] == cs@[1]);
                assert(cs@.subrange(0, 6)[2] == cs@[2]);
                assert(cs@.subrange(0, 6)[3] == cs@[3]);
                assert(cs@.subrange(0, 6)[4] == cs@[4]);
            }
        }
        return None;
    }
    assert(cs@.subrange(0, 6) =~= seq!['b', 'y', 't', 'e', 's', '=']);
    let rest = slice_chars(&cs, 6, cs.len());
    let mut k: usize = 0;
    while k < rest.len() && rest[k] != '-'
        invariant
            k <= rest@.len(),
            forall|j: int| 0 <= j < k ==> rest@[j] != '-',
        decreases rest@.len() - k,
    {
        k = k + 1;
    }
    proof {
        lemma_first_dash(rest@, k as int);
    }
    if k >= rest.len() {
        return None;
    }
    let start_s = slice_chars(&rest, 0, k);
    let start = match parse_u64(&start_s) {
        Some(v) => v,
        None => {
            return None;
        },
    };
    let end_s = slice_chars(&rest, k + 1, rest.len());
    if file_size == 0 {
        return None;
    }
    let end = if end_s.len() == 0 {
        file_size - 1
    } else {
        match parse_u64(&end_s) {
            Some(e) => if e < file_size - 1 { e } else { file_size - 1 },
            None => {
                return None;
            },
        }
    };
    if start <= end && end < file_size {
        Some((start, end))
    } else {
        None
    }
}


/// Failures of the viewer's HTTP API.
#[derive(Debug, Clone, PartialEq, Eq)]
pub enum ApiError {
    NotFound(String),
    BadRequest(String),
    Forbidden(String),
    RangeNotSatisfiable,
    NotImplemented(String),
    Internal(String),
    Database(String),
    Io(String),
}

impl ApiError {
    /// HTTP status code of the error.
    pub fn status_code(&self) -> (r: u16)
        ensures
            r == match self {
                ApiError::NotFound(_) => 404u16,
                ApiError::BadRequest(_) => 400u16,
                ApiError::Forbidden(_) => 403u16,
                ApiError::RangeNotSatisfiable => 416u16,
                ApiError::NotImplemented(_) => 501u16,
                _ => 500u16,
            },
    {
        match self {
            ApiError::NotFound(_) => 404,
            ApiError::BadRequest(_) => 400,
            ApiError::Forbidden(_) => 403,
            ApiError::RangeNotSatisfiable => 416,
            ApiError::NotImplemented(_) => 501,
            _ => 500,
        }
    }

    /// Name of the error in response bodies.
    pub fn error_name(&self) -> (r: &'static str)
        ensures
            r@ == match self {
                ApiError::NotFound(_) => "NotFound"@,
                ApiError::BadRequest(_) => "BadRequest"@,
                ApiError::Forbidden(_) => "Forbidden"@,
                ApiError::RangeNotSatisfiable => "RangeNotSatisfiable"@,
                ApiError::NotImplemented(_) => "NotImplemented"@,
                ApiError::Internal(_) => "InternalServerError"@,
                ApiError::Database(_) => "DatabaseError"@,
                ApiError::Io(_) => "IoError"@,
            },
    {
        match self {
            ApiError::NotFound(_) => "NotFound",
            ApiError::BadRequest(_) => "BadRequest",
            ApiError::Forbidden(_) => "Forbidden",
            ApiError::RangeNotSatisfiable => "RangeNotSatisfiable",
            ApiError::NotImplemented(_) => "NotImplemented",
            ApiError::Internal(_) => "InternalServerError",
            ApiError::Database(_) => "DatabaseError",
            ApiError::Io(_) => "IoError",
        }
    }
}

/// Page size and start of a listing: the limit defaults to 50 and is kept
/// within 1..=100; the offset defaults to 0 and is never negative.
pub fn page_bounds(limit: Option<i64>, offset: Option<i64>) -> (r: (i64, i64))
    ensures
        r.0 == match limit {
            Some(l) => if l < 1 { 1 } else if l > 100 { 100 } else { l },
            None => 50,
        },
        r.1 == match offset {
            Some(o) => if o < 0 { 0 } else { o },
            None => 0,
        },
{
    let l = match limit {
        Some(l) => l,
        None => 50,
    };
    let l = if l < 1 { 1 } else if l > 100 { 100 } else { l };
    let o = match offset {
        Some(o) => o,
        None => 0,
    };
    let o = if o < 0 { 0 } else { o };
    (l, o)
}

/// Parameters of the chunk listing.
#[derive(Debug, Clone)]
pub struct ChunksQuery {
    pub monitor: Option<String>,
    pub limit: Option<i64>,
    pub offset: Option<i64>,
}

/// Parameters of the frame listing; times are RFC 3339 text.
#[derive(Debug, Clone)]
pub struct FramesQuery {
    pub start: Option<String>,
    pub end: Option<String>,
    pub limit: Option<i64>,
    pub offset: Option<i64>,
}

/// Parameters of an OCR search.
#[derive(Debug, Clone)]
pub struct SearchQuery {
    pub q: String,
    pub limit: Option<i64>,
    pub offset: Option<i64>,
}

/// Parameters of the audio chunk listing.
#[derive(Debug, Clone)]
pub struct AudioChunksQuery {
    pub device: Option<String>,
    pub is_input: Option<bool>,
    pub limit: Option<i64>,
    pub offset: Option<i64>,
}

/// Parameters of a transcription search.
#[derive(Debug, Clone)]
pub struct AudioSearchQuery {
    pub q: String,
    pub limit: Option<i64>,
    pub offset: Option<i64>,
}

/// One video chunk of a listing.
#[derive(Debug, Clone)]
pub struct ChunkWithMetadata {
    pub id: i64,
    pub file_path: String,
    pub device_name: String,
    pub created_at: String,
    pub frame_count: i64,
}

/// A page of video chunks and their total.
#[derive(Debug, Clone)]
pub struct ChunksResponse {
    pub chunks: Vec<ChunkWithMetadata>,
    pub total: i64,
}

/// One audio chunk of a listing.
#[derive(Debug, Clone)]
pub struct AudioChunkWithMetadata {
    pub id: i64,
    pub file_path: String,
    pub device_name: Option<String>,
    pub is_input_device: Option<bool>,
    pub timestamp: String,
    pub transcription_count: i64,
}

/// A page of audio chunks and their total.
#[derive(Debug, Clone)]
pub struct AudioChunksResponse {
    pub chunks: Vec<AudioChunkWithMetadata>,
    pub total: i64,
}

pub open spec fn is_separator(c: char) -> bool {
    c == '/' || c == '\\'
}

/// Walk over a relative path: the depth below the root after each
/// component, and whether it ever went above the root.
pub struct PathWalk {
    pub depth: int,
    pub component: Seq<char>,
    pub escaped: bool,
}

/// The walk after a completed component `comp`.
pub open spec fn close_component(w: PathWalk) -> PathWalk {
    let comp = w.component;
    if comp == seq!['.', '.'] {
        PathWalk {
            depth: if w.depth == 0 { 0 } else { w.depth - 1 },
            component: Seq::empty(),
            escaped: w.escaped || w.depth == 0,
        }
    } else if comp.len() == 0 || comp == seq!['.'] {
        PathWalk { component: Seq::empty(), ..w }
    } else {
        PathWalk { depth: w.depth + 1, component: Seq::empty(), ..w }
    }
}

/// The walk after the first `n` characters of `p`.
pub open spec fn walk(p: Seq<char>, n: nat) -> PathWalk
    decreases n,
{
    if n == 0 {
        PathWalk { depth: 0, component: Seq::empty(), escaped: false }
    } else {
        let w = walk(p, (n - 1) as nat);
        let c = p[n - 1];
        if is_separator(c) {
            close_component(w)
        } else {
            PathWalk { component: w.component.push(c), ..w }
        }
    }
}

/// Whether the relative path `p` names something inside its root: it does
/// not start at a root or a drive, and no `..` climbs above the start.
pub open spec fn stays_inside(p: Seq<char>) -> bool {
    &&& !(p.len() > 0 && is_separator(p[0]))
    &&& !(p.len() > 1 && p[1] == ':')
    &&& !close_component(walk(p, p.len())).escaped
}

/// See `stays_inside`: a stored chunk path that fails it is refused.
pub fn relative_path_stays_inside(path: &str) -> (r: bool)
    ensures
        r == stays_inside(path@),
{
    let cs = chars_of(path);
    if cs.len() > 0 && (cs[0] == '/' || cs[0] == '\\') {
        return false;
    }
    if cs.len() > 1 && cs[1] == ':' {
        return false;
    }
    let mut depth: u64 = 0;
    let mut comp: Vec<char> = Vec::new();
    let mut escaped = false;
    let mut i: usize = 0;
    while i < cs.len()
        invariant
            i <= cs@.len(),
            cs@ == path@,
            depth <= i,
            i <= usize::MAX,
            walk(cs@, i as nat) == (PathWalk { depth: depth as int, component: comp@, escaped }),
        decreases cs@.len() - i,
    {
        let c = cs[i];
        assert(cs@.len() <= usize::MAX);
        if c == '/' || c == '\\' {
            let (d, e) = close(depth, &comp, escaped);
            depth = d;
            escaped = e;
            comp = Vec::new();
        } else {
            comp.push(c);
        }
        i = i + 1;
    }
    let (_, e) = close(depth, &comp, escaped);
    !e
}

fn close(depth: u64, comp: &Vec<char>, escaped: bool) -> (r: (u64, bool))
    ensures
        depth < u64::MAX ==> close_component(
            PathWalk { depth: depth as int, component: comp@, escaped },
        ).depth == r.0 as int,
        close_component(PathWalk { depth: depth as int, component: comp@, escaped }).escaped == r.1,
        r.0 <= depth + 1,
        r.1 == close_component(PathWalk { depth: depth as int, component: comp@, escaped }).escaped,
{
    if comp.len() == 2 && comp[0] == '.' && comp[1] == '.' {
        assert(comp@ =~= seq!['.', '.']);
        if depth == 0 {
            (0, true)
        } else {
            (depth - 1, escaped)
        }
    } else if comp.len() == 0 || (comp.len() == 1 && comp[0] == '.') {
        assert(comp@ != seq!['.', '.']);
        if comp.len() == 1 {
            assert(comp@ =~= seq!['.']);
        }
        (depth, escaped)
    } else {
        assert(comp@ != seq!['.', '.']);
        assert(comp@ != seq!['.']);
        (if depth < u64::MAX { depth + 1 } else { depth }, escaped)
    }
}

} // verus!
