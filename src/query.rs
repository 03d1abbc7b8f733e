//! Making user search text safe to hand to the full-text index.

use vstd::prelude::*;
use crate::text::{chars_of, string_of, trim_ws, trim_ws_chars};

verus! {

/// Why a search request was refused.
#[derive(Debug, Clone, Copy, PartialEq, Eq, Structural)]
pub enum SearchError {
    /// The query is empty or only white space.
    EmptyQuery,
}

/// Broad classes of failure, for reporting at API boundaries.
#[derive(Debug, Clone, Copy, PartialEq, Eq, Structural)]
pub enum ErrorClass {
    Transient,
    Resource,
    Fatal,
    Client,
}

impl SearchError {
    /// A bad query is the caller's mistake.
    pub fn class(&self) -> (r: ErrorClass)
        ensures
            r == ErrorClass::Client,
    {
        ErrorClass::Client
    }
}

/// `s` with each double quote doubled.
pub open spec fn double_quotes(s: Seq<char>) -> Seq<char>
    decreases s.len(),
{
    if s.len() == 0 {
        Seq::empty()
    } else {
        double_quotes(s.drop_last()) + if s.last() == '"' {
            seq!['"', '"']
        } else {
            seq![s.last()]
        }
    }
}

/// The phrase query for `q`: trimmed, inner quotes doubled, wrapped in
/// quotes; `None` for a blank query.
pub open spec fn fts_phrase(q: Seq<char>) -> Option<Seq<char>> {
    let t = trim_ws(q);
    if t.len() == 0 {
        None
    } else {
        Some(seq!['"'] + double_quotes(t) + seq!['"'])
    }
}

/// Turns user text into a literal phrase query: the text is trimmed, each
/// `"` doubled, and the whole wrapped in `"`. A blank query is refused.
pub fn sanitize_fts5_query(query: &str) -> (r: Result<String, SearchError>)
    ensures
        match r {
            Ok(s) => fts_phrase(query@) == Some(s@),
            Err(e) => fts_phrase(query@) is None && e == SearchError::EmptyQuery,
        },
{
    let cs = chars_of(query);
    let t = trim_ws_chars(&cs);
    if t.len() == 0 {
        return Err(SearchError::EmptyQuery);
    }
    let mut out: Vec<char> = Vec::new();
    out.push('"');
    let mut i: usize = 0;
    while i < t.len()
        invariant
            i <= t@.len(),
            out@ == seq!['"'] + double_quotes(t@.subrange(0, i as int)),
        decreases t@.len() - i,
    {
        assert(t@.subrange(0, i + 1).drop_last() =~= t@.subrange(0, i as int));
        if t[i] == '"' {
            out.push('"');
            out.push('"');
        } else {
            out.push(t[i]);
        }
        i = i + 1;
        assert(out@ =~= seq!['"'] + double_quotes(t@.subrange(0, i as int)));
    }
    assert(t@.subrange(0, i as int) =~= t@);
    out.push('"');
    Ok(string_of(&out))
}

} // verus!
