//! Turning monitor and device names into safe directory names.

use vstd::prelude::*;
use vstd::string::StringExecFns;
use crate::text::{
    chars_of, lead_count, lemma_lead_count, lemma_trail_count, trail_count,
    slice_chars, string_of, trim_by, trim_ws, trim_ws_chars,
};

verus! {

/// Longest directory name produced, in characters.
pub const MAX_NAME_LEN: usize = 100;

/// Characters that no file system path component may hold.
pub open spec fn is_forbidden_char(c: char) -> bool {
    c == '\\' || c == '/' || c == ':' || c == '*' || c == '?' || c == '"' || c == '<' || c == '>'
        || c == '|'
}

/// The first step: forbidden and control characters become `_`, and so do
/// all dots of a name that starts with a dot.
pub open spec fn replace_char(c: char, leading_dot: bool) -> char {
    if is_forbidden_char(c) {
        '_'
    } else if c == '.' && leading_dot {
        '_'
    } else if (c as u32) <= 0x1f {
        '_'
    } else {
        c
    }
}

pub open spec fn replace_chars(s: Seq<char>) -> Seq<char> {
    let leading_dot = s.len() > 0 && s[0] == '.';
    Seq::new(s.len(), |i: int| replace_char(s[i], leading_dot))
}

/// Each `..`, taken left to right without overlap, becomes `_`.
pub open spec fn collapse_dot_pairs(s: Seq<char>) -> Seq<char>
    decreases s.len(),
{
    if s.len() < 2 {
        s
    } else if s[0] == '.' && s[1] == '.' {
        seq!['_'] + collapse_dot_pairs(s.subrange(2, s.len() as int))
    } else {
        seq![s[0]] + collapse_dot_pairs(s.drop_first())
    }
}

pub open spec fn is_edge_filler(c: char) -> bool {
    c == '_' || c == '.' || c == ' '
}

/// `c` is the ASCII letter `upper` in either case.
pub open spec fn same_letter(c: char, upper: char) -> bool {
    c == upper || c as u32 == upper as u32 + 32
}

/// Whether `b`, compared without regard to ASCII case, is a device name that
/// Windows reserves (`CON`, `PRN`, `AUX`, `NUL`, `COM1`..`COM9`, `LPT1`..`LPT9`).
pub open spec fn is_reserved_base(b: Seq<char>) -> bool {
    (b.len() == 3 && ((same_letter(b[0], 'C') && same_letter(b[1], 'O') && same_letter(b[2], 'N'))
        || (same_letter(b[0], 'P') && same_letter(b[1], 'R') && same_letter(b[2], 'N')) || (
    same_letter(b[0], 'A') && same_letter(b[1], 'U') && same_letter(b[2], 'X')) || (same_letter(
        b[0],
        'N',
    ) && same_letter(b[1], 'U') && same_letter(b[2], 'L')))) || (b.len() == 4 && ((same_letter(
        b[0],
        'C',
    ) && same_letter(b[1], 'O') && same_letter(b[2], 'M')) || (same_letter(b[0], 'L')
        && same_letter(b[1], 'P') && same_letter(b[2], 'T'))) && '1' <= b[3] && b[3] <= '9')
}

/// Length of the part of `s` before its first dot.
pub open spec fn base_len(s: Seq<char>) -> nat
    decreases s.len(),
{
    if s.len() == 0 || s[0] == '.' {
        0
    } else {
        1 + base_len(s.drop_first())
    }
}

/// The name once cleaned, before the reserved-name prefix and truncation.
pub open spec fn cleaned_name(name: Seq<char>) -> Seq<char> {
    trim_by(trim_ws(collapse_dot_pairs(replace_chars(name))), |c: char| is_edge_filler(c))
}

/// The directory name for `name`, or `fallback` where nothing is left.
pub open spec fn sanitized_name(name: Seq<char>, fallback: Seq<char>) -> Seq<char> {
    let c = cleaned_name(name);
    let p = if is_reserved_base(c.subrange(0, base_len(c) as int)) {
        seq!['_'] + c
    } else {
        c
    };
    let t = if p.len() > MAX_NAME_LEN {
        p.subrange(0, MAX_NAME_LEN as int)
    } else {
        p
    };
    if t.len() == 0 {
        fallback
    } else {
        t
    }
}

fn is_forbidden(c: char) -> (r: bool)
    ensures
        r == is_forbidden_char(c),
{
    c == '\\' || c == '/' || c == ':' || c == '*' || c == '?' || c == '"' || c == '<' || c == '>'
        || c == '|'
}

fn replace_all_chars(cs: &Vec<char>) -> (r: Vec<char>)
    ensures
        r@ == replace_chars(cs@),
{
    let leading_dot = cs.len() > 0 && cs[0] == '.';
    let mut out: Vec<char> = Vec::new();
    let mut i: usize = 0;
    while i < cs.len()
        invariant
            i <= cs@.len(),
            leading_dot == (cs@.len() > 0 && cs@[0] == '.'),
            out@.len() == i,
            forall|j: int| 0 <= j < i ==> out@[j] == replace_char(cs@[j], leading_dot),
        decreases cs@.len() - i,
    {
        let c = cs[i];
        let d = if is_forbidden(c) {
            '_'
        } else if c == '.' && leading_dot {
            '_'
        } else if (c as u32) <= 0x1f {
            '_'
        } else {
            c
        };
        out.push(d);
        i = i + 1;
    }
    assert(out@ =~= replace_chars(cs@));
    out
}

fn collapse_dots(cs: &Vec<char>) -> (r: Vec<char>)
    ensures
        r@ == collapse_dot_pairs(cs@),
{
    let n = cs.len();
    let mut out: Vec<char> = Vec::new();
    let mut i: usize = 0;
    assert(cs@.subrange(0, n as int) =~= cs@);
    assert(out@ + collapse_dot_pairs(cs@) =~= collapse_dot_pairs(cs@));
    while i < n
        invariant
            n == cs@.len(),
            i <= n,
            out@ + collapse_dot_pairs(cs@.subrange(i as int, n as int)) == collapse_dot_pairs(cs@),
        decreases n - i,
    {
        let ghost rest = cs@.subrange(i as int, n as int);
        let ghost out0 = out@;
        if i + 1 < n && cs[i] == '.' && cs[i + 1] == '.' {
            let ghost rest2 = cs@.subrange(i + 2, n as int);
            assert(rest.subrange(2, rest.len() as int) =~= rest2);
            assert(collapse_dot_pairs(rest) == seq!['_'] + collapse_dot_pairs(rest2));
            out.push('_');
            i = i + 2;
            assert(out@ + collapse_dot_pairs(rest2) =~= out0 + collapse_dot_pairs(rest));
        } else {
            let ghost rest2 = cs@.subrange(i + 1, n as int);
            assert(rest.drop_first() =~= rest2);
            proof {
                if rest.len() < 2 {
                    assert(rest2.len() < 2);
                    assert(collapse_dot_pairs(rest) == rest);
                    assert(collapse_dot_pairs(rest2) == rest2);
                    assert(rest =~= seq![cs@[i as int]] + rest2);
                } else {
                    assert(collapse_dot_pairs(rest) == seq![rest[0]] + collapse_dot_pairs(rest2));
                }
            }
            out.push(cs[i]);
            i = i + 1;
            assert(out@ + collapse_dot_pairs(rest2) =~= out0 + collapse_dot_pairs(rest));
        }
    }
    assert(cs@.subrange(n as int, n as int) =~= Seq::<char>::empty());
    assert(out@ + Seq::<char>::empty() =~= out@);
    out
}

fn is_filler(c: char) -> (r: bool)
    ensures
        r == is_edge_filler(c),
{
    c == '_' || c == '.' || c == ' '
}

fn trim_fillers(cs: &Vec<char>) -> (r: Vec<char>)
    ensures
        r@ == trim_by(cs@, |c: char| is_edge_filler(c)),
{
    let ghost p = |c: char| is_edge_filler(c);
    let n = cs.len();
    let mut a: usize = 0;
    while a < n && is_filler(cs[a])
        invariant
            n == cs@.len(),
            a <= n,
            p == (|c: char| is_edge_filler(c)),
            forall|j: int| 0 <= j < a ==> p(cs@[j]),
        decreases n - a,
    {
        a = a + 1;
    }
    proof {
        lemma_lead_count(cs@, p, a as int);
    }
    if a >= n {
        return Vec::new();
    }
    let mut b: usize = n;
    while b > a && is_filler(cs[b - 1])
        invariant
            n == cs@.len(),
            a < n,
            p == (|c: char| is_edge_filler(c)),
            !p(cs@[a as int]),
            a <= b <= n,
            forall|j: int| b <= j < n ==> p(cs@[j]),
        decreases b,
    {
        b = b - 1;
    }
    proof {
        lemma_trail_count(cs@, p, (n - b) as int);
    }
    slice_chars(cs, a, b)
}

fn letter_is(c: char, upper: char) -> (r: bool)
    requires
        'A' <= upper <= 'Z',
    ensures
        r == same_letter(c, upper),
{
    c == upper || c as u32 == upper as u32 + 32
}

fn reserved_base(b: &Vec<char>) -> (r: bool)
    ensures
        r == is_reserved_base(b@),
{
    let n = b.len();
    if n == 3 {
        (letter_is(b[0], 'C') && letter_is(b[1], 'O') && letter_is(b[2], 'N')) || (letter_is(
            b[0],
            'P',
        ) && letter_is(b[1], 'R') && letter_is(b[2], 'N')) || (letter_is(b[0], 'A') && letter_is(
            b[1],
            'U',
        ) && letter_is(b[2], 'X')) || (letter_is(b[0], 'N') && letter_is(b[1], 'U') && letter_is(
            b[2],
            'L',
        ))
    } else if n == 4 {
        ((letter_is(b[0], 'C') && letter_is(b[1], 'O') && letter_is(b[2], 'M')) || (letter_is(
            b[0],
            'L',
        ) && letter_is(b[1], 'P') && letter_is(b[2], 'T'))) && '1' <= b[3] && b[3] <= '9'
    } else {
        false
    }
}

proof fn lemma_base_len(s: Seq<char>, k: int)
    requires
        0 <= k <= s.len(),
        forall|j: int| 0 <= j < k ==> s[j] != '.',
        k < s.len() ==> s[k] == '.',
    ensures
        base_len(s) == k,
    decreases k,
{
    if k > 0 {
        let t = s.drop_first();
        assert forall|j: int| 0 <= j < k - 1 implies t[j] != '.' by {
            assert(t[j] == s[j + 1]);
        }
        if k - 1 < t.len() {
            assert(t[k - 1] == s[k]);
        }
        lemma_base_len(t, k - 1);
    }
}

/// Shared body of the two public sanitizers.
fn sanitize_component(name: &str, fallback: &str) -> (r: String)
    ensures
        r@ == sanitized_name(name@, fallback@),
{
    let cs = chars_of(name);
    let replaced = replace_all_chars(&cs);
    let collapsed = collapse_dots(&replaced);
    let trimmed = trim_ws_chars(&collapsed);
    let cleaned = trim_fillers(&trimmed);
    let mut k: usize = 0;
    while k < cleaned.len() && cleaned[k] != '.'
        invariant
            k <= cleaned@.len(),
            forall|j: int| 0 <= j < k ==> cleaned@[j] != '.',
        decreases cleaned@.len() - k,
    {
        k = k + 1;
    }
    proof {
        lemma_base_len(cleaned@, k as int);
    }
    let base = slice_chars(&cleaned, 0, k);
    let mut prefixed: Vec<char> = Vec::new();
    if reserved_base(&base) {
        prefixed.push('_');
    }
    let mut i: usize = 0;
    let ghost start = prefixed@;
    while i < cleaned.len()
        invariant
            i <= cleaned@.len(),
            prefixed@ == start + cleaned@.subrange(0, i as int),
        decreases cleaned@.len() - i,
    {
        prefixed.push(cleaned[i]);
        i = i + 1;
    }
    assert(cleaned@.subrange(0, cleaned@.len() as int) =~= cleaned@);
    proof {
        if is_reserved_base(base@) {
            assert(prefixed@ =~= seq!['_'] + cleaned@);
        } else {
            assert(prefixed@ =~= cleaned@);
        }
    }
    let cut = if prefixed.len() > MAX_NAME_LEN {
        slice_chars(&prefixed, 0, MAX_NAME_LEN)
    } else {
        prefixed
    };
    if cut.len() == 0 {
        String::from_str(fallback)
    } else {
        string_of(&cut)
    }
}

/// Directory name for a monitor: see `sanitized_name`; an empty result
/// becomes `monitor`.
pub fn sanitize_monitor_name(name: &str) -> (r: String)
    ensures
        r@ == sanitized_name(name@, "monitor"@),
{
    sanitize_component(name, "monitor")
}

/// Directory name for an audio device: see `sanitized_name`; an empty result
/// becomes `audio_device`.
pub fn sanitize_device_name(name: &str) -> (r: String)
    ensures
        r@ == sanitized_name(name@, "audio_device"@),
{
    sanitize_component(name, "audio_device")
}


/// Characters allowed in a sanitized name.
pub open spec fn is_safe_char(c: char) -> bool {
    !is_forbidden_char(c) && (c as u32) > 0x1f
}

pub open spec fn all_safe(s: Seq<char>) -> bool {
    forall|i: int| 0 <= i < s.len() ==> is_safe_char(#[trigger] s[i])
}

proof fn lemma_replace_safe(s: Seq<char>)
    ensures
        all_safe(replace_chars(s)),
{
}

proof fn lemma_collapse_safe(s: Seq<char>)
    requires
        all_safe(s),
    ensures
        all_safe(collapse_dot_pairs(s)),
    decreases s.len(),
{
    if s.len() >= 2 {
        if s[0] == '.' && s[1] == '.' {
            let t = s.subrange(2, s.len() as int);
            assert(all_safe(t)) by {
                assert forall|i: int| 0 <= i < t.len() implies is_safe_char(#[trigger] t[i]) by {
                    assert(t[i] == s[i + 2]);
                }
            }
            lemma_collapse_safe(t);
            let r = collapse_dot_pairs(s);
            assert(r == seq!['_'] + collapse_dot_pairs(t));
            assert forall|i: int| 0 <= i < r.len() implies is_safe_char(#[trigger] r[i]) by {
                if i > 0 {
                    assert(r[i] == collapse_dot_pairs(t)[i - 1]);
                }
            }
        } else {
            let t = s.drop_first();
            assert(all_safe(t)) by {
                assert forall|i: int| 0 <= i < t.len() implies is_safe_char(#[trigger] t[i]) by {
                    assert(t[i] == s[i + 1]);
                }
            }
            lemma_collapse_safe(t);
            let r = collapse_dot_pairs(s);
            assert(r == seq![s[0]] + collapse_dot_pairs(t));
            assert forall|i: int| 0 <= i < r.len() implies is_safe_char(#[trigger] r[i]) by {
                if i > 0 {
                    assert(r[i] == collapse_dot_pairs(t)[i - 1]);
                } else {
                    assert(is_safe_char(s[0]));
                }
            }
        }
    }
}

proof fn lemma_lead_stops(s: Seq<char>, p: spec_fn(char) -> bool)
    ensures
        lead_count(s, p) <= s.len(),
        lead_count(s, p) < s.len() ==> !p(s[lead_count(s, p) as int]),
    decreases s.len(),
{
    if s.len() > 0 && p(s[0]) {
        lemma_lead_stops(s.drop_first(), p);
        if lead_count(s, p) < s.len() {
            assert(s.drop_first()[lead_count(s.drop_first(), p) as int] == s[lead_count(s, p) as int]);
        }
    }
}

proof fn lemma_trail_bound(s: Seq<char>, p: spec_fn(char) -> bool)
    ensures
        trail_count(s, p) <= s.len(),
    decreases s.len(),
{
    if s.len() > 0 && p(s.last()) {
        lemma_trail_bound(s.drop_last(), p);
    }
}

/// Trimming keeps safe characters safe, and its first character is not one
/// of those trimmed.
proof fn lemma_trim_safe(s: Seq<char>, p: spec_fn(char) -> bool)
    requires
        all_safe(s),
    ensures
        all_safe(trim_by(s, p)),
        trim_by(s, p).len() > 0 ==> !p(trim_by(s, p)[0]),
{
    lemma_lead_stops(s, p);
    lemma_trail_bound(s, p);
    let a = lead_count(s, p);
    let t = trim_by(s, p);
    if a < s.len() {
        lemma_trail_not_past_lead(s, p);
        assert(t == s.subrange(a as int, s.len() - trail_count(s, p)));
        assert forall|i: int| 0 <= i < t.len() implies is_safe_char(#[trigger] t[i]) by {
            assert(t[i] == s[a + i]);
        }
        assert(t[0] == s[a as int]);
    }
}

proof fn lemma_trail_not_past_lead(s: Seq<char>, p: spec_fn(char) -> bool)
    requires
        lead_count(s, p) < s.len(),
    ensures
        lead_count(s, p) + trail_count(s, p) < s.len(),
    decreases s.len(),
{
    lemma_lead_stops(s, p);
    let a = lead_count(s, p);
    if p(s.last()) {
        let d = s.drop_last();
        assert(a < s.len() - 1) by {
            if a == s.len() - 1 {
                assert(!p(s[a as int]));
            }
        }
        lemma_lead_prefix(s, p);
        lemma_trail_not_past_lead(d, p);
    }
}

/// Dropping the last character keeps the leading count while it stays short.
proof fn lemma_lead_prefix(s: Seq<char>, p: spec_fn(char) -> bool)
    requires
        s.len() > 0,
        lead_count(s, p) < s.len() - 1,
    ensures
        lead_count(s.drop_last(), p) == lead_count(s, p),
    decreases s.len(),
{
    if p(s[0]) {
        let t = s.drop_first();
        assert(t.drop_last() =~= s.drop_last().drop_first());
        lemma_lead_prefix(t, p);
    }
}

/// A sanitized name is a safe single directory name: none of its characters
/// is a path separator, another forbidden character or a control character,
/// it does not start with a dot (so it is neither `.` nor `..`), and it has
/// at most 100 characters, for any fallback of that kind.
pub proof fn lemma_sanitized_name_is_safe(name: Seq<char>, fallback: Seq<char>)
    requires
        all_safe(fallback),
        0 < fallback.len() <= MAX_NAME_LEN,
        fallback[0] != '.',
    ensures
        all_safe(sanitized_name(name, fallback)),
        sanitized_name(name, fallback).len() <= MAX_NAME_LEN,
        sanitized_name(name, fallback).len() > 0,
        sanitized_name(name, fallback)[0] != '.',
{
    let r1 = replace_chars(name);
    lemma_replace_safe(name);
    let r2 = collapse_dot_pairs(r1);
    lemma_collapse_safe(r1);
    let ws = |c: char| crate::text::is_unicode_whitespace(c);
    let r3 = trim_ws(r2);
    lemma_trim_safe(r2, ws);
    let fill = |c: char| is_edge_filler(c);
    let c = cleaned_name(name);
    lemma_trim_safe(r3, fill);
    let p = if is_reserved_base(c.subrange(0, base_len(c) as int)) {
        seq!['_'] + c
    } else {
        c
    };
    assert(all_safe(p)) by {
        assert forall|i: int| 0 <= i < p.len() implies is_safe_char(#[trigger] p[i]) by {
            if p.len() > c.len() && i > 0 {
                assert(p[i] == c[i - 1]);
            }
        }
    }
    assert(p.len() > 0 ==> p[0] != '.');
    let t = if p.len() > MAX_NAME_LEN {
        p.subrange(0, MAX_NAME_LEN as int)
    } else {
        p
    };
    assert(all_safe(t)) by {
        assert forall|i: int| 0 <= i < t.len() implies is_safe_char(#[trigger] t[i]) by {
            assert(t[i] == p[i]);
        }
    }
    assert(t.len() > 0 ==> t[0] == p[0]);
}

} // verus!
