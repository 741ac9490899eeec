//! Google Meet URL classification.
//!
//! A browser tab counts as a meeting only for `meet.google.com/<code>` URLs
//! (codes look like `abc-defg-hij`) or `lookup/<alias>` paths. The bare
//! landing page (`meet.google.com`) must not match.

use vstd::prelude::*;

use crate::text::{back_ws_at, chars_of, skip_ws_at, trim};

verus! {

pub open spec fn starts_with(s: Seq<char>, p: Seq<char>) -> bool {
    p.len() <= s.len() && s.subrange(0, p.len() as int) == p
}

pub open spec fn is_ascii_alpha(c: char) -> bool {
    ('a' <= c && c <= 'z') || ('A' <= c && c <= 'Z')
}

/// A Meet meeting code: three dash-separated groups of 3, 4 and 3 ASCII
/// letters (`abc-defg-hij`).
pub open spec fn is_meeting_code(p: Seq<char>) -> bool {
    &&& p.len() == 12
    &&& p[3] == '-'
    &&& p[8] == '-'
    &&& forall|i: int| 0 <= i < 12 && i != 3 && i != 8 ==> is_ascii_alpha(#[trigger] p[i])
}

/// Index of the first `?` or `#` at or after `i` (or the end).
pub open spec fn first_query(s: Seq<char>, i: int) -> int
    decreases s.len() - i,
{
    if 0 <= i < s.len() && s[i] != '?' && s[i] != '#' {
        first_query(s, i + 1)
    } else {
        i
    }
}

/// The path of a URL remainder: everything before the query or fragment.
pub open spec fn path_of(rest: Seq<char>) -> Seq<char> {
    rest.subrange(0, first_query(rest, 0))
}

/// The path of a `meet.google.com` URL (surrounding whitespace ignored), or
/// `None` for any other URL.
pub open spec fn meet_path(url: Seq<char>) -> Option<Seq<char>> {
    let t = trim(url);
    let https = "https://meet.google.com/"@;
    let http = "http://meet.google.com/"@;
    if starts_with(t, https) {
        Some(path_of(t.subrange(https.len() as int, t.len() as int)))
    } else if starts_with(t, http) {
        Some(path_of(t.subrange(http.len() as int, t.len() as int)))
    } else {
        None
    }
}

/// Whether `url` is a Meet meeting URL (a meeting code or a `lookup/` alias).
pub open spec fn is_meeting_url(url: Seq<char>) -> bool {
    match meet_path(url) {
        Some(p) => is_meeting_code(p) || starts_with(p, "lookup/"@),
        None => false,
    }
}

/// Whether `v[lo..hi]` starts with `p`.
fn window_starts_with(v: &Vec<char>, lo: usize, hi: usize, p: &Vec<char>) -> (r: bool)
    requires
        lo <= hi <= v@.len(),
    ensures
        r == starts_with(v@.subrange(lo as int, hi as int), p@),
{
    let ghost w = v@.subrange(lo as int, hi as int);
    if p.len() > hi - lo {
        return false;
    }
    let mut k: usize = 0;
    while k < p.len()
        invariant
            k <= p@.len(),
            p@.len() <= hi - lo,
            lo <= hi <= v@.len(),
            w == v@.subrange(lo as int, hi as int),
            forall|j: int| 0 <= j < k ==> w[j] == p@[j],
        decreases p@.len() - k,
    {
        if v[lo + k] != p[k] {
            assert(w.subrange(0, p@.len() as int)[k as int] != p@[k as int]);
            return false;
        }
        k += 1;
    }
    assert(w.subrange(0, p@.len() as int) =~= p@);
    true
}

/// True for meet.google.com meeting URLs, false for the landing page and
/// every other URL.
pub fn is_meet_meeting_url(url: &str) -> (r: bool)
    ensures
        r == is_meeting_url(url@),
{
    let v = chars_of(url);
    let a = skip_ws_at(&v, 0);
    let b = back_ws_at(&v, a, v.len());
    let ghost t = v@.subrange(a as int, b as int);
    assert(t == trim(url@));
    let https = chars_of("https://meet.google.com/");
    let http = chars_of("http://meet.google.com/");
    let start = if window_starts_with(&v, a, b, &https) {
        a + https.len()
    } else if window_starts_with(&v, a, b, &http) {
        a + http.len()
    } else {
        return false;
    };
    let ghost rest = v@.subrange(start as int, b as int);
    assert(rest == t.subrange((start - a) as int, t.len() as int));
    // The path runs up to the first '?' or '#'.
    let mut e = start;
    while e < b && v[e] != '?' && v[e] != '#'
        invariant
            start <= e <= b,
            b <= v@.len(),
            rest == v@.subrange(start as int, b as int),
            first_query(rest, (e - start) as int) == first_query(rest, 0),
        decreases b - e,
    {
        e += 1;
    }
    let ghost path = v@.subrange(start as int, e as int);
    assert(path =~= path_of(rest));
    let is_code = e - start == 12 && v[start + 3] == '-' && v[start + 8] == '-' && all_alpha_code(
        &v,
        start,
    );
    let lookup = chars_of("lookup/");
    let is_lookup = window_starts_with(&v, start, e, &lookup);
    assert(is_code == is_meeting_code(path)) by {
        if e - start == 12 {
            assert(path == v@.subrange(start as int, start + 12));
        }
    }
    is_code || is_lookup
}

/// Whether every position of the 12-character window at `start`, other
/// than the two dashes, holds an ASCII letter.
fn all_alpha_code(v: &Vec<char>, start: usize) -> (r: bool)
    requires
        start + 12 <= v@.len(),
    ensures
        r == forall|i: int|
            0 <= i < 12 && i != 3 && i != 8 ==> is_ascii_alpha(
                #[trigger] v@.subrange(start as int, start + 12)[i],
            ),
{
    let n = v.len();
    let mut i: usize = 0;
    while i < 12
        invariant
            i <= 12,
            start + 12 <= v@.len(),
            n == v@.len(),
            forall|j: int|
                0 <= j < i && j != 3 && j != 8 ==> is_ascii_alpha(
                    #[trigger] v@.subrange(start as int, start + 12)[j],
                ),
        decreases 12 - i,
    {
        if i != 3 && i != 8 {
            let c = v[start + i];
            if !(('a' <= c && c <= 'z') || ('A' <= c && c <= 'Z')) {
                assert(!is_ascii_alpha(v@.subrange(start as int, start + 12)[i as int]));
                return false;
            }
        }
        i += 1;
    }
    true
}

} // verus!
