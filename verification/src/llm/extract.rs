//! Structured extraction: `[mm:ss]` citation markers and action items.
//!
//! The summarizer's prompts preserve `[mm:ss]` timestamp markers inline.
//! This module turns those markers, plus the action-item extraction
//! response, into rows for the citations and action-item tables. A marker
//! that cannot be matched to a real segment is dropped, never force-linked.

use vstd::prelude::*;

use crate::detect::meet_url::starts_with;
use crate::text::{
    back_ws_at, chars_of, copy_range, find_at, find_from, lemma_find_from, push_char,
    split_from, split_on, string_of, string_of_vec, trim, trim_end, trim_end_vec, trim_vec,
};

verus! {

/// Stage-4 prompt: structured action items from the outline.
pub const ACTION_ITEMS_PROMPT: &'static str = "You are a strict data extraction engine. From the meeting outline below, extract every action item: a concrete task somebody committed to do.
Output one line per action item, exactly in this format, with no other text:
* Owner: task description [mm:ss]

Rules:
- Owner is the speaker's name exactly as it appears in the outline. If no owner is stated, write Unassigned.
- Keep the [mm:ss] timestamp of the moment the task was discussed if the outline shows one; omit it if none is shown.
- Do not invent tasks, owners, or timestamps not present in the outline.
- If there are no action items, output exactly: None";

pub open spec fn is_digit(c: char) -> bool {
    '0' <= c && c <= '9'
}

/// A marker field: one to four ASCII digits.
pub open spec fn digit_field(p: Seq<char>) -> bool {
    1 <= p.len() <= 4 && forall|i: int| 0 <= i < p.len() ==> is_digit(#[trigger] p[i])
}

/// The decimal value of a run of ASCII digits.
pub open spec fn digits_value(p: Seq<char>) -> nat
    decreases p.len(),
{
    if p.len() == 0 {
        0
    } else {
        digits_value(p.drop_last()) * 10 + (p.last() as nat - 48) as nat
    }
}

/// The seconds an `mm:ss` or `h:mm:ss` marker body denotes, if it is one:
/// all fields are digit fields, the trailing fields have exactly two
/// digits, and minutes/seconds below the hour field stay under 60.
pub open spec fn marker_seconds(inner: Seq<char>) -> Option<nat> {
    let parts = split_on(inner, ':');
    if parts.len() == 2 && digit_field(parts[0]) && digit_field(parts[1]) && parts[1].len() == 2 {
        let m = digits_value(parts[0]);
        let s = digits_value(parts[1]);
        if s >= 60 {
            None
        } else {
            Some(m * 60 + s)
        }
    } else if parts.len() == 3 && digit_field(parts[0]) && digit_field(parts[1]) && digit_field(
        parts[2],
    ) && parts[1].len() == 2 && parts[2].len() == 2 {
        let h = digits_value(parts[0]);
        let m = digits_value(parts[1]);
        let s = digits_value(parts[2]);
        if m >= 60 || s >= 60 {
            None
        } else {
            Some((h * 60 + m) * 60 + s)
        }
    } else {
        None
    }
}

/// The marker opening at `s[i]` (a `[`): its value in milliseconds and the
/// characters it spans up to and including the first `]`.
pub open spec fn marker_at(s: Seq<char>, i: int) -> Option<(nat, int)> {
    let close = find_from(s, ']', i + 1, s.len() as int);
    if close >= s.len() {
        None
    } else {
        match marker_seconds(s.subrange(i + 1, close)) {
            Some(secs) => Some((secs * 1000, close - i + 1)),
            None => None,
        }
    }
}

pub open spec fn pow10(k: nat) -> nat
    decreases k,
{
    if k == 0 {
        1
    } else {
        10 * pow10((k - 1) as nat)
    }
}

/// The value of `v[lo..hi]` when it is a digit field.
fn digit_field_value(v: &Vec<char>, lo: usize, hi: usize) -> (r: Option<u64>)
    requires
        lo <= hi <= v@.len(),
    ensures
        r is Some <==> digit_field(v@.subrange(lo as int, hi as int)),
        r matches Some(x) ==> x == digits_value(v@.subrange(lo as int, hi as int)) && x < 10000,
{
    let ghost w = v@.subrange(lo as int, hi as int);
    if hi == lo || hi - lo > 4 {
        return None;
    }
    let mut acc: u64 = 0;
    let mut k = lo;
    while k < hi
        invariant
            lo <= k <= hi,
            hi - lo <= 4,
            hi <= v@.len(),
            w == v@.subrange(lo as int, hi as int),
            forall|j: int| 0 <= j < k - lo ==> is_digit(#[trigger] w[j]),
            acc == digits_value(v@.subrange(lo as int, k as int)),
            acc < pow10((k - lo) as nat),
        decreases hi - k,
    {
        let c = v[k];
        if !('0' <= c && c <= '9') {
            assert(!is_digit(w[k - lo]));
            return None;
        }
        let d = (c as u32 - 48) as u64;
        proof {
            let p = pow10((k - lo) as nat);
            assert(pow10((k + 1 - lo) as nat) == 10 * p);
            assert(acc * 10 + d < 10 * p) by (nonlinear_arith)
                requires
                    acc < p,
                    d < 10,
            ;
            assert(p <= 1000) by {
                reveal_with_fuel(pow10, 5);
            }
            assert(v@.subrange(lo as int, k + 1).drop_last() =~= v@.subrange(lo as int, k as int));
        }
        acc = acc * 10 + d;
        k += 1;
    }
    proof {
        assert(pow10((hi - lo) as nat) <= 10000) by {
            reveal_with_fuel(pow10, 5);
        }
    }
    Some(acc)
}

/// Parse the marker opening at `v[i]` (a `[`): milliseconds and the
/// characters consumed including both brackets.
fn parse_marker(v: &Vec<char>, i: usize) -> (r: Option<(u64, usize)>)
    requires
        i < v@.len(),
    ensures
        r is None <==> marker_at(v@, i as int) is None,
        r matches Some((ms, used)) ==> marker_at(v@, i as int) == Some((ms as nat, used as int))
            && 2 <= used <= v@.len() - i,
{
    let n = v.len();
    let close = find_at(v, ']', i + 1, n);
    if close == n {
        return None;
    }
    let inner = copy_range(v, i + 1, close);
    let ghost s = inner@;
    let m = inner.len();
    proof {
        lemma_find_from(s, ':', 0, m as int);
    }
    let c1 = find_at(&inner, ':', 0, m);
    if c1 == m {
        assert(split_on(s, ':') == seq![s.subrange(0, m as int)]);
        return None;
    }
    proof {
        lemma_find_from(s, ':', c1 + 1, m as int);
    }
    let c2 = find_at(&inner, ':', c1 + 1, m);
    let secs: u64;
    if c2 == m {
        assert(split_from(s, ':', c1 + 1) == seq![s.subrange(c1 + 1, m as int)]);
        assert(split_on(s, ':') == seq![s.subrange(0, c1 as int), s.subrange(c1 + 1, m as int)]);
        let mf = digit_field_value(&inner, 0, c1);
        let sf = digit_field_value(&inner, c1 + 1, m);
        match (mf, sf) {
            (Some(mv), Some(sv)) => {
                if m - (c1 + 1) != 2 || sv >= 60 {
                    return None;
                }
                secs = mv * 60 + sv;
            },
            _ => {
                return None;
            },
        }
    } else {
        proof {
            lemma_find_from(s, ':', c2 + 1, m as int);
        }
        let c3 = find_at(&inner, ':', c2 + 1, m);
        if c3 < m {
            proof {
                lemma_find_from(s, ':', c3 + 1, m as int);
                let rest = split_from(s, ':', c3 + 1);
                assert(rest.len() >= 1);
                assert(split_from(s, ':', c2 + 1).len() >= 2);
                assert(split_from(s, ':', c1 + 1).len() >= 3);
                assert(split_on(s, ':').len() >= 4);
            }
            return None;
        }
        assert(split_from(s, ':', c2 + 1) == seq![s.subrange(c2 + 1, m as int)]);
        assert(split_from(s, ':', c1 + 1) == seq![
            s.subrange(c1 + 1, c2 as int),
            s.subrange(c2 + 1, m as int),
        ]);
        assert(split_on(s, ':') == seq![
            s.subrange(0, c1 as int),
            s.subrange(c1 + 1, c2 as int),
            s.subrange(c2 + 1, m as int),
        ]);
        let hf = digit_field_value(&inner, 0, c1);
        let mf = digit_field_value(&inner, c1 + 1, c2);
        let sf = digit_field_value(&inner, c2 + 1, m);
        match (hf, mf, sf) {
            (Some(hv), Some(mv), Some(sv)) => {
                if c2 - (c1 + 1) != 2 || m - (c2 + 1) != 2 || mv >= 60 || sv >= 60 {
                    return None;
                }
                secs = (hv * 60 + mv) * 60 + sv;
            },
            _ => {
                return None;
            },
        }
    }
    assert(s == v@.subrange(i + 1, close as int));
    Some((secs * 1000, close - i + 1))
}

pub proof fn lemma_marker_used(s: Seq<char>, i: int)
    requires
        0 <= i < s.len(),
        marker_at(s, i) is Some,
    ensures
        2 <= marker_at(s, i).unwrap().1 <= s.len() - i,
{
    lemma_find_from(s, ']', i + 1, s.len() as int);
}

/// The distinct marker values of `s[i..]`, in order of first appearance,
/// appended to `out` (a marker's text is skipped once read).
pub open spec fn scan_markers(s: Seq<char>, i: int, out: Seq<u64>) -> Seq<u64>
    decreases s.len() - i,
{
    if 0 <= i < s.len() {
        if s[i] == '[' && marker_at(s, i) is Some {
            proof {
                lemma_marker_used(s, i);
            }
            let (ms, used) = marker_at(s, i).unwrap();
            let next = if out.contains(ms as u64) {
                out
            } else {
                out.push(ms as u64)
            };
            scan_markers(s, i + used, next)
        } else {
            scan_markers(s, i + 1, out)
        }
    } else {
        out
    }
}

/// The `[mm:ss]` / `[h:mm:ss]` markers of `text`, in milliseconds, each
/// value once, in order of first appearance.
pub open spec fn timestamps_of(text: Seq<char>) -> Seq<u64> {
    scan_markers(text, 0, seq![])
}

/// Whether `v` holds `x`.
fn vec_contains(v: &Vec<u64>, x: u64) -> (r: bool)
    ensures
        r == v@.contains(x),
{
    let mut k: usize = 0;
    while k < v.len()
        invariant
            k <= v@.len(),
            forall|j: int| 0 <= j < k ==> v@[j] != x,
        decreases v@.len() - k,
    {
        if v[k] == x {
            assert(v@[k as int] == x);
            return true;
        }
        k += 1;
    }
    false
}

/// The `[mm:ss]` / `[h:mm:ss]` markers found in summary text, as
/// milliseconds from recording start, each value once in order of first
/// appearance. Minutes are unbounded (1-4 digits); `h:mm:ss` is accepted
/// too.
pub fn parse_timestamps(text: &str) -> (out: Vec<u64>)
    ensures
        out@ == timestamps_of(text@),
{
    let v = chars_of(text);
    let mut out: Vec<u64> = Vec::new();
    let mut i: usize = 0;
    while i < v.len()
        invariant
            i <= v@.len(),
            v@ == text@,
            scan_markers(v@, i as int, out@) == timestamps_of(text@),
        decreases v@.len() - i,
    {
        if v[i] == '[' {
            match parse_marker(&v, i) {
                Some((ms, used)) => {
                    let ghost before = out@;
                    if !vec_contains(&out, ms) {
                        out.push(ms);
                    }
                    proof {
                        lemma_marker_used(v@, i as int);
                    }
                    i += used;
                    continue;
                },
                None => {},
            }
        }
        i += 1;
    }
    out
}

/// No marker value is listed twice.
pub proof fn lemma_timestamps_distinct(text: Seq<char>)
    ensures
        timestamps_of(text).no_duplicates(),
{
    lemma_scan_distinct(text, 0, seq![]);
}

proof fn lemma_scan_distinct(s: Seq<char>, i: int, out: Seq<u64>)
    requires
        out.no_duplicates(),
    ensures
        scan_markers(s, i, out).no_duplicates(),
    decreases s.len() - i,
{
    if 0 <= i < s.len() {
        if s[i] == '[' && marker_at(s, i) is Some {
            lemma_marker_used(s, i);
            let (ms, used) = marker_at(s, i).unwrap();
            if !out.contains(ms as u64) {
                let q = out.push(ms as u64);
                assert(q.no_duplicates()) by {
                    assert forall|a: int, b: int| 0 <= a < q.len() && 0 <= b < q.len() && a != b implies #[trigger] q[a] != #[trigger] q[b] by {
                        if b == out.len() {
                            assert(out[a] != ms as u64);
                        } else if a == out.len() {
                            assert(out[b] != ms as u64);
                        }
                    }
                }
                lemma_scan_distinct(s, i + used, out.push(ms as u64));
            } else {
                lemma_scan_distinct(s, i + used, out);
            }
        } else {
            lemma_scan_distinct(s, i + 1, out);
        }
    }
}

/// Minimal segment view for marker resolution.
#[derive(Debug, Clone, PartialEq, Eq)]
pub struct SegmentSpan {
    /// The segment's row id.
    pub id: i64,
    pub start_ms: u64,
    pub end_ms: u64,
}

/// How far (ms) a marker may fall from the nearest segment start and still
/// snap to it.
pub const RESOLVE_TOLERANCE_MS: u64 = 10_000;

pub open spec fn span_contains(s: SegmentSpan, ms: u64) -> bool {
    s.start_ms <= ms && ms <= s.end_ms
}

/// Distance from a marker to a segment's start.
pub open spec fn start_distance(s: SegmentSpan, ms: u64) -> nat {
    if s.start_ms > ms {
        (s.start_ms - ms) as nat
    } else {
        (ms - s.start_ms) as nat
    }
}

/// Index of the first segment at or after `k` that contains `ms` (or the end).
pub open spec fn first_containing(segs: Seq<SegmentSpan>, ms: u64, k: int) -> int
    decreases segs.len() - k,
{
    if 0 <= k < segs.len() && !span_contains(segs[k], ms) {
        first_containing(segs, ms, k + 1)
    } else {
        k
    }
}

/// Orders segments by (start distance, id).
pub open spec fn closer(a: SegmentSpan, b: SegmentSpan, ms: u64) -> bool {
    start_distance(a, ms) < start_distance(b, ms) || (start_distance(a, ms) == start_distance(
        b,
        ms,
    ) && a.id < b.id)
}

/// Index of the first segment, among the first `k`, that is smallest by
/// (start distance, id).
pub open spec fn nearest_upto(segs: Seq<SegmentSpan>, ms: u64, k: int) -> int
    decreases k,
{
    if k <= 1 {
        0
    } else {
        let b = nearest_upto(segs, ms, k - 1);
        if closer(segs[k - 1], segs[b], ms) {
            k - 1
        } else {
            b
        }
    }
}

/// The segment a marker at `ms` resolves to: the first segment containing
/// it, else the segment whose start is nearest if within tolerance.
pub open spec fn resolution(ms: u64, segs: Seq<SegmentSpan>) -> Option<i64> {
    let c = first_containing(segs, ms, 0);
    if c < segs.len() {
        Some(segs[c].id)
    } else if segs.len() == 0 {
        None
    } else {
        let b = nearest_upto(segs, ms, segs.len() as int);
        if start_distance(segs[b], ms) <= RESOLVE_TOLERANCE_MS {
            Some(segs[b].id)
        } else {
            None
        }
    }
}

/// Resolve a marker to the segment it points into: the segment containing
/// the timestamp, else the nearest segment start within
/// [`RESOLVE_TOLERANCE_MS`], else `None`.
pub fn resolve_segment(ms: u64, segments: &[SegmentSpan]) -> (r: Option<i64>)
    ensures
        r == resolution(ms, segments@),
{
    let n = segments.len();
    let mut c: usize = 0;
    while c < n && !(segments[c].start_ms <= ms && ms <= segments[c].end_ms)
        invariant
            c <= n,
            n == segments@.len(),
            first_containing(segments@, ms, c as int) == first_containing(segments@, ms, 0),
        decreases n - c,
    {
        c += 1;
    }
    if c < n {
        return Some(segments[c].id);
    }
    if n == 0 {
        return None;
    }
    let mut best: usize = 0;
    let mut best_d: u64 = distance(&segments[0], ms);
    let mut k: usize = 1;
    while k < n
        invariant
            1 <= k <= n,
            n == segments@.len(),
            best == nearest_upto(segments@, ms, k as int),
            best < k,
            best_d == start_distance(segments@[best as int], ms),
        decreases n - k,
    {
        let d = distance(&segments[k], ms);
        if d < best_d || (d == best_d && segments[k].id < segments[best].id) {
            best = k;
            best_d = d;
        }
        k += 1;
    }
    if best_d <= RESOLVE_TOLERANCE_MS {
        Some(segments[best].id)
    } else {
        None
    }
}

fn distance(s: &SegmentSpan, ms: u64) -> (d: u64)
    ensures
        d == start_distance(*s, ms),
{
    if s.start_ms > ms {
        s.start_ms - ms
    } else {
        ms - s.start_ms
    }
}

/// The nearest-start choice is no farther than any segment.
pub proof fn lemma_nearest_is_nearest(segs: Seq<SegmentSpan>, ms: u64, k: int, j: int)
    requires
        0 <= j < k <= segs.len(),
    ensures
        0 <= nearest_upto(segs, ms, k) < k,
        start_distance(segs[nearest_upto(segs, ms, k)], ms) <= start_distance(segs[j], ms),
    decreases k,
{
    if k > 1 {
        if j < k - 1 {
            lemma_nearest_is_nearest(segs, ms, k - 1, j);
        } else {
            lemma_nearest_is_nearest(segs, ms, k - 1, 0);
        }
    }
}

/// A resolved marker names a real segment: the first one containing it, or
/// (when none does) one whose start is nearest and within tolerance.
pub proof fn lemma_resolution_sound(ms: u64, segs: Seq<SegmentSpan>)
    ensures
        resolution(ms, segs) matches Some(id) ==> exists|i: int|
            0 <= i < segs.len() && (#[trigger] segs[i]).id == id && (span_contains(segs[i], ms) || (
            start_distance(segs[i], ms) <= RESOLVE_TOLERANCE_MS && forall|j: int|
                0 <= j < segs.len() ==> start_distance(segs[i], ms) <= #[trigger] start_distance(
                    segs[j],
                    ms,
                ))),
{
    lemma_first_containing(segs, ms, 0);
    let c = first_containing(segs, ms, 0);
    if c >= segs.len() && segs.len() > 0 {
        let b = nearest_upto(segs, ms, segs.len() as int);
        lemma_nearest_is_nearest(segs, ms, segs.len() as int, 0);
        assert forall|j: int| 0 <= j < segs.len() implies start_distance(segs[b], ms)
            <= #[trigger] start_distance(segs[j], ms) by {
            lemma_nearest_is_nearest(segs, ms, segs.len() as int, j);
        }
        if resolution(ms, segs) is Some {
            assert(segs[b].id == resolution(ms, segs).unwrap());
        }
    } else if c < segs.len() {
        assert(segs[c].id == resolution(ms, segs).unwrap());
    }
}

proof fn lemma_first_containing(segs: Seq<SegmentSpan>, ms: u64, k: int)
    requires
        0 <= k <= segs.len(),
    ensures
        k <= first_containing(segs, ms, k) <= segs.len(),
        first_containing(segs, ms, k) < segs.len() ==> span_contains(
            segs[first_containing(segs, ms, k)],
            ms,
        ),
    decreases segs.len() - k,
{
    if k < segs.len() && !span_contains(segs[k], ms) {
        lemma_first_containing(segs, ms, k + 1);
    }
}

/// The citation quote for a segment's text: the text itself when it has at
/// most 240 characters, else its first 240 characters with trailing
/// whitespace removed, followed by an ellipsis.
pub open spec fn snippet(text: Seq<char>) -> Seq<char> {
    if text.len() <= 240 {
        text
    } else {
        trim_end(text.subrange(0, 240)).push('…')
    }
}

/// Citation quote: the cited segment's words, bounded so a monologue
/// segment doesn't bloat the citations table (truncated on characters).
pub fn quote_snippet(text: &str) -> (r: String)
    ensures
        r@ == snippet(text@),
        r@.len() <= 241,
{
    let v = chars_of(text);
    if v.len() <= 240 {
        return string_of(&v, 0, v.len());
    }
    let cut = copy_range(&v, 0, 240);
    let end = back_ws_at(&cut, 0, 240);
    let mut r = string_of(&cut, 0, end);
    push_char(&mut r, '…');
    proof {
        assert(v@.subrange(0, v@.len() as int) == v@);
    }
    r
}

/// One parsed action item from the extraction response.
#[derive(Debug, Clone, PartialEq, Eq)]
pub struct ActionItem {
    /// Owner name as written; `None` when the model wrote "Unassigned".
    pub owner: Option<String>,
    pub text: String,
    /// Timestamp of the moment, if the model kept one.
    pub ts_ms: Option<u64>,
}

/// The abstract content of an action item: owner, text, timestamp.
pub open spec fn item_view(a: ActionItem) -> (Option<Seq<char>>, Seq<char>, Option<u64>) {
    (
        match a.owner {
            Some(o) => Some(o@),
            None => None,
        },
        a.text@,
        a.ts_ms,
    )
}

pub open spec fn is_bracket(c: char) -> bool {
    c == '[' || c == ']'
}

pub open spec fn skip_brackets(s: Seq<char>, i: int) -> int
    decreases s.len() - i,
{
    if 0 <= i < s.len() && is_bracket(s[i]) {
        skip_brackets(s, i + 1)
    } else {
        i
    }
}

pub open spec fn back_brackets(s: Seq<char>, lo: int, j: int) -> int
    decreases j - lo,
{
    if lo < j && j <= s.len() && is_bracket(s[j - 1]) {
        back_brackets(s, lo, j - 1)
    } else {
        j
    }
}

/// `trim_matches` for `[` and `]`: all leading and trailing brackets removed.
pub open spec fn trim_brackets(s: Seq<char>) -> Seq<char> {
    let a = skip_brackets(s, 0);
    s.subrange(a, back_brackets(s, a, s.len() as int))
}

fn trim_brackets_vec(v: &Vec<char>) -> (r: Vec<char>)
    ensures
        r@ == trim_brackets(v@),
{
    let n = v.len();
    let mut a: usize = 0;
    while a < n && (v[a] == '[' || v[a] == ']')
        invariant
            a <= n,
            n == v@.len(),
            skip_brackets(v@, a as int) == skip_brackets(v@, 0),
        decreases n - a,
    {
        a += 1;
    }
    let mut b: usize = n;
    while b > a && (v[b - 1] == '[' || v[b - 1] == ']')
        invariant
            a <= b <= n,
            n == v@.len(),
            back_brackets(v@, a as int, b as int) == back_brackets(v@, a as int, n as int),
        decreases b,
    {
        b -= 1;
    }
    copy_range(v, a, b)
}

/// Index of the last `c` in `s[..j]`, or -1.
pub open spec fn rfind_before(s: Seq<char>, c: char, j: int) -> int
    decreases j,
{
    if j <= 0 {
        -1
    } else if s[j - 1] == c {
        j - 1
    } else {
        rfind_before(s, c, j - 1)
    }
}

pub open spec fn ascii_lower(c: char) -> char {
    if 'A' <= c && c <= 'Z' {
        ((c as u32) + 32) as char
    } else {
        c
    }
}

/// `eq_ignore_ascii_case`.
pub open spec fn eq_ignore_ascii_case(a: Seq<char>, b: Seq<char>) -> bool {
    a.len() == b.len() && forall|i: int| 0 <= i < a.len() ==> ascii_lower(#[trigger] a[i])
        == ascii_lower(b[i])
}

/// The bullet-stripped remainder of a trimmed line: `* `, `- ` or `• `.
pub open spec fn strip_bullet(line: Seq<char>) -> Option<Seq<char>> {
    if starts_with(line, seq!['*', ' ']) || starts_with(line, seq!['-', ' ']) || starts_with(
        line,
        seq!['•', ' '],
    ) {
        Some(line.subrange(2, line.len() as int))
    } else {
        None
    }
}

/// The task text with a marker removed when it ends the text exactly.
pub open spec fn strip_trailing_marker(text: Seq<char>) -> Seq<char> {
    let open = rfind_before(text, '[', text.len() as int);
    if open >= 0 && marker_at(text, open) is Some && open + marker_at(text, open).unwrap().1
        == text.len() {
        trim_end(text.subrange(0, open))
    } else {
        text
    }
}

/// The action item one response line describes, if any: a bulleted
/// `Owner: task [mm:ss]` line with a non-empty owner (brackets around it
/// tolerated) and a non-empty task. The last marker in the task gives the
/// timestamp; only a marker that ends the task is stripped from its text.
pub open spec fn item_of_line(raw: Seq<char>) -> Option<(Option<Seq<char>>, Seq<char>, Option<u64>)> {
    match strip_bullet(trim(raw)) {
        None => None,
        Some(rest) => {
            let c = find_from(rest, ':', 0, rest.len() as int);
            let owner = trim(trim_brackets(trim(rest.subrange(0, c))));
            let text = trim(rest.subrange(c + 1, rest.len() as int));
            let ts = timestamps_of(text);
            let shown = strip_trailing_marker(text);
            if c >= rest.len() || owner.len() == 0 || text.len() == 0 || shown.len() == 0 {
                None
            } else {
                Some(
                    (
                        if eq_ignore_ascii_case(owner, "unassigned"@) {
                            None
                        } else {
                            Some(owner)
                        },
                        shown,
                        if ts.len() > 0 {
                            Some(ts.last())
                        } else {
                            None
                        },
                    ),
                )
            }
        },
    }
}

/// The items of a sequence of lines, in order.
pub open spec fn items_of_lines(lines: Seq<Seq<char>>) -> Seq<(Option<Seq<char>>, Seq<char>, Option<u64>)>
    decreases lines.len(),
{
    if lines.len() == 0 {
        seq![]
    } else {
        match item_of_line(lines[0]) {
            Some(it) => seq![it] + items_of_lines(lines.drop_first()),
            None => items_of_lines(lines.drop_first()),
        }
    }
}

/// The action items of a response: one per qualifying line, in order.
pub open spec fn action_items_of(response: Seq<char>) -> Seq<(Option<Seq<char>>, Seq<char>, Option<u64>)> {
    items_of_lines(split_on(response, '\n'))
}

fn eq_ignore_case_vec(a: &Vec<char>, b: &Vec<char>) -> (r: bool)
    ensures
        r == eq_ignore_ascii_case(a@, b@),
{
    if a.len() != b.len() {
        return false;
    }
    let mut k: usize = 0;
    while k < a.len()
        invariant
            k <= a@.len(),
            a@.len() == b@.len(),
            forall|j: int| 0 <= j < k ==> ascii_lower(#[trigger] a@[j]) == ascii_lower(b@[j]),
        decreases a@.len() - k,
    {
        if lower(a[k]) != lower(b[k]) {
            return false;
        }
        k += 1;
    }
    true
}

fn lower(c: char) -> (r: char)
    ensures
        r == ascii_lower(c),
{
    if 'A' <= c && c <= 'Z' {
        let u = (c as u32) + 32;
        // An ASCII letter lowered is still ASCII.
        let b = u as u8;
        assert(b as u32 == u);
        let r = b as char;
        assert(r == ((c as u32) + 32) as char);
        r
    } else {
        c
    }
}

fn parse_item_line(line: &Vec<char>) -> (r: Option<ActionItem>)
    ensures
        match r {
            Some(a) => item_of_line(line@) == Some(item_view(a)),
            None => item_of_line(line@) is None,
        },
{
    let t = trim_vec(line);
    let n = t.len();
    if n < 2 || !((t[0] == '*' || t[0] == '-' || t[0] == '•') && t[1] == ' ') {
        proof {
            if n >= 2 {
                assert(t@.subrange(0, 2)[0] == t@[0] && t@.subrange(0, 2)[1] == t@[1]);
            }
        }
        return None;
    }
    assert(strip_bullet(t@) == Some(t@.subrange(2, n as int))) by {
        assert(t@.subrange(0, 2) =~= seq![t@[0], t@[1]]);
    }
    let rest = copy_range(&t, 2, n);
    let m = rest.len();
    let c = find_at(&rest, ':', 0, m);
    if c == m {
        return None;
    }
    let owner_part = copy_range(&rest, 0, c);
    let o1 = trim_vec(&owner_part);
    let o2 = trim_brackets_vec(&o1);
    let owner = trim_vec(&o2);
    if owner.len() == 0 {
        return None;
    }
    let task_part = copy_range(&rest, c + 1, m);
    let text = trim_vec(&task_part);
    if text.len() == 0 {
        return None;
    }
    let text_s = string_of_vec(&text);
    let ts_list = parse_timestamps(text_s.as_str());
    let ts_ms = if ts_list.len() > 0 {
        Some(ts_list[ts_list.len() - 1])
    } else {
        None
    };
    // Strip only a marker that ends the text exactly.
    let tl = text.len();
    let mut open: usize = tl;
    let mut found = false;
    while open > 0 && !found
        invariant
            open <= tl,
            tl == text@.len(),
            found ==> open < tl && text@[open as int] == '[' && rfind_before(text@, '[', tl as int)
                == open,
            !found ==> rfind_before(text@, '[', open as int) == rfind_before(
                text@,
                '[',
                tl as int,
            ),
        decreases open + (if found { 0int } else { 1int }),
    {
        if text[open - 1] == '[' {
            found = true;
        }
        open -= 1;
    }
    let shown = if found {
        match parse_marker(&text, open) {
            Some((_, used)) => {
                if open + used == tl {
                    let head = copy_range(&text, 0, open);
                    trim_end_vec(&head)
                } else {
                    copy_range(&text, 0, tl)
                }
            },
            None => copy_range(&text, 0, tl),
        }
    } else {
        copy_range(&text, 0, tl)
    };
    assert(text@.subrange(0, tl as int) == text@);
    if shown.len() == 0 {
        return None;
    }
    let unassigned = chars_of("unassigned");
    let owner_out = if eq_ignore_case_vec(&owner, &unassigned) {
        None
    } else {
        Some(string_of_vec(&owner))
    };
    let item = ActionItem { owner: owner_out, text: string_of_vec(&shown), ts_ms };
    Some(item)
}

/// Parse the strict stage-4 line format. Tolerant of the bullet variants
/// models produce (`*`, `-`, `•`), of "None" responses, and of stray prose
/// lines (skipped). Never errors; worst case is an empty list.
pub fn parse_action_items(response: &str) -> (items: Vec<ActionItem>)
    ensures
        items@.map_values(|a: ActionItem| item_view(a)) == action_items_of(response@),
{
    let v = chars_of(response);
    let n = v.len();
    let mut items: Vec<ActionItem> = Vec::new();
    let mut i: usize = 0;
    loop
        invariant
            i <= n,
            n == v@.len(),
            v@ == response@,
            items@.map_values(|a: ActionItem| item_view(a)) + items_of_lines(
                split_from(v@, '\n', i as int),
            ) == action_items_of(response@),
        decreases n - i,
    {
        let j = find_at(&v, '\n', i, n);
        let line = copy_range(&v, i, j);
        let ghost before = items@;
        let ghost pieces = split_from(v@, '\n', i as int);
        proof {
            lemma_find_from(v@, '\n', i as int, n as int);
            if j < n {
                assert(pieces == seq![v@.subrange(i as int, j as int)] + split_from(
                    v@,
                    '\n',
                    j + 1,
                ));
                assert(pieces.drop_first() == split_from(v@, '\n', j + 1));
            } else {
                assert(pieces == seq![v@.subrange(i as int, n as int)]);
                assert(pieces.drop_first() == Seq::<Seq<char>>::empty());
            }
            assert(pieces[0] == line@);
        }
        match parse_item_line(&line) {
            Some(item) => {
                items.push(item);
                proof {
                    assert(items@.map_values(|a: ActionItem| item_view(a)) =~= before.map_values(
                        |a: ActionItem| item_view(a),
                    ).push(item_view(items@.last())));
                }
            },
            None => {},
        }
        if j == n {
            proof {
                assert(items_of_lines(Seq::<Seq<char>>::empty()) == Seq::<
                    (Option<Seq<char>>, Seq<char>, Option<u64>),
                >::empty());
            }
            return items;
        }
        i = j + 1;
    }
}

} // verus!

verus! {

/// Ties between equally near starts go to the segment with the smaller id.
pub proof fn lemma_nearest_tie_smallest_id(segs: Seq<SegmentSpan>, ms: u64, k: int, j: int)
    requires
        0 <= j < k <= segs.len(),
        start_distance(segs[nearest_upto(segs, ms, k)], ms) == start_distance(segs[j], ms),
    ensures
        segs[nearest_upto(segs, ms, k)].id <= segs[j].id,
    decreases k,
{
    lemma_nearest_is_nearest(segs, ms, k, j);
    if k > 1 {
        let b = nearest_upto(segs, ms, k - 1);
        lemma_nearest_is_nearest(segs, ms, k - 1, 0);
        if j < k - 1 {
            lemma_nearest_is_nearest(segs, ms, k - 1, j);
            if closer(segs[k - 1], segs[b], ms) {
                if start_distance(segs[b], ms) == start_distance(segs[j], ms) {
                    lemma_nearest_tie_smallest_id(segs, ms, k - 1, j);
                }
            } else {
                lemma_nearest_tie_smallest_id(segs, ms, k - 1, j);
            }
        }
    }
}

/// A marker value comes from a well-formed marker of `s`.
pub open spec fn from_marker(s: Seq<char>, x: u64) -> bool {
    exists|j: int|
        0 <= j < s.len() && s[j] == '[' && #[trigger] marker_at(s, j) is Some && marker_at(
            s,
            j,
        ).unwrap().0 as u64 == x
}

proof fn lemma_scan_from_markers(s: Seq<char>, i: int, out: Seq<u64>)
    requires
        forall|k: int| 0 <= k < out.len() ==> from_marker(s, #[trigger] out[k]),
    ensures
        forall|k: int|
            0 <= k < scan_markers(s, i, out).len() ==> from_marker(
                s,
                #[trigger] scan_markers(s, i, out)[k],
            ),
    decreases s.len() - i,
{
    if 0 <= i < s.len() {
        if s[i] == '[' && marker_at(s, i) is Some {
            lemma_marker_used(s, i);
            let (ms, used) = marker_at(s, i).unwrap();
            let next = if out.contains(ms as u64) {
                out
            } else {
                out.push(ms as u64)
            };
            assert forall|k: int| 0 <= k < next.len() implies from_marker(s, #[trigger] next[k]) by {
                if k == out.len() {
                    assert(marker_at(s, i) is Some);
                } else {
                    assert(next[k] == out[k]);
                }
            }
            lemma_scan_from_markers(s, i + used, next);
            assert(scan_markers(s, i, out) == scan_markers(s, i + used, next));
        } else {
            lemma_scan_from_markers(s, i + 1, out);
            assert(scan_markers(s, i, out) == scan_markers(s, i + 1, out));
        }
    } else {
        assert(scan_markers(s, i, out) == out);
    }
}

/// Every listed timestamp is the value of a well-formed `[mm:ss]` or
/// `[h:mm:ss]` marker that occurs in the text.
pub proof fn lemma_timestamps_from_markers(text: Seq<char>)
    ensures
        forall|k: int|
            0 <= k < timestamps_of(text).len() ==> from_marker(
                text,
                #[trigger] timestamps_of(text)[k],
            ),
{
    lemma_scan_from_markers(text, 0, seq![]);
}

} // verus!

verus! {

/// A well-formed action item: non-empty text, and an owner that, when
/// named, is non-empty and not "Unassigned" (any case).
pub open spec fn item_well_formed(it: (Option<Seq<char>>, Seq<char>, Option<u64>)) -> bool {
    &&& it.1.len() > 0
    &&& it.0 matches Some(o) ==> o.len() > 0 && !eq_ignore_ascii_case(o, "unassigned"@)
}

/// Every parsed item is well formed, and no line yields more than one.
pub proof fn lemma_items_well_formed(lines: Seq<Seq<char>>)
    ensures
        items_of_lines(lines).len() <= lines.len(),
        forall|k: int|
            0 <= k < items_of_lines(lines).len() ==> item_well_formed(
                #[trigger] items_of_lines(lines)[k],
            ),
    decreases lines.len(),
{
    if lines.len() > 0 {
        lemma_items_well_formed(lines.drop_first());
        let rest = items_of_lines(lines.drop_first());
        match item_of_line(lines[0]) {
            Some(it) => {
                let all = seq![it] + rest;
                assert(item_well_formed(it));
                assert forall|k: int| 0 <= k < all.len() implies item_well_formed(#[trigger] all[k]) by {
                    if k > 0 {
                        assert(all[k] == rest[k - 1]);
                    }
                }
            },
            None => {},
        }
    }
}

} // verus!

verus! {

/// A marker inside a segment resolves to the first segment containing it,
/// wherever that segment stands in the list (the last one included).
pub proof fn lemma_resolution_complete(ms: u64, segs: Seq<SegmentSpan>, i: int)
    requires
        0 <= i < segs.len(),
        segs[i].start_ms <= ms <= segs[i].end_ms,
        forall|j: int| 0 <= j < i ==> !((#[trigger] segs[j]).start_ms <= ms <= segs[j].end_ms),
    ensures
        resolution(ms, segs) == Some(segs[i].id),
{
    lemma_first_containing_is(segs, ms, 0, i);
}

proof fn lemma_first_containing_is(segs: Seq<SegmentSpan>, ms: u64, k: int, i: int)
    requires
        0 <= k <= i < segs.len(),
        span_contains(segs[i], ms),
        forall|j: int| k <= j < i ==> !span_contains(#[trigger] segs[j], ms),
    ensures
        first_containing(segs, ms, k) == i,
    decreases i - k,
{
    if k < i {
        lemma_first_containing_is(segs, ms, k + 1, i);
    }
}

} // verus!

verus! {

/// A marker that no segment contains is dropped exactly when every
/// segment starts more than the tolerance away from it.
pub proof fn lemma_resolution_drops_far_markers(ms: u64, segs: Seq<SegmentSpan>)
    requires
        forall|j: int| 0 <= j < segs.len() ==> !span_contains(#[trigger] segs[j], ms),
    ensures
        resolution(ms, segs) is None <==> forall|j: int|
            0 <= j < segs.len() ==> #[trigger] start_distance(segs[j], ms) > RESOLVE_TOLERANCE_MS,
{
    lemma_first_containing(segs, ms, 0);
    if segs.len() > 0 {
        let b = nearest_upto(segs, ms, segs.len() as int);
        lemma_nearest_is_nearest(segs, ms, segs.len() as int, 0);
        assert forall|j: int| 0 <= j < segs.len() implies start_distance(segs[b], ms)
            <= #[trigger] start_distance(segs[j], ms) by {
            lemma_nearest_is_nearest(segs, ms, segs.len() as int, j);
        }
    }
}

} // verus!
