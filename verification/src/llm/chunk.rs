//! Transcript chunking for the map stage of summarization: a word budget per
//! chunk plus a turn-overlap carryover, and the plain-text rendering the
//! extraction prompt consumes.

use vstd::prelude::*;

use crate::text::{
    back_ws_at, chars_of, decimal, decimal2, push_char, push_decimal2, push_str, string_of,
    trim_end, word_count, words,
};

verus! {

/// One diarized utterance.
#[derive(Debug, PartialEq)]
pub struct Turn {
    pub speaker: String,
    pub text: String,
    /// Milliseconds from recording start; used for citations back into audio.
    pub start_ms: u64,
    pub end_ms: u64,
}

impl Clone for Turn {
    fn clone(&self) -> (r: Self)
        ensures
            r == *self,
    {
        Turn {
            speaker: self.speaker.clone(),
            text: self.text.clone(),
            start_ms: self.start_ms,
            end_ms: self.end_ms,
        }
    }
}

/// Words in a turn's text.
pub open spec fn turn_words(t: Turn) -> nat {
    words(t.text@).len()
}

/// Total words of `turns[a..b]`.
pub open spec fn words_between(turns: Seq<Turn>, a: int, b: int) -> nat
    decreases b - a,
{
    if a < b {
        words_between(turns, a, b - 1) + turn_words(turns[b - 1])
    } else {
        0
    }
}

pub proof fn lemma_words_between_split(turns: Seq<Turn>, a: int, b: int, c: int)
    requires
        a <= b <= c,
    ensures
        words_between(turns, a, b) + words_between(turns, b, c) == words_between(turns, a, c),
    decreases c - b,
{
    if b < c {
        lemma_words_between_split(turns, a, b, c - 1);
    }
}

pub proof fn lemma_words_between_mono(turns: Seq<Turn>, a: int, b: int, c: int, d: int)
    requires
        c <= a <= b <= d,
    ensures
        words_between(turns, a, b) <= words_between(turns, c, d),
{
    lemma_words_between_split(turns, c, a, b);
    lemma_words_between_split(turns, c, b, d);
}

/// Greedy chunk boundaries after the first `k` turns: the closed chunks as
/// index ranges, and the start of the open chunk (which ends at `k`).
pub open spec fn chunk_fold(turns: Seq<Turn>, max_words: nat, overlap: nat, k: int) -> (
    Seq<(int, int)>,
    int,
)
    decreases k,
{
    if k <= 0 {
        (seq![], 0)
    } else {
        let (closed, lo) = chunk_fold(turns, max_words, overlap, k - 1);
        let t = k - 1;
        if words_between(turns, lo, t) + turn_words(turns[t]) > max_words && lo < t {
            // Close the open chunk; carry its last `overlap` turns over.
            let carry = if overlap < t - lo {
                overlap as int
            } else {
                t - lo
            };
            (closed.push((lo, t)), t - carry)
        } else {
            (closed, lo)
        }
    }
}

/// The chunk boundaries `chunk_turns` produces, as index ranges into `turns`.
pub open spec fn chunk_bounds(turns: Seq<Turn>, max_words: nat, overlap: nat) -> Seq<(int, int)> {
    let (closed, lo) = chunk_fold(turns, max_words, overlap, turns.len() as int);
    if lo < turns.len() {
        closed.push((lo, turns.len() as int))
    } else {
        closed
    }
}

/// The chunks `chunk_turns` produces.
pub open spec fn chunks_of(turns: Seq<Turn>, max_words: nat, overlap: nat) -> Seq<Seq<Turn>> {
    chunk_bounds(turns, max_words, overlap).map_values(|b: (int, int)| turns.subrange(b.0, b.1))
}

pub open spec fn turns_of(v: Seq<Vec<Turn>>) -> Seq<Seq<Turn>> {
    v.map_values(|c: Vec<Turn>| c@)
}

/// Split turns into chunks of at most `max_words`, carrying the last
/// `overlap_turns` turns into the next chunk for context continuity. A turn
/// longer than the budget is never split; overlap turns count against the
/// next chunk's budget.
pub fn chunk_turns(turns: &[Turn], max_words: usize, overlap_turns: usize) -> (chunks: Vec<
    Vec<Turn>,
>)
    requires
        words_between(turns@, 0, turns@.len() as int) <= usize::MAX,
    ensures
        turns_of(chunks@) == chunks_of(turns@, max_words as nat, overlap_turns as nat),
{
    let ghost ts = turns@;
    let ghost mw = max_words as nat;
    let ghost ov = overlap_turns as nat;
    let mut chunks: Vec<Vec<Turn>> = Vec::new();
    let mut current: Vec<Turn> = Vec::new();
    let mut current_words: usize = 0;
    let mut lo: usize = 0;
    let mut k: usize = 0;
    while k < turns.len()
        invariant
            k <= ts.len(),
            ts == turns@,
            mw == max_words as nat,
            ov == overlap_turns as nat,
            lo <= k,
            chunk_fold(ts, mw, ov, k as int).1 == lo as int,
            turns_of(chunks@) == chunk_fold(ts, mw, ov, k as int).0.map_values(
                |b: (int, int)| ts.subrange(b.0, b.1),
            ),
            current@ == ts.subrange(lo as int, k as int),
            current_words == words_between(ts, lo as int, k as int),
            words_between(ts, 0, ts.len() as int) <= usize::MAX,
        decreases ts.len() - k,
    {
        let tw = word_count(turns[k].text.as_str());
        let ghost old_chunks = chunks@;
        let ghost closed_before = chunk_fold(ts, mw, ov, k as int).0;
        let ghost old_lo = lo as int;
        proof {
            lemma_words_between_mono(ts, lo as int, k + 1, 0, ts.len() as int);
            assert(tw == turn_words(ts[k as int]));
            assert(current_words + tw == words_between(ts, lo as int, k + 1));
        }
        let ghost split = words_between(ts, old_lo, k as int) + turn_words(ts[k as int]) > mw
            && old_lo < k;
        if current_words + tw > max_words && current.len() > 0 {
            let overlap = if overlap_turns < current.len() {
                overlap_turns
            } else {
                current.len()
            };
            let new_lo = k - overlap;
            let mut carry: Vec<Turn> = Vec::new();
            let mut carry_words: usize = 0;
            let mut j = new_lo;
            while j < k
                invariant
                    new_lo <= j <= k,
                    k < ts.len(),
                    ts == turns@,
                    carry@ == ts.subrange(new_lo as int, j as int),
                    carry_words == words_between(ts, new_lo as int, j as int),
                    words_between(ts, 0, ts.len() as int) <= usize::MAX,
                decreases k - j,
            {
                let w = word_count(turns[j].text.as_str());
                proof {
                    lemma_words_between_mono(ts, new_lo as int, j + 1, 0, ts.len() as int);
                }
                carry.push(turns[j].clone());
                carry_words = carry_words + w;
                proof {
                    assert(ts.subrange(new_lo as int, j + 1) =~= ts.subrange(
                        new_lo as int,
                        j as int,
                    ).push(ts[j as int]));
                }
                j += 1;
            }
            let mut closing: Vec<Turn> = Vec::new();
            std::mem::swap(&mut closing, &mut current);
            let ghost closing_view = closing@;
            chunks.push(closing);
            current = carry;
            current_words = carry_words;
            proof {
                assert(chunks@ == old_chunks.push(chunks@.last()));
                assert(turns_of(chunks@) =~= turns_of(old_chunks).push(closing_view));
                assert(turns_of(chunks@) =~= closed_before.push((lo as int, k as int)).map_values(
                    |b: (int, int)| ts.subrange(b.0, b.1),
                ));
            }
            lo = new_lo;
        }
        proof {
            lemma_words_between_mono(ts, lo as int, k + 1, 0, ts.len() as int);
        }
        current.push(turns[k].clone());
        current_words = current_words + tw;
        proof {
            assert(current@ =~= ts.subrange(lo as int, k + 1));
            let f = chunk_fold(ts, mw, ov, k as int);
            assert(f.1 == old_lo);
            let carry = if ov < k - old_lo {
                ov as int
            } else {
                k - old_lo
            };
            if split {
                assert(chunk_fold(ts, mw, ov, k + 1) == (f.0.push((old_lo, k as int)), k - carry));
            } else {
                assert(chunk_fold(ts, mw, ov, k + 1) == f);
            }
        }
        k += 1;
    }
    let ghost old_chunks = chunks@;
    let ghost closed = chunk_fold(ts, mw, ov, ts.len() as int).0;
    if current.len() > 0 {
        let ghost cur = current@;
        chunks.push(current);
        proof {
            assert(chunks@ == old_chunks.push(chunks@.last()));
            assert(turns_of(chunks@) =~= turns_of(old_chunks).push(cur));
            assert(turns_of(chunks@) =~= closed.push((lo as int, ts.len() as int)).map_values(
                |b: (int, int)| ts.subrange(b.0, b.1),
            ));
        }
    }
    proof {
        assert(turns_of(chunks@) =~= chunks_of(ts, mw, ov));
    }
    chunks
}

/// The `[mm:ss] Speaker: text` paragraph for one turn (minutes unbounded,
/// each field at least two digits), followed by a blank line.
pub open spec fn turn_block(t: Turn) -> Seq<char> {
    let secs = (t.start_ms / 1000) as nat;
    seq!['['] + decimal2(secs / 60) + seq![':'] + decimal2(secs % 60) + seq![']', ' '] + t.speaker@
        + seq![':', ' '] + t.text@ + seq!['\n', '\n']
}

/// The blocks of `chunk[0..k]`, concatenated.
pub open spec fn blocks(chunk: Seq<Turn>, k: int) -> Seq<char>
    decreases k,
{
    if k <= 0 {
        seq![]
    } else {
        blocks(chunk, k - 1) + turn_block(chunk[k - 1])
    }
}

/// The text `format_chunk` renders: every turn's block, trailing
/// whitespace removed.
pub open spec fn formatted_chunk(chunk: Seq<Turn>) -> Seq<char> {
    trim_end(blocks(chunk, chunk.len() as int))
}

/// Render a chunk as the plain-text block the extraction prompt consumes:
/// `[mm:ss] Speaker: text` paragraphs separated by blank lines.
pub fn format_chunk(chunk: &[Turn]) -> (r: String)
    ensures
        r@ == formatted_chunk(chunk@),
{
    let mut out = String::new();
    let mut k: usize = 0;
    while k < chunk.len()
        invariant
            k <= chunk@.len(),
            out@ == blocks(chunk@, k as int),
        decreases chunk@.len() - k,
    {
        let turn = &chunk[k];
        let secs = turn.start_ms / 1000;
        push_char(&mut out, '[');
        push_decimal2(&mut out, secs / 60);
        push_char(&mut out, ':');
        push_decimal2(&mut out, secs % 60);
        push_char(&mut out, ']');
        push_char(&mut out, ' ');
        push_str(&mut out, turn.speaker.as_str());
        push_char(&mut out, ':');
        push_char(&mut out, ' ');
        push_str(&mut out, turn.text.as_str());
        push_char(&mut out, '\n');
        push_char(&mut out, '\n');
        proof {
            let t = chunk@[k as int];
            assert(out@ =~= blocks(chunk@, k as int) + turn_block(t));
        }
        k += 1;
    }
    let v = chars_of(out.as_str());
    let end = back_ws_at(&v, 0, v.len());
    string_of(&v, 0, end)
}

} // verus!

verus! {

/// The turns carried from a chunk `(lo, hi)` into the next one.
pub open spec fn carried(overlap: nat, lo: int, hi: int) -> int {
    if overlap < hi - lo {
        overlap as int
    } else {
        hi - lo
    }
}

/// Chunk ranges that start at 0, are non-empty, lie within `0..n`, and
/// follow each other: each next chunk starts `carried` turns before the
/// previous one ended and ends strictly later.
pub open spec fn chained(b: Seq<(int, int)>, overlap: nat, n: int) -> bool {
    &&& b.len() > 0 ==> b[0].0 == 0
    &&& forall|i: int| 0 <= i < b.len() ==> 0 <= (#[trigger] b[i]).0 < b[i].1 <= n
    &&& forall|i: int|
        0 < i < b.len() ==> (#[trigger] b[i]).0 == b[i - 1].1 - carried(overlap, b[i - 1].0, b[i - 1].1)
            && b[i].1 > b[i - 1].1
}

proof fn lemma_fold_chained(turns: Seq<Turn>, max_words: nat, overlap: nat, k: int)
    requires
        0 <= k <= turns.len(),
    ensures
        ({
            let (closed, lo) = chunk_fold(turns, max_words, overlap, k);
            &&& chained(closed, overlap, k)
            &&& (k == 0 ==> lo == 0 && closed.len() == 0)
            &&& (k > 0 ==> 0 <= lo < k)
            &&& (closed.len() == 0 ==> lo == 0)
            &&& (closed.len() > 0 ==> lo == closed.last().1 - carried(
                overlap,
                closed.last().0,
                closed.last().1,
            ) && closed.last().1 < k)
        }),
    decreases k,
{
    if k > 0 {
        lemma_fold_chained(turns, max_words, overlap, k - 1);
        let (closed, lo) = chunk_fold(turns, max_words, overlap, k - 1);
        let t = k - 1;
        if words_between(turns, lo, t) + turn_words(turns[t]) > max_words && lo < t {
            let nc = closed.push((lo, t));
            assert forall|i: int| 0 < i < nc.len() implies (#[trigger] nc[i]).0 == nc[i - 1].1
                - carried(overlap, nc[i - 1].0, nc[i - 1].1) && nc[i].1 > nc[i - 1].1 by {
                if i < closed.len() {
                    assert(nc[i] == closed[i]);
                    assert(nc[i - 1] == closed[i - 1]);
                } else {
                    assert(nc[i - 1] == closed[i - 1]);
                }
            }
            assert forall|i: int| 0 <= i < nc.len() implies 0 <= (#[trigger] nc[i]).0 < nc[i].1
                <= k by {
                if i < closed.len() {
                    assert(nc[i] == closed[i]);
                }
            }
        }
    }
}

/// The chunk ranges of a non-empty transcript are chained: the first
/// starts at turn 0, the last ends at the last turn, each is non-empty,
/// each next one starts `min(overlap, previous length)` turns before the
/// previous one ended (the carried-over turns) and ends strictly later.
pub proof fn lemma_chunk_bounds_chained(turns: Seq<Turn>, max_words: nat, overlap: nat)
    requires
        turns.len() > 0,
    ensures
        chained(chunk_bounds(turns, max_words, overlap), overlap, turns.len() as int),
        chunk_bounds(turns, max_words, overlap).len() > 0,
        chunk_bounds(turns, max_words, overlap).last().1 == turns.len(),
{
    let n = turns.len() as int;
    lemma_fold_chained(turns, max_words, overlap, n);
    let (closed, lo) = chunk_fold(turns, max_words, overlap, n);
    let b = closed.push((lo, n));
    assert(chunk_bounds(turns, max_words, overlap) == b);
    assert forall|i: int| 0 < i < b.len() implies (#[trigger] b[i]).0 == b[i - 1].1 - carried(
        overlap,
        b[i - 1].0,
        b[i - 1].1,
    ) && b[i].1 > b[i - 1].1 by {
        assert(b[i - 1] == closed[i - 1]);
        if i < closed.len() {
            assert(b[i] == closed[i]);
        }
    }
    assert forall|i: int| 0 <= i < b.len() implies 0 <= (#[trigger] b[i]).0 < b[i].1 <= n by {
        if i < closed.len() {
            assert(b[i] == closed[i]);
        }
    }
}

proof fn lemma_covered_upto(b: Seq<(int, int)>, overlap: nat, n: int, j: int, i: int)
    requires
        chained(b, overlap, n),
        0 <= i < b.len(),
        0 <= j < b[i].1,
    ensures
        exists|c: int| 0 <= c <= i && (#[trigger] b[c]).0 <= j < b[c].1,
    decreases i,
{
    if i > 0 && j < b[i - 1].1 {
        lemma_covered_upto(b, overlap, n, j, i - 1);
        let c = choose|c: int| 0 <= c <= i - 1 && (#[trigger] b[c]).0 <= j < b[c].1;
        assert(0 <= c <= i && b[c].0 <= j < b[c].1);
    } else if i > 0 {
        assert(b[i].0 == b[i - 1].1 - carried(overlap, b[i - 1].0, b[i - 1].1));
        assert(b[i].0 <= j < b[i].1);
    } else {
        assert(b[0].0 <= j < b[0].1);
    }
}

/// Every turn appears in at least one chunk, whole: for each turn there is
/// a chunk whose range holds it, and the chunk holds exactly the turns of
/// its range, in transcript order.
pub proof fn lemma_every_turn_chunked(turns: Seq<Turn>, max_words: nat, overlap: nat, j: int)
    requires
        0 <= j < turns.len(),
    ensures
        exists|c: int|
            0 <= c < chunk_bounds(turns, max_words, overlap).len() && (#[trigger] chunk_bounds(
                turns,
                max_words,
                overlap,
            )[c]).0 <= j < chunk_bounds(turns, max_words, overlap)[c].1 && chunks_of(
                turns,
                max_words,
                overlap,
            )[c][j - chunk_bounds(turns, max_words, overlap)[c].0] == turns[j],
{
    let b = chunk_bounds(turns, max_words, overlap);
    let cs = chunks_of(turns, max_words, overlap);
    lemma_chunk_bounds_chained(turns, max_words, overlap);
    lemma_covered_upto(b, overlap, turns.len() as int, j, b.len() - 1);
    let c = choose|c: int| 0 <= c <= b.len() - 1 && (#[trigger] b[c]).0 <= j < b[c].1;
    assert(0 <= b[c].0 < b[c].1 <= turns.len());
    assert(cs[c] == turns.subrange(b[c].0, b[c].1));
    assert(cs[c][j - b[c].0] == turns[j]);
}

} // verus!

verus! {

/// Chained ranges overlap by the carried turns: range `i` of `turns`
/// opens with the last `carried` turns of range `i-1`.
pub proof fn lemma_chained_overlap(turns: Seq<Turn>, b: Seq<(int, int)>, overlap: nat, i: int)
    requires
        chained(b, overlap, turns.len() as int),
        0 < i < b.len(),
    ensures
        ({
            let c = carried(overlap, b[i - 1].0, b[i - 1].1);
            let prev = turns.subrange(b[i - 1].0, b[i - 1].1);
            let cur = turns.subrange(b[i].0, b[i].1);
            &&& 0 <= c <= prev.len()
            &&& c < cur.len()
            &&& cur.subrange(0, c) == prev.subrange(prev.len() - c, prev.len() as int)
        }),
{
    let c = carried(overlap, b[i - 1].0, b[i - 1].1);
    assert(b[i].0 == b[i - 1].1 - c && b[i].1 > b[i - 1].1);
    assert(0 <= b[i - 1].0 < b[i - 1].1 <= turns.len());
    assert(0 <= b[i].0 < b[i].1 <= turns.len());
    let prev = turns.subrange(b[i - 1].0, b[i - 1].1);
    let cur = turns.subrange(b[i].0, b[i].1);
    assert(cur.subrange(0, c) =~= prev.subrange(prev.len() - c, prev.len() as int));
}

/// Consecutive chunks overlap by the carried-over turns: chunk `i` opens
/// with exactly the last `min(overlap, length of chunk i-1)` turns of
/// chunk `i-1`, and then holds at least one turn more.
pub proof fn lemma_chunk_overlap(turns: Seq<Turn>, max_words: nat, overlap: nat, i: int)
    requires
        0 < i < chunk_bounds(turns, max_words, overlap).len(),
    ensures
        ({
            let b = chunk_bounds(turns, max_words, overlap);
            let cs = chunks_of(turns, max_words, overlap);
            let c = carried(overlap, b[i - 1].0, b[i - 1].1);
            &&& 0 <= c <= cs[i - 1].len()
            &&& c < cs[i].len()
            &&& cs[i].subrange(0, c) == cs[i - 1].subrange(cs[i - 1].len() - c, cs[i - 1].len() as int)
        }),
{
    let b = chunk_bounds(turns, max_words, overlap);
    let cs = chunks_of(turns, max_words, overlap);
    lemma_chunk_bounds_chained(turns, max_words, overlap);
    lemma_chained_overlap(turns, b, overlap, i);
    assert(cs[i] == turns.subrange(b[i].0, b[i].1));
    assert(cs[i - 1] == turns.subrange(b[i - 1].0, b[i - 1].1));
}

} // verus!
