//! The store's decisions that do not need the database: turning user input
//! into a safe full-text query, and the speaker-identity rules a transcript
//! is stored under. The SQLite connection itself lives with the application.
//!
//! Speaker-identity rules: "Me" (the mic track) is one global self row
//! reused across meetings; anonymous `SPEAKER_*` labels get a fresh row per
//! meeting (so one meeting's SPEAKER_00 is never conflated with another's);
//! any other, already user-named, label is shared globally by name. Within
//! one transcript each distinct label is resolved once, in order of first
//! appearance, and every turn reuses its label's row.

use vstd::prelude::*;

use crate::llm::chunk::Turn;
use crate::text::{
    chars_of, lemma_skip_ws, lemma_word_end, push_char, skip_ws_at, word_end, word_end_at, words,
    words_from,
};

verus! {

/// A transcript search hit (FTS5 snippet + jump-to-audio position).
#[derive(Debug, Clone, PartialEq)]
pub struct SearchHit {
    pub meeting_id: String,
    pub speaker: Option<String>,
    pub start_ms: u64,
    pub snippet: String,
}

/// `t` with every `"` doubled.
pub open spec fn doubled_quotes(t: Seq<char>) -> Seq<char>
    decreases t.len(),
{
    if t.len() == 0 {
        Seq::empty()
    } else {
        doubled_quotes(t.drop_last()) + if t.last() == '"' {
            seq!['"', '"']
        } else {
            seq![t.last()]
        }
    }
}

/// A token as an FTS5 phrase literal.
pub open spec fn phrase(t: Seq<char>) -> Seq<char> {
    seq!['"'] + doubled_quotes(t) + seq!['"']
}

/// The phrases of `tokens[..n]`, separated by single spaces.
pub open spec fn phrases(tokens: Seq<Seq<char>>, n: int) -> Seq<char>
    decreases n,
{
    if n <= 0 {
        Seq::empty()
    } else if n == 1 {
        phrase(tokens[0])
    } else {
        phrases(tokens, n - 1) + seq![' '] + phrase(tokens[n - 1])
    }
}

/// The full-text query for user input: each whitespace-separated token as
/// a quoted phrase, ANDed by juxtaposition.
pub open spec fn fts5_query(input: Seq<char>) -> Seq<char> {
    phrases(words(input), words(input).len() as int)
}

/// Appends `v[lo..hi]` with every `"` doubled.
fn push_doubled(out: &mut String, v: &Vec<char>, lo: usize, hi: usize)
    requires
        lo <= hi <= v@.len(),
    ensures
        final(out)@ == old(out)@ + doubled_quotes(v@.subrange(lo as int, hi as int)),
{
    let mut k: usize = lo;
    while k < hi
        invariant
            lo <= k <= hi <= v@.len(),
            out@ == old(out)@ + doubled_quotes(v@.subrange(lo as int, k as int)),
        decreases hi - k,
    {
        let c = v[k];
        if c == '"' {
            push_char(out, '"');
            push_char(out, '"');
        } else {
            push_char(out, c);
        }
        proof {
            let s = v@.subrange(lo as int, k + 1);
            assert(s.drop_last() == v@.subrange(lo as int, k as int));
            assert(s.last() == c);
        }
        k = k + 1;
    }
    proof {
        assert(lo == hi ==> v@.subrange(lo as int, hi as int) =~= Seq::<char>::empty());
    }
}

/// Turn arbitrary user input into a safe FTS5 MATCH expression: every
/// whitespace-separated token becomes a quoted phrase (embedded quotes
/// doubled), so punctuation and operator words are literal terms. Input
/// with no tokens yields the empty string, which matches nothing.
pub fn fts5_sanitize(input: &str) -> (r: String)
    ensures
        r@ == fts5_query(input@),
{
    let v = chars_of(input);
    let ghost toks = words(v@);
    let mut out = String::new();
    let mut i: usize = 0;
    let mut n: usize = 0;
    loop
        invariant
            i <= v@.len(),
            v@ == input@,
            toks == words(v@),
            n <= toks.len(),
            n <= i,
            toks == toks.subrange(0, n as int) + words_from(v@, i as int),
            out@ == phrases(toks, n as int),
        decreases v@.len() - i,
    {
        let a = skip_ws_at(&v, i);
        proof {
            lemma_skip_ws(v@, i as int);
        }
        if a >= v.len() {
            proof {
                assert(words_from(v@, i as int) =~= Seq::<Seq<char>>::empty());
                assert(toks.subrange(0, n as int) == toks);
            }
            return out;
        }
        let b = word_end_at(&v, a + 1);
        proof {
            lemma_word_end(v@, a as int);
            assert(word_end(v@, a as int) == b);
            assert(words_from(v@, i as int) == seq![v@.subrange(a as int, b as int)]
                + words_from(v@, b as int));
            assert(toks[n as int] == v@.subrange(a as int, b as int)) by {
                assert((toks.subrange(0, n as int) + words_from(v@, i as int))[n as int]
                    == words_from(v@, i as int)[0]);
            }
            assert(toks.subrange(0, n + 1) == toks.subrange(0, n as int).push(
                v@.subrange(a as int, b as int),
            ));
        }
        if n > 0 {
            push_char(&mut out, ' ');
        }
        push_char(&mut out, '"');
        push_doubled(&mut out, &v, a, b);
        push_char(&mut out, '"');
        proof {
            if n == 0 {
                assert(out@ == phrase(toks[0]));
            }
        }
        i = b;
        n = n + 1;
    }
}

/// How a transcript label maps to speaker rows.
#[derive(Debug, Clone, Copy, PartialEq, Eq, Structural)]
pub enum SpeakerIdentity {
    /// "Me": the one global self speaker.
    SelfSpeaker,
    /// A diarization label ("SPEAKER_*"): a fresh row per meeting.
    Anonymous,
    /// A user-given name: one row per name, shared across meetings.
    Named,
}

/// The identity rule for a label.
pub open spec fn identity_of(label: Seq<char>) -> SpeakerIdentity {
    if label == "Me"@ {
        SpeakerIdentity::SelfSpeaker
    } else if label.len() >= 8 && label.subrange(0, 8) == "SPEAKER_"@ {
        SpeakerIdentity::Anonymous
    } else {
        SpeakerIdentity::Named
    }
}

/// Which identity rule a label falls under.
pub fn speaker_identity(label: &str) -> (r: SpeakerIdentity)
    ensures
        r == identity_of(label@),
{
    let v = chars_of(label);
    proof {
        reveal_strlit("Me");
        reveal_strlit("SPEAKER_");
    }
    if v.len() == 2 && v[0] == 'M' && v[1] == 'e' {
        proof {
            assert(v@ == "Me"@);
        }
        return SpeakerIdentity::SelfSpeaker;
    }
    proof {
        if label@ == "Me"@ {
            assert(v@[0] == 'M' && v@[1] == 'e');
        }
    }
    let prefix = chars_of("SPEAKER_");
    if v.len() < 8 {
        return SpeakerIdentity::Named;
    }
    assert(prefix@.len() == 8);
    let mut k: usize = 0;
    while k < 8
        invariant
            k <= 8 <= v@.len(),
            prefix@ == "SPEAKER_"@,
            prefix@.len() == 8,
            v@ == label@,
            label@ != "Me"@,
            forall|j: int| 0 <= j < k ==> v@[j] == prefix@[j],
        decreases 8 - k,
    {
        if v[k] != prefix[k] {
            proof {
                assert(v@.subrange(0, 8)[k as int] != "SPEAKER_"@[k as int]);
            }
            return SpeakerIdentity::Named;
        }
        k = k + 1;
    }
    proof {
        assert(v@.subrange(0, 8) =~= "SPEAKER_"@);
    }
    SpeakerIdentity::Anonymous
}

/// The labels of `s`, each kept at its first appearance.
pub open spec fn first_appearances(s: Seq<Seq<char>>) -> Seq<Seq<char>>
    decreases s.len(),
{
    if s.len() == 0 {
        Seq::empty()
    } else {
        let d = first_appearances(s.drop_last());
        if d.contains(s.last()) {
            d
        } else {
            d.push(s.last())
        }
    }
}

/// The speaker labels of a transcript.
pub open spec fn speakers_of(turns: Seq<Turn>) -> Seq<Seq<char>> {
    turns.map_values(|t: Turn| t.speaker@)
}

/// How a transcript's speakers are resolved: each distinct label once
/// (`labels`, in order of first appearance), and for each turn the index
/// of its label (`slot`).
#[derive(Debug)]
pub struct SpeakerPlan {
    pub labels: Vec<String>,
    pub slot: Vec<usize>,
}

/// No label occurs twice.
pub open spec fn distinct(s: Seq<Seq<char>>) -> bool {
    forall|i: int, j: int| 0 <= i < j < s.len() ==> s[i] != s[j]
}

/// Labels appear in `first_appearances` exactly when they occur in `s`,
/// and never twice.
pub proof fn lemma_first_appearances(s: Seq<Seq<char>>)
    ensures
        distinct(first_appearances(s)),
        forall|x: Seq<char>| first_appearances(s).contains(x) <==> s.contains(x),
    decreases s.len(),
{
    if s.len() > 0 {
        lemma_first_appearances(s.drop_last());
        let d = first_appearances(s.drop_last());
        assert forall|x: Seq<char>| first_appearances(s).contains(x) <==> s.contains(x) by {
            if s.contains(x) {
                let k = choose|k: int| 0 <= k < s.len() && s[k] == x;
                if k < s.len() - 1 {
                    assert(s.drop_last()[k] == x);
                }
            }
            if s.drop_last().contains(x) {
                let k = choose|k: int| 0 <= k < s.drop_last().len() && s.drop_last()[k] == x;
                assert(s[k] == x);
            }
            if !d.contains(s.last()) {
                if d.push(s.last()).contains(x) {
                    let k = choose|k: int| 0 <= k < d.push(s.last()).len() && d.push(s.last())[k]
                        == x;
                    if k < d.len() {
                        assert(d[k] == x);
                    }
                }
                if x == s.last() {
                    assert(d.push(s.last())[d.len() as int] == x);
                }
                if d.contains(x) {
                    let k = choose|k: int| 0 <= k < d.len() && d[k] == x;
                    assert(d.push(s.last())[k] == x);
                }
            }
        }
    }
}

/// The index of `s` in `labels`, or `labels.len()` when absent.
fn index_of_label(labels: &Vec<String>, s: &String) -> (r: usize)
    ensures
        r <= labels@.len(),
        r < labels@.len() ==> labels@[r as int]@ == s@,
        r == labels@.len() ==> forall|m: int| 0 <= m < labels@.len() ==> labels@[m]@ != s@,
{
    let mut j: usize = 0;
    while j < labels.len()
        invariant
            j <= labels@.len(),
            forall|m: int| 0 <= m < j ==> labels@[m]@ != s@,
        decreases labels@.len() - j,
    {
        if labels[j] == *s {
            return j;
        }
        j = j + 1;
    }
    j
}

/// Plans the speaker resolution of a transcript: the distinct labels in
/// order of first appearance, and each turn's index into them.
pub fn speaker_plan(turns: &[Turn]) -> (r: SpeakerPlan)
    ensures
        r.labels@.map_values(|s: String| s@) == first_appearances(speakers_of(turns@)),
        r.slot@.len() == turns@.len(),
        forall|i: int|
            0 <= i < turns@.len() ==> #[trigger] r.slot@[i] < r.labels@.len()
                && r.labels@[r.slot@[i] as int]@ == turns@[i].speaker@,
{
    let ghost sp = speakers_of(turns@);
    let mut labels: Vec<String> = Vec::new();
    let mut slot: Vec<usize> = Vec::new();
    let mut i: usize = 0;
    while i < turns.len()
        invariant
            i <= turns@.len(),
            sp == speakers_of(turns@),
            labels@.map_values(|s: String| s@) == first_appearances(sp.subrange(0, i as int)),
            labels@.len() <= i,
            slot@.len() == i,
            forall|k: int|
                0 <= k < i ==> #[trigger] slot@[k] < labels@.len() && labels@[slot@[k] as int]@
                    == turns@[k].speaker@,
        decreases turns@.len() - i,
    {
        let ghost lv = labels@.map_values(|s: String| s@);
        let j = index_of_label(&labels, &turns[i].speaker);
        proof {
            let pre = sp.subrange(0, i as int);
            let post = sp.subrange(0, i + 1);
            assert(post.drop_last() == pre);
            assert(post.last() == turns@[i as int].speaker@);
        }
        if j < labels.len() {
            proof {
                assert(lv[j as int] == turns@[i as int].speaker@);
                assert(lv.contains(turns@[i as int].speaker@));
            }
            slot.push(j);
        } else {
            proof {
                assert(!lv.contains(turns@[i as int].speaker@)) by {
                    if lv.contains(turns@[i as int].speaker@) {
                        let m = choose|m: int| 0 <= m < lv.len() && lv[m] == turns@[i as int].speaker@;
                        assert(labels@[m]@ == turns@[i as int].speaker@);
                    }
                }
            }
            slot.push(labels.len());
            labels.push(turns[i].speaker.clone());
            proof {
                assert(labels@.map_values(|s: String| s@) == lv.push(turns@[i as int].speaker@));
            }
        }
        i = i + 1;
    }
    proof {
        assert(sp.subrange(0, turns@.len() as int) == sp);
    }
    SpeakerPlan { labels, slot }
}

} // verus!

verus! {

/// The query is empty exactly when the input has no tokens, so blank input
/// matches nothing instead of being a syntax error.
pub proof fn lemma_fts5_empty_iff_no_tokens(input: Seq<char>)
    ensures
        (fts5_query(input).len() == 0) <==> (words(input).len() == 0),
{
    let toks = words(input);
    lemma_phrases_nonempty(toks, toks.len() as int);
}

proof fn lemma_phrases_nonempty(tokens: Seq<Seq<char>>, n: int)
    ensures
        n >= 1 ==> phrases(tokens, n).len() >= 2,
        n <= 0 ==> phrases(tokens, n).len() == 0,
    decreases n,
{
    if n > 1 {
        lemma_phrases_nonempty(tokens, n - 1);
    }
}

} // verus!
