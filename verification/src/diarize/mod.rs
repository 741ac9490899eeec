//! Speaker diarization stage data, and the merge of diarization with
//! transcription (`merge`).

pub mod merge;

use vstd::prelude::*;

use crate::text::{push_str, decimal, decimal2, push_char, push_decimal, push_decimal2, string_from};

verus! {

/// A span attributed to one (anonymous) speaker: "SPEAKER_00", "SPEAKER_01"...
/// Stable within a meeting, meaningless across meetings until named.
#[derive(Debug, PartialEq)]
pub struct SpeakerSegment {
    pub start_ms: u64,
    pub end_ms: u64,
    pub speaker: String,
}

impl Clone for SpeakerSegment {
    fn clone(&self) -> (r: Self)
        ensures
            r == *self,
    {
        SpeakerSegment {
            start_ms: self.start_ms,
            end_ms: self.end_ms,
            speaker: self.speaker.clone(),
        }
    }
}

/// Why a diarization failed.
#[derive(Debug)]
pub enum DiarizeError {
    ModelLoad(String),
    Inference(String),
}

/// The label of an engine's speaker number: `SPEAKER_` and the number,
/// zero-padded to two characters including any sign.
pub open spec fn label_of(n: i32) -> Seq<char> {
    if n >= 0 {
        "SPEAKER_"@ + decimal2(n as nat)
    } else {
        "SPEAKER_"@ + seq!['-'] + decimal((-n) as nat)
    }
}

/// `SPEAKER_00`, `SPEAKER_01`, ... for an engine's speaker number.
pub fn speaker_label(n: i32) -> (r: String)
    ensures
        r@ == label_of(n),
{
    let mut out = string_from("SPEAKER_");
    if n >= 0 {
        push_decimal2(&mut out, n as u64);
    } else {
        push_char(&mut out, '-');
        let m: i64 = -(n as i64);
        push_decimal(&mut out, m as u64);
    }
    out
}

/// `s` with `x` inserted after every element that starts no later than it.
pub open spec fn insert_by_start(s: Seq<SpeakerSegment>, x: SpeakerSegment) -> Seq<SpeakerSegment>
    decreases s.len(),
{
    if s.len() == 0 {
        seq![x]
    } else if s.last().start_ms <= x.start_ms {
        s.push(x)
    } else {
        insert_by_start(s.drop_last(), x).push(s.last())
    }
}

/// `s[..n]` stably sorted by start time.
pub open spec fn sorted_by_start(s: Seq<SpeakerSegment>, n: int) -> Seq<SpeakerSegment>
    decreases n,
{
    if n <= 0 {
        seq![]
    } else {
        insert_by_start(sorted_by_start(s, n - 1), s[n - 1])
    }
}

/// Start times never decrease.
pub open spec fn starts_ascending(s: Seq<SpeakerSegment>) -> bool {
    forall|i: int, j: int| 0 <= i < j < s.len() ==> (#[trigger] s[i]).start_ms <= (#[trigger] s[j]).start_ms
}

proof fn lemma_insert_sorted(s: Seq<SpeakerSegment>, x: SpeakerSegment)
    requires
        starts_ascending(s),
    ensures
        starts_ascending(insert_by_start(s, x)),
        insert_by_start(s, x).len() == s.len() + 1,
        insert_by_start(s, x).to_multiset() == s.to_multiset().insert(x),
    decreases s.len(),
{
    broadcast use vstd::seq_lib::group_to_multiset_ensures;
    if s.len() == 0 {
        assert(seq![x].to_multiset() == s.to_multiset().insert(x)) by {
            assert(seq![x] == s.push(x));
        }
    } else if s.last().start_ms <= x.start_ms {
    } else {
        let d = s.drop_last();
        assert(starts_ascending(d));
        lemma_insert_sorted(d, x);
        let r = insert_by_start(d, x);
        // every element of r starts no later than s.last()
        assert forall|i: int| 0 <= i < r.len() implies (#[trigger] r[i]).start_ms <= s.last().start_ms by {
            assert(r.to_multiset().count(r[i]) > 0);
            assert(d.to_multiset().insert(x).count(r[i]) > 0);
            if r[i] != x {
                assert(d.to_multiset().count(r[i]) > 0);
                assert(d.contains(r[i]));
                let k = choose|k: int| 0 <= k < d.len() && d[k] == r[i];
                assert(s[k] == d[k]);
            }
        }
        assert(s == d.push(s.last()));
    }
}

/// Stable sorting by start time yields ascending starts and keeps every
/// segment.
pub proof fn lemma_sorted_by_start(s: Seq<SpeakerSegment>, n: int)
    requires
        0 <= n <= s.len(),
    ensures
        starts_ascending(sorted_by_start(s, n)),
        sorted_by_start(s, n).to_multiset() == s.subrange(0, n).to_multiset(),
    decreases n,
{
    broadcast use vstd::seq_lib::group_to_multiset_ensures;
    if n > 0 {
        lemma_sorted_by_start(s, n - 1);
        lemma_insert_sorted(sorted_by_start(s, n - 1), s[n - 1]);
        assert(s.subrange(0, n) == s.subrange(0, n - 1).push(s[n - 1]));
    } else {
        assert(s.subrange(0, 0) == Seq::<SpeakerSegment>::empty());
    }
}

/// Orders diarized segments by start time, keeping the engine's order
/// among equal starts (downstream merging assumes chronological order).
pub fn sort_by_start(segs: Vec<SpeakerSegment>) -> (r: Vec<SpeakerSegment>)
    ensures
        r@ == sorted_by_start(segs@, segs@.len() as int),
{
    let mut out: Vec<SpeakerSegment> = Vec::new();
    let mut i: usize = 0;
    while i < segs.len()
        invariant
            i <= segs@.len(),
            out@ == sorted_by_start(segs@, i as int),
        decreases segs@.len() - i,
    {
        let x = segs[i].clone();
        // find the insertion point from the back
        let mut j: usize = out.len();
        proof {
            assert(out@.subrange(0, out@.len() as int) == out@);
            assert(out@.subrange(out@.len() as int, out@.len() as int) == Seq::<SpeakerSegment>::empty());
            assert(insert_by_start(out@, x) == insert_by_start(out@, x) + Seq::<SpeakerSegment>::empty());
        }
        while j > 0 && out[j - 1].start_ms > x.start_ms
            invariant
                j <= out@.len(),
                insert_by_start(out@, x) == insert_by_start(out@.subrange(0, j as int), x) + out@.subrange(
                    j as int,
                    out@.len() as int,
                ),
                forall|k: int| j <= k < out@.len() ==> (#[trigger] out@[k]).start_ms > x.start_ms,
            decreases j,
        {
            proof {
                let p = out@.subrange(0, j as int);
                assert(p.drop_last() == out@.subrange(0, j - 1));
                assert(p.last() == out@[j - 1]);
                assert(insert_by_start(p, x) == insert_by_start(out@.subrange(0, j - 1), x).push(out@[j - 1]));
                assert(out@.subrange(j - 1, out@.len() as int) == seq![out@[j - 1]] + out@.subrange(j as int, out@.len() as int));
            }
            j = j - 1;
        }
        proof {
            let p = out@.subrange(0, j as int);
            if j > 0 {
                assert(p.last() == out@[j - 1]);
            }
            assert(insert_by_start(p, x) == p.push(x));
            assert(out@ == p + out@.subrange(j as int, out@.len() as int));
        }
        out.insert(j, x);
        proof {
            assert(segs@[i as int] == x);
        }
        i = i + 1;
    }
    out
}

/// The message of a diarization error.
pub open spec fn diarize_error_text(e: DiarizeError) -> Seq<char> {
    match e {
        DiarizeError::ModelLoad(m) => "model load failed: "@ + m@,
        DiarizeError::Inference(m) => "inference failed: "@ + m@,
    }
}

impl DiarizeError {
    /// The error's message, e.g. `inference failed: out of memory`.
    pub fn message(&self) -> (r: String)
        ensures
            r@ == diarize_error_text(*self),
    {
        let mut out = String::new();
        match self {
            DiarizeError::ModelLoad(m) => {
                push_str(&mut out, "model load failed: ");
                push_str(&mut out, m.as_str());
            },
            DiarizeError::Inference(m) => {
                push_str(&mut out, "inference failed: ");
                push_str(&mut out, m.as_str());
            },
        }
        out
    }
}

} // verus!
