//! Post-recording pipeline decisions: how the two audio tracks' transcripts
//! become one speaker-attributed, chronological transcript, and which
//! citations a summary's `[mm:ss]` markers resolve to.
//!
//! The mic track needs no diarization — it is the local speaker ("Me");
//! the system track's words are attributed to diarized speakers. Both are
//! coalesced (same speaker, short silence) and interleaved by start time;
//! each turn is tagged with the track it came from.

pub mod worker;

use vstd::prelude::*;

use crate::asr::AsrSegment;
use crate::diarize::merge::{
    attribute_speakers, coalesce_turns, coalesced, interleave, merged, speaker_for, turn_view,
    turn_views,
};
use crate::diarize::SpeakerSegment;
use crate::llm::chunk::Turn;
use crate::llm::extract::{
    parse_timestamps, quote_snippet, resolution, resolve_segment, snippet, timestamps_of,
    SegmentSpan,
};
use crate::text::string_from;

verus! {

/// Max silence gap when merging consecutive same-speaker turns.
pub const COALESCE_GAP_MS: u64 = 1500;

/// Display name for the mic-track owner until the user sets their name.
pub const SELF_SPEAKER: &'static str = "Me";

/// Speaker label for system-track words no diarized speaker overlaps.
pub const UNATTRIBUTED_SPEAKER: &'static str = "SPEAKER_XX";

pub type TurnView = (Seq<char>, Seq<char>, u64, u64);

/// The mic track's words as turns of the local speaker.
pub open spec fn self_views(mic: Seq<AsrSegment>) -> Seq<TurnView> {
    mic.map_values(|s: AsrSegment| (SELF_SPEAKER@, s.text@, s.start_ms, s.end_ms))
}

/// The system track's words, each attributed to its speaker.
pub open spec fn attributed_views(
    asr: Seq<AsrSegment>,
    speakers: Seq<SpeakerSegment>,
    fallback: Seq<char>,
) -> Seq<TurnView> {
    asr.map_values(|s: AsrSegment| (speaker_for(s, speakers, fallback), s.text@, s.start_ms, s.end_ms))
}

/// Two transcripts merged by start time, the first one winning ties.
pub open spec fn merged_views(a: Seq<TurnView>, b: Seq<TurnView>) -> Seq<TurnView>
    decreases a.len() + b.len(),
{
    if a.len() == 0 {
        b
    } else if b.len() == 0 {
        a
    } else if a[0].2 <= b[0].2 {
        seq![a[0]] + merged_views(a.drop_first(), b)
    } else {
        seq![b[0]] + merged_views(a, b.drop_first())
    }
}

/// The track a turn came from.
pub open spec fn source_of(speaker: Seq<char>) -> Seq<char> {
    if speaker == SELF_SPEAKER@ {
        "mic"@
    } else {
        "system"@
    }
}

/// The local speaker's coalesced turns (none without a mic track).
pub open spec fn local_views(mic: Option<Seq<AsrSegment>>) -> Seq<TurnView> {
    match mic {
        Some(m) => coalesced(self_views(m), COALESCE_GAP_MS, m.len() as int),
        None => seq![],
    }
}

/// The remote speakers' coalesced turns.
pub open spec fn remote_views(system: Seq<AsrSegment>, speakers: Seq<SpeakerSegment>) -> Seq<
    TurnView,
> {
    coalesced(
        attributed_views(system, speakers, UNATTRIBUTED_SPEAKER@),
        COALESCE_GAP_MS,
        system.len() as int,
    )
}

pub proof fn lemma_merged_views(a: Seq<Turn>, b: Seq<Turn>)
    ensures
        turn_views(merged(a, b)) == merged_views(turn_views(a), turn_views(b)),
    decreases a.len() + b.len(),
{
    if a.len() == 0 {
    } else if b.len() == 0 {
    } else if a[0].start_ms <= b[0].start_ms {
        lemma_merged_views(a.drop_first(), b);
        assert(turn_views(a).drop_first() == turn_views(a.drop_first()));
        assert(turn_views(seq![a[0]] + merged(a.drop_first(), b)) == seq![turn_view(a[0])]
            + turn_views(merged(a.drop_first(), b)));
    } else {
        lemma_merged_views(a, b.drop_first());
        assert(turn_views(b).drop_first() == turn_views(b.drop_first()));
        assert(turn_views(seq![b[0]] + merged(a, b.drop_first())) == seq![turn_view(b[0])]
            + turn_views(merged(a, b.drop_first())));
    }
}

/// The mic track's words as turns of [`SELF_SPEAKER`].
pub fn self_turns(mic: Vec<AsrSegment>) -> (r: Vec<Turn>)
    ensures
        turn_views(r@) == self_views(mic@),
{
    let mut out: Vec<Turn> = Vec::new();
    let mut i: usize = 0;
    while i < mic.len()
        invariant
            i <= mic@.len(),
            out@.len() == i,
            forall|k: int|
                0 <= k < i ==> turn_view(#[trigger] out@[k]) == (
                    SELF_SPEAKER@,
                    mic@[k].text@,
                    mic@[k].start_ms,
                    mic@[k].end_ms,
                ),
        decreases mic@.len() - i,
    {
        let seg = &mic[i];
        out.push(
            Turn {
                speaker: string_from(SELF_SPEAKER),
                text: seg.text.clone(),
                start_ms: seg.start_ms,
                end_ms: seg.end_ms,
            },
        );
        i = i + 1;
    }
    proof {
        assert(turn_views(out@) == self_views(mic@));
    }
    out
}

/// The track tag stored with a turn: "mic" for the local speaker, else
/// "system".
pub fn source_tag(t: &Turn) -> (r: &'static str)
    ensures
        r@ == source_of(t.speaker@),
{
    let me = string_from(SELF_SPEAKER);
    if t.speaker == me {
        "mic"
    } else {
        "system"
    }
}

/// One chronological transcript from both tracks: the system track
/// attributed to diarized speakers, the optional mic track as the local
/// speaker, each coalesced, interleaved by start time (mic first on ties),
/// and every turn tagged with its source track.
pub fn assemble_transcript(
    system_asr: &[AsrSegment],
    speakers: &[SpeakerSegment],
    mic_asr: Option<Vec<AsrSegment>>,
) -> (r: Vec<(Turn, &'static str)>)
    ensures
        turn_views(r@.map_values(|p: (Turn, &'static str)| p.0)) == merged_views(
            local_views(
                match mic_asr {
                    Some(m) => Some(m@),
                    None => None,
                },
            ),
            remote_views(system_asr@, speakers@),
        ),
        forall|i: int|
            0 <= i < r@.len() ==> (#[trigger] r@[i]).1@ == source_of(r@[i].0.speaker@),
{
    let attributed = attribute_speakers(system_asr, speakers, UNATTRIBUTED_SPEAKER);
    proof {
        assert(turn_views(attributed@) == attributed_views(
            system_asr@,
            speakers@,
            UNATTRIBUTED_SPEAKER@,
        ));
    }
    let remote = coalesce_turns(attributed, COALESCE_GAP_MS);
    let ghost mic_view = match &mic_asr {
        Some(m) => Some(m@),
        None => None,
    };
    let local = match mic_asr {
        Some(m) => {
            let t = self_turns(m);
            proof {
                assert(turn_views(t@).len() == t@.len());
            }
            coalesce_turns(t, COALESCE_GAP_MS)
        },
        None => Vec::new(),
    };
    proof {
        assert(turn_views(local@) == local_views(mic_view));
        assert(turn_views(remote@) == remote_views(system_asr@, speakers@));
    }
    let all = interleave(local, remote);
    proof {
        lemma_merged_views(local@, remote@);
    }
    let mut out: Vec<(Turn, &'static str)> = Vec::new();
    let mut k: usize = 0;
    while k < all.len()
        invariant
            k <= all@.len(),
            out@.map_values(|p: (Turn, &'static str)| p.0) == all@.subrange(0, k as int),
            forall|i: int|
                0 <= i < out@.len() ==> (#[trigger] out@[i]).1@ == source_of(out@[i].0.speaker@),
        decreases all@.len() - k,
    {
        let t = all[k].clone();
        let tag = source_tag(&t);
        let ghost prev_out = out@;
        out.push((t, tag));
        proof {
            assert(out@.map_values(|p: (Turn, &'static str)| p.0) == prev_out.map_values(
                |p: (Turn, &'static str)| p.0,
            ).push(t));
            assert(all@.subrange(0, k + 1) == all@.subrange(0, k as int).push(all@[k as int]));
        }
        k = k + 1;
    }
    proof {
        assert(all@.subrange(0, all@.len() as int) == all@);
    }
    out
}

/// A stored transcript segment, as the citation step reads it back.
#[derive(Debug)]
pub struct StoredSegment {
    pub id: i64,
    pub start_ms: u64,
    pub end_ms: u64,
    pub text: String,
}

pub open spec fn spans_of(segs: Seq<StoredSegment>) -> Seq<SegmentSpan> {
    segs.map_values(
        |s: StoredSegment| SegmentSpan { id: s.id, start_ms: s.start_ms, end_ms: s.end_ms },
    )
}

/// The index of the first segment with row id `id` at or after `k`.
pub open spec fn first_with_id(segs: Seq<StoredSegment>, id: i64, k: int) -> int
    decreases segs.len() - k,
{
    if 0 <= k < segs.len() && segs[k].id != id {
        first_with_id(segs, id, k + 1)
    } else {
        k
    }
}

/// The quote stored with a citation of segment `id`: the snippet of the
/// first segment with that id.
pub open spec fn quote_for(segs: Seq<StoredSegment>, id: i64) -> Option<Seq<char>> {
    let k = first_with_id(segs, id, 0);
    if 0 <= k < segs.len() {
        Some(snippet(segs[k].text@))
    } else {
        None
    }
}

/// Citations for the markers `ts[..n]`: each marker that resolves to a
/// segment, with that segment's quote; unresolvable markers are dropped.
pub open spec fn citations(ts: Seq<u64>, segs: Seq<StoredSegment>, n: int) -> Seq<
    (i64, Option<Seq<char>>),
>
    decreases n,
{
    if n <= 0 {
        seq![]
    } else {
        let rest = citations(ts, segs, n - 1);
        match resolution(ts[n - 1], spans_of(segs)) {
            Some(id) => rest.push((id, quote_for(segs, id))),
            None => rest,
        }
    }
}

pub open spec fn citation_view(c: (i64, Option<String>)) -> (i64, Option<Seq<char>>) {
    (
        c.0,
        match c.1 {
            Some(s) => Some(s@),
            None => None,
        },
    )
}

/// The quote for segment `id`.
fn quote_of(segs: &[StoredSegment], id: i64) -> (r: Option<String>)
    ensures
        match r {
            Some(s) => quote_for(segs@, id) == Some(s@),
            None => quote_for(segs@, id) is None,
        },
{
    let mut k: usize = 0;
    while k < segs.len() && segs[k].id != id
        invariant
            k <= segs@.len(),
            first_with_id(segs@, id, 0) == first_with_id(segs@, id, k as int),
        decreases segs@.len() - k,
    {
        k = k + 1;
    }
    if k < segs.len() {
        Some(quote_snippet(segs[k].text.as_str()))
    } else {
        None
    }
}

/// Structured citations for a summary: every `[mm:ss]` marker it
/// preserved, resolved to a stored segment, with the cited words as a
/// hover quote.
pub fn citations_for(content: &str, segments: &[StoredSegment]) -> (r: Vec<(i64, Option<String>)>)
    ensures
        r@.map_values(|c: (i64, Option<String>)| citation_view(c)) == citations(
            timestamps_of(content@),
            segments@,
            timestamps_of(content@).len() as int,
        ),
{
    let ts = parse_timestamps(content);
    let mut spans: Vec<SegmentSpan> = Vec::new();
    let mut j: usize = 0;
    while j < segments.len()
        invariant
            j <= segments@.len(),
            spans@ == spans_of(segments@).subrange(0, j as int),
        decreases segments@.len() - j,
    {
        spans.push(
            SegmentSpan {
                id: segments[j].id,
                start_ms: segments[j].start_ms,
                end_ms: segments[j].end_ms,
            },
        );
        proof {
            assert(spans_of(segments@).subrange(0, j + 1) == spans_of(segments@).subrange(
                0,
                j as int,
            ).push(spans_of(segments@)[j as int]));
        }
        j = j + 1;
    }
    proof {
        assert(spans_of(segments@).subrange(0, segments@.len() as int) == spans_of(segments@));
    }
    let mut out: Vec<(i64, Option<String>)> = Vec::new();
    let mut i: usize = 0;
    while i < ts.len()
        invariant
            i <= ts@.len(),
            ts@ == timestamps_of(content@),
            spans@ == spans_of(segments@),
            out@.map_values(|c: (i64, Option<String>)| citation_view(c)) == citations(
                ts@,
                segments@,
                i as int,
            ),
        decreases ts@.len() - i,
    {
        let ghost prev = out@;
        match resolve_segment(ts[i], spans.as_slice()) {
            Some(id) => {
                let quote = quote_of(segments, id);
                out.push((id, quote));
                proof {
                    assert(out@.map_values(|c: (i64, Option<String>)| citation_view(c))
                        == prev.map_values(|c: (i64, Option<String>)| citation_view(c)).push(
                        citation_view((id, quote)),
                    ));
                }
            },
            None => {},
        }
        i = i + 1;
    }
    out
}

} // verus!
