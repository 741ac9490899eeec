//! Merge ASR segments with diarization segments into speaker-attributed
//! turns. Mic-track ASR arrives pre-attributed to the local user,
//! system-track ASR gets speakers from diarization, and `interleave` zips
//! both into one chronological transcript.

use vstd::prelude::*;

use crate::asr::AsrSegment;
use crate::diarize::SpeakerSegment;
use crate::llm::chunk::Turn;
use crate::text::{push_char, push_str, string_from};

verus! {

/// Milliseconds shared by the spans `[a_start, a_end]` and `[b_start, b_end]`.
pub open spec fn overlap(a_start: u64, a_end: u64, b_start: u64, b_end: u64) -> nat {
    let start = if a_start >= b_start {
        a_start
    } else {
        b_start
    };
    let end = if a_end <= b_end {
        a_end
    } else {
        b_end
    };
    if end >= start {
        (end - start) as nat
    } else {
        0
    }
}

pub open spec fn seg_overlap(seg: AsrSegment, sp: SpeakerSegment) -> nat {
    overlap(seg.start_ms, seg.end_ms, sp.start_ms, sp.end_ms)
}

/// Among `sps[..k]`, the index of the first speaker segment with the
/// largest positive overlap with `seg`, if any overlaps at all.
pub open spec fn best_speaker(seg: AsrSegment, sps: Seq<SpeakerSegment>, k: int) -> Option<int>
    decreases k,
{
    if k <= 0 {
        None
    } else {
        let b = best_speaker(seg, sps, k - 1);
        let o = seg_overlap(seg, sps[k - 1]);
        if o > 0 && (b is None || o > seg_overlap(seg, sps[b.unwrap()])) {
            Some(k - 1)
        } else {
            b
        }
    }
}

/// The speaker an ASR segment is attributed to.
pub open spec fn speaker_for(seg: AsrSegment, sps: Seq<SpeakerSegment>, fallback: Seq<char>) -> Seq<
    char,
> {
    match best_speaker(seg, sps, sps.len() as int) {
        Some(i) => sps[i].speaker@,
        None => fallback,
    }
}

/// The attribution picks the majority speaker: positive overlap, no other
/// segment overlapping more, and every earlier segment overlapping less
/// (ties go to the earlier segment). With no overlap at all, the fallback.
pub proof fn lemma_best_speaker(seg: AsrSegment, sps: Seq<SpeakerSegment>, k: int)
    requires
        0 <= k <= sps.len(),
    ensures
        best_speaker(seg, sps, k) matches Some(b) ==> {
            &&& 0 <= b < k
            &&& seg_overlap(seg, sps[b]) > 0
            &&& forall|j: int| 0 <= j < k ==> #[trigger] seg_overlap(seg, sps[j]) <= seg_overlap(
                seg,
                sps[b],
            )
            &&& forall|j: int| 0 <= j < b ==> #[trigger] seg_overlap(seg, sps[j]) < seg_overlap(
                seg,
                sps[b],
            )
        },
        best_speaker(seg, sps, k) is None ==> forall|j: int|
            0 <= j < k ==> #[trigger] seg_overlap(seg, sps[j]) == 0,
    decreases k,
{
    if k > 0 {
        lemma_best_speaker(seg, sps, k - 1);
    }
}

pub fn overlap_ms(a_start: u64, a_end: u64, b_start: u64, b_end: u64) -> (r: u64)
    ensures
        r == overlap(a_start, a_end, b_start, b_end),
{
    let start = if a_start >= b_start {
        a_start
    } else {
        b_start
    };
    let end = if a_end <= b_end {
        a_end
    } else {
        b_end
    };
    if end >= start {
        end - start
    } else {
        0
    }
}

/// Assign each ASR segment the speaker whose diarization span overlaps it
/// most. Ties break to the earlier speaker segment; ASR spans with no
/// overlap at all get `fallback_speaker`.
pub fn attribute_speakers(
    asr: &[AsrSegment],
    speakers: &[SpeakerSegment],
    fallback_speaker: &str,
) -> (turns: Vec<Turn>)
    ensures
        turns@.len() == asr@.len(),
        forall|i: int|
            0 <= i < asr@.len() ==> {
                &&& (#[trigger] turns@[i]).speaker@ == speaker_for(
                    asr@[i],
                    speakers@,
                    fallback_speaker@,
                )
                &&& turns@[i].text == asr@[i].text
                &&& turns@[i].start_ms == asr@[i].start_ms
                &&& turns@[i].end_ms == asr@[i].end_ms
            },
{
    let mut turns: Vec<Turn> = Vec::new();
    let mut i: usize = 0;
    while i < asr.len()
        invariant
            i <= asr@.len(),
            turns@.len() == i,
            forall|k: int|
                0 <= k < i ==> {
                    &&& (#[trigger] turns@[k]).speaker@ == speaker_for(
                        asr@[k],
                        speakers@,
                        fallback_speaker@,
                    )
                    &&& turns@[k].text == asr@[k].text
                    &&& turns@[k].start_ms == asr@[k].start_ms
                    &&& turns@[k].end_ms == asr@[k].end_ms
                },
        decreases asr@.len() - i,
    {
        let seg = &asr[i];
        let mut best: Option<usize> = None;
        let mut best_overlap: u64 = 0;
        let mut j: usize = 0;
        while j < speakers.len()
            invariant
                j <= speakers@.len(),
                *seg == asr@[i as int],
                match best {
                    Some(b) => best_speaker(*seg, speakers@, j as int) == Some(b as int) && b < j
                        && best_overlap == seg_overlap(*seg, speakers@[b as int]),
                    None => best_speaker(*seg, speakers@, j as int) is None,
                },
            decreases speakers@.len() - j,
        {
            let sp = &speakers[j];
            let o = overlap_ms(seg.start_ms, seg.end_ms, sp.start_ms, sp.end_ms);
            if o > 0 {
                let better = match best {
                    None => true,
                    Some(_) => o > best_overlap,
                };
                if better {
                    best = Some(j);
                    best_overlap = o;
                }
            }
            j += 1;
        }
        let speaker = match best {
            Some(b) => speakers[b].speaker.clone(),
            None => string_from(fallback_speaker),
        };
        turns.push(
            Turn {
                speaker,
                text: seg.text.clone(),
                start_ms: seg.start_ms,
                end_ms: seg.end_ms,
            },
        );
        i += 1;
    }
    turns
}

/// The abstract content of a turn: speaker, text, start, end.
pub open spec fn turn_view(t: Turn) -> (Seq<char>, Seq<char>, u64, u64) {
    (t.speaker@, t.text@, t.start_ms, t.end_ms)
}

pub open spec fn turn_views(ts: Seq<Turn>) -> Seq<(Seq<char>, Seq<char>, u64, u64)> {
    ts.map_values(|t: Turn| turn_view(t))
}

/// Silence between the end of one turn and the start of the next
/// (zero when they overlap).
pub open spec fn gap(prev_end: u64, next_start: u64) -> nat {
    if next_start >= prev_end {
        (next_start - prev_end) as nat
    } else {
        0
    }
}

/// Whether `next` continues `prev`: same speaker, within the gap.
pub open spec fn continues(
    prev: (Seq<char>, Seq<char>, u64, u64),
    next: (Seq<char>, Seq<char>, u64, u64),
    max_gap_ms: u64,
) -> bool {
    prev.0 == next.0 && gap(prev.3, next.2) <= max_gap_ms
}

/// Coalescing the first `k` turns: each turn either extends the last
/// output turn (text joined with a space, end moved) or starts a new one.
pub open spec fn coalesced(ts: Seq<(Seq<char>, Seq<char>, u64, u64)>, max_gap_ms: u64, k: int) -> Seq<
    (Seq<char>, Seq<char>, u64, u64),
>
    decreases k,
{
    if k <= 0 {
        seq![]
    } else {
        let out = coalesced(ts, max_gap_ms, k - 1);
        let t = ts[k - 1];
        if out.len() > 0 && continues(out.last(), t, max_gap_ms) {
            let p = out.last();
            out.update(out.len() - 1, (p.0, p.1 + seq![' '] + t.1, p.2, t.3))
        } else {
            out.push(t)
        }
    }
}

/// Merge consecutive turns from the same speaker into one turn when the
/// silence between them is at most `max_gap_ms`.
pub fn coalesce_turns(turns: Vec<Turn>, max_gap_ms: u64) -> (out: Vec<Turn>)
    ensures
        turn_views(out@) == coalesced(turn_views(turns@), max_gap_ms, turns@.len() as int),
{
    let ghost tv = turn_views(turns@);
    let mut out: Vec<Turn> = Vec::new();
    let mut rest = turns;
    let n = rest.len();
    let mut k: usize = 0;
    // Consume from the back so every turn moves without a copy.
    let mut pending: Vec<Turn> = Vec::new();
    while rest.len() > 0
        invariant
            pending@.len() + rest@.len() == n,
            forall|j: int| 0 <= j < pending@.len() ==> turn_view(#[trigger] pending@[j]) == tv[n - 1 - j],
            forall|j: int| 0 <= j < rest@.len() ==> turn_view(#[trigger] rest@[j]) == tv[j],
            tv.len() == n,
        decreases rest@.len(),
    {
        let t = rest.pop().unwrap();
        pending.push(t);
    }
    while k < n
        invariant
            k <= n,
            pending@.len() == n - k,
            tv.len() == n,
            forall|j: int| 0 <= j < pending@.len() ==> turn_view(#[trigger] pending@[j]) == tv[n - 1 - j],
            turn_views(out@) == coalesced(tv, max_gap_ms, k as int),
        decreases n - k,
    {
        let turn = pending.pop().unwrap();
        let ghost tvk = turn_view(turn);
        assert(tvk == tv[k as int]);
        let ghost before = turn_views(out@);
        let merge = if out.len() > 0 {
            let last = out.len() - 1;
            let prev = &out[last];
            let g = if turn.start_ms >= prev.end_ms {
                turn.start_ms - prev.end_ms
            } else {
                0
            };
            prev.speaker == turn.speaker && g <= max_gap_ms
        } else {
            false
        };
        proof {
            if out@.len() > 0 {
                assert(before.last() == turn_view(out@.last()));
            }
        }
        if merge {
            let ghost old_out = out@;
            let mut prev = out.pop().unwrap();
            push_char(&mut prev.text, ' ');
            push_str(&mut prev.text, turn.text.as_str());
            prev.end_ms = turn.end_ms;
            let ghost pv = turn_view(prev);
            out.push(prev);
            proof {
                assert(old_out.last() == old_out[old_out.len() - 1]);
                assert(pv == (before.last().0, before.last().1 + seq![' '] + tvk.1, before.last().2, tvk.3));
                assert(out@ == old_out.subrange(0, old_out.len() - 1).push(out@.last()));
                assert forall|x: int| 0 <= x < out@.len() - 1 implies turn_view(#[trigger] out@[x]) == before[x] by {
                    assert(out@[x] == old_out[x]);
                }
                assert(turn_views(out@) =~= before.update(
                    before.len() - 1,
                    (before.last().0, before.last().1 + seq![' '] + tvk.1, before.last().2, tvk.3),
                ));
            }
        } else {
            out.push(turn);
            proof {
                assert(turn_views(out@) =~= before.push(tvk));
            }
        }
        k += 1;
    }
    out
}

/// No two neighbours of a coalesced transcript could be merged further.
pub open spec fn fully_coalesced(ts: Seq<(Seq<char>, Seq<char>, u64, u64)>, max_gap_ms: u64) -> bool {
    forall|j: int| 0 <= j < ts.len() - 1 ==> !continues(#[trigger] ts[j], ts[j + 1], max_gap_ms)
}

/// Coalescing leaves no mergeable neighbours behind.
pub proof fn lemma_coalesced_is_full(ts: Seq<(Seq<char>, Seq<char>, u64, u64)>, max_gap_ms: u64, k: int)
    requires
        0 <= k <= ts.len(),
    ensures
        fully_coalesced(coalesced(ts, max_gap_ms, k), max_gap_ms),
        coalesced(ts, max_gap_ms, k).len() <= k,
        k > 0 ==> coalesced(ts, max_gap_ms, k).len() > 0,
    decreases k,
{
    if k > 0 {
        lemma_coalesced_is_full(ts, max_gap_ms, k - 1);
        let out = coalesced(ts, max_gap_ms, k - 1);
        let t = ts[k - 1];
        let r = coalesced(ts, max_gap_ms, k);
        if out.len() > 0 && continues(out.last(), t, max_gap_ms) {
            assert forall|j: int| 0 <= j < r.len() - 1 implies !continues(
                #[trigger] r[j],
                r[j + 1],
                max_gap_ms,
            ) by {
                if j + 1 == r.len() - 1 {
                    // The merged turn keeps its predecessor's speaker and
                    // start, so the earlier verdict still stands.
                    assert(r[j] == out[j]);
                    assert(!continues(out[j], out[j + 1], max_gap_ms));
                } else {
                    assert(r[j] == out[j] && r[j + 1] == out[j + 1]);
                }
            }
        } else {
            assert forall|j: int| 0 <= j < r.len() - 1 implies !continues(
                #[trigger] r[j],
                r[j + 1],
                max_gap_ms,
            ) by {
                if j + 1 < out.len() {
                    assert(r[j] == out[j] && r[j + 1] == out[j + 1]);
                }
            }
        }
    }
}

/// Coalescing is idempotent: a fully coalesced transcript is unchanged.
pub proof fn lemma_coalesce_idempotent(ts: Seq<(Seq<char>, Seq<char>, u64, u64)>, max_gap_ms: u64, k: int)
    requires
        0 <= k <= ts.len(),
        fully_coalesced(ts, max_gap_ms),
    ensures
        coalesced(ts, max_gap_ms, k) == ts.subrange(0, k),
    decreases k,
{
    if k > 0 {
        lemma_coalesce_idempotent(ts, max_gap_ms, k - 1);
        let out = coalesced(ts, max_gap_ms, k - 1);
        if k > 1 {
            assert(out.last() == ts[k - 2]);
            assert(!continues(ts[k - 2], ts[k - 1], max_gap_ms));
        }
        assert(out.push(ts[k - 1]) =~= ts.subrange(0, k));
    }
}

/// Stable chronological merge: local turns go first on equal starts.
pub open spec fn merged(local: Seq<Turn>, remote: Seq<Turn>) -> Seq<Turn>
    decreases local.len() + remote.len(),
{
    if local.len() == 0 {
        remote
    } else if remote.len() == 0 {
        local
    } else if local[0].start_ms <= remote[0].start_ms {
        seq![local[0]] + merged(local.drop_first(), remote)
    } else {
        seq![remote[0]] + merged(local, remote.drop_first())
    }
}

/// Zip the local-user track with the remote track into one chronological
/// transcript. Stable on ties (local first).
pub fn interleave(local: Vec<Turn>, remote: Vec<Turn>) -> (all: Vec<Turn>)
    ensures
        all@ == merged(local@, remote@),
{
    let mut all: Vec<Turn> = Vec::new();
    let mut i: usize = 0;
    let mut j: usize = 0;
    assert(local@.subrange(0, local@.len() as int) == local@);
    assert(remote@.subrange(0, remote@.len() as int) == remote@);
    assert(all@ + merged(local@, remote@) == merged(local@, remote@));
    while i < local.len() && j < remote.len()
        invariant
            i <= local@.len(),
            j <= remote@.len(),
            all@ + merged(local@.subrange(i as int, local@.len() as int), remote@.subrange(
                j as int,
                remote@.len() as int,
            )) == merged(local@, remote@),
        decreases local@.len() + remote@.len() - i - j,
    {
        let ghost l = local@.subrange(i as int, local@.len() as int);
        let ghost r = remote@.subrange(j as int, remote@.len() as int);
        if local[i].start_ms <= remote[j].start_ms {
            all.push(local[i].clone());
            proof {
                assert(l.drop_first() =~= local@.subrange(i + 1, local@.len() as int));
                assert(merged(l, r) == seq![l[0]] + merged(l.drop_first(), r));
            }
            i += 1;
        } else {
            all.push(remote[j].clone());
            proof {
                assert(r.drop_first() =~= remote@.subrange(j + 1, remote@.len() as int));
                assert(merged(l, r) == seq![r[0]] + merged(l, r.drop_first()));
            }
            j += 1;
        }
        proof {
            let l2 = local@.subrange(i as int, local@.len() as int);
            let r2 = remote@.subrange(j as int, remote@.len() as int);
            assert(all@ + merged(l2, r2) =~= merged(local@, remote@));
        }
    }
    let ghost head = all@;
    let ghost l = local@.subrange(i as int, local@.len() as int);
    let ghost r = remote@.subrange(j as int, remote@.len() as int);
    if i < local.len() {
        assert(r.len() == 0);
        assert(merged(l, r) == l);
        append_clones(&mut all, &local, i);
    } else {
        assert(l.len() == 0);
        assert(merged(l, r) == r);
        append_clones(&mut all, &remote, j);
    }
    all
}

/// Appends clones of `src[from..]`.
fn append_clones(all: &mut Vec<Turn>, src: &Vec<Turn>, from: usize)
    requires
        from <= src@.len(),
    ensures
        final(all)@ == old(all)@ + src@.subrange(from as int, src@.len() as int),
{
    let mut k = from;
    while k < src.len()
        invariant
            from <= k <= src@.len(),
            all@ == old(all)@ + src@.subrange(from as int, k as int),
        decreases src@.len() - k,
    {
        all.push(src[k].clone());
        proof {
            assert(src@.subrange(from as int, k + 1) =~= src@.subrange(from as int, k as int).push(
                src@[k as int],
            ));
        }
        k += 1;
    }
}

/// Turns in non-decreasing start order.
pub open spec fn chronological(ts: Seq<Turn>) -> bool {
    forall|a: int, b: int| 0 <= a < b < ts.len() ==> (#[trigger] ts[a]).start_ms <= (
    #[trigger] ts[b]).start_ms
}

/// Interleaving keeps every turn (lengths add up) and, when both tracks
/// are chronological, yields a chronological transcript.
pub proof fn lemma_merged(local: Seq<Turn>, remote: Seq<Turn>)
    ensures
        merged(local, remote).len() == local.len() + remote.len(),
        chronological(local) && chronological(remote) ==> chronological(merged(local, remote)),
        merged(local, remote).len() > 0 ==> (merged(local, remote)[0] == local[0] || merged(
            local,
            remote,
        )[0] == remote[0]),
    decreases local.len() + remote.len(),
{
    if local.len() > 0 && remote.len() > 0 {
        if local[0].start_ms <= remote[0].start_ms {
            lemma_merged(local.drop_first(), remote);
            let m = merged(local.drop_first(), remote);
            if chronological(local) && chronological(remote) {
                assert(chronological(local.drop_first()));
                let r = seq![local[0]] + m;
                assert forall|a: int, b: int| 0 <= a < b < r.len() implies (
                #[trigger] r[a]).start_ms <= (#[trigger] r[b]).start_ms by {
                    if a == 0 {
                        lemma_merged_lower_bound(local.drop_first(), remote, local[0].start_ms);
                        assert(r[b] == m[b - 1]);
                    } else {
                        assert(r[a] == m[a - 1] && r[b] == m[b - 1]);
                    }
                }
            }
        } else {
            lemma_merged(local, remote.drop_first());
            let m = merged(local, remote.drop_first());
            if chronological(local) && chronological(remote) {
                assert(chronological(remote.drop_first()));
                let r = seq![remote[0]] + m;
                assert forall|a: int, b: int| 0 <= a < b < r.len() implies (
                #[trigger] r[a]).start_ms <= (#[trigger] r[b]).start_ms by {
                    if a == 0 {
                        lemma_merged_lower_bound(local, remote.drop_first(), remote[0].start_ms);
                        assert(r[b] == m[b - 1]);
                    } else {
                        assert(r[a] == m[a - 1] && r[b] == m[b - 1]);
                    }
                }
            }
        }
    }
}

proof fn lemma_merged_lower_bound(local: Seq<Turn>, remote: Seq<Turn>, lb: u64)
    requires
        forall|a: int| 0 <= a < local.len() ==> lb <= (#[trigger] local[a]).start_ms,
        forall|a: int| 0 <= a < remote.len() ==> lb <= (#[trigger] remote[a]).start_ms,
    ensures
        forall|a: int|
            0 <= a < merged(local, remote).len() ==> lb <= (#[trigger] merged(
                local,
                remote,
            )[a]).start_ms,
    decreases local.len() + remote.len(),
{
    if local.len() > 0 && remote.len() > 0 {
        if local[0].start_ms <= remote[0].start_ms {
            lemma_merged_lower_bound(local.drop_first(), remote, lb);
            let m = merged(local.drop_first(), remote);
            assert forall|a: int| 0 <= a < merged(local, remote).len() implies lb <= (
            #[trigger] merged(local, remote)[a]).start_ms by {
                if a > 0 {
                    assert(merged(local, remote)[a] == m[a - 1]);
                }
            }
        } else {
            lemma_merged_lower_bound(local, remote.drop_first(), lb);
            let m = merged(local, remote.drop_first());
            assert forall|a: int| 0 <= a < merged(local, remote).len() implies lb <= (
            #[trigger] merged(local, remote)[a]).start_ms by {
                if a > 0 {
                    assert(merged(local, remote)[a] == m[a - 1]);
                }
            }
        }
    }
}

} // verus!

verus! {

/// Interleaving keeps exactly the turns of both tracks: nothing is lost or
/// duplicated.
pub proof fn lemma_merged_keeps_turns(local: Seq<Turn>, remote: Seq<Turn>)
    ensures
        merged(local, remote).to_multiset() == local.to_multiset().add(remote.to_multiset()),
    decreases local.len() + remote.len(),
{
    broadcast use vstd::seq_lib::group_to_multiset_ensures;
    if local.len() == 0 {
        assert(local =~= Seq::<Turn>::empty());
    } else if remote.len() == 0 {
        assert(remote =~= Seq::<Turn>::empty());
    } else if local[0].start_ms <= remote[0].start_ms {
        lemma_merged_keeps_turns(local.drop_first(), remote);
        assert(local == seq![local[0]] + local.drop_first());
        vstd::seq_lib::lemma_multiset_commutative(seq![local[0]], local.drop_first());
        vstd::seq_lib::lemma_multiset_commutative(
            seq![local[0]],
            merged(local.drop_first(), remote),
        );
    } else {
        lemma_merged_keeps_turns(local, remote.drop_first());
        assert(remote == seq![remote[0]] + remote.drop_first());
        vstd::seq_lib::lemma_multiset_commutative(seq![remote[0]], remote.drop_first());
        vstd::seq_lib::lemma_multiset_commutative(
            seq![remote[0]],
            merged(local, remote.drop_first()),
        );
    }
}

/// Coalescing never adds turns, and the coalesced run spans the same time:
/// it starts when the first input turn starts and ends when the last ends.
pub proof fn lemma_coalesced_span(ts: Seq<(Seq<char>, Seq<char>, u64, u64)>, max_gap_ms: u64, k: int)
    requires
        0 < k <= ts.len(),
    ensures
        1 <= coalesced(ts, max_gap_ms, k).len() <= k,
        coalesced(ts, max_gap_ms, k)[0].2 == ts[0].2,
        coalesced(ts, max_gap_ms, k).last().3 == ts[k - 1].3,
    decreases k,
{
    let cur = coalesced(ts, max_gap_ms, k);
    if k > 1 {
        lemma_coalesced_span(ts, max_gap_ms, k - 1);
        let out = coalesced(ts, max_gap_ms, k - 1);
        let t = ts[k - 1];
        if out.len() > 0 && continues(out.last(), t, max_gap_ms) {
            let p = out.last();
            assert(cur == out.update(out.len() - 1, (p.0, p.1 + seq![' '] + t.1, p.2, t.3)));
            assert(cur[0].2 == out[0].2);
        } else {
            assert(cur == out.push(t));
            assert(cur[0] == out[0]);
        }
    } else {
        assert(coalesced(ts, max_gap_ms, 0) == Seq::<(Seq<char>, Seq<char>, u64, u64)>::empty());
        assert(cur == seq![ts[0]]);
    }
}

} // verus!

verus! {

/// The fallback label is used only when no speaker span overlaps the
/// segment at all. Otherwise the segment goes to a speaker span with the
/// largest overlap — the earliest such span on ties — whatever share of
/// the segment that overlap covers, and the fallback plays no part.
pub proof fn lemma_speaker_majority(
    seg: AsrSegment,
    sps: Seq<SpeakerSegment>,
    fallback: Seq<char>,
    other_fallback: Seq<char>,
)
    ensures
        (forall|j: int| 0 <= j < sps.len() ==> #[trigger] seg_overlap(seg, sps[j]) == 0)
            ==> speaker_for(seg, sps, fallback) == fallback,
        (exists|j: int| 0 <= j < sps.len() && #[trigger] seg_overlap(seg, sps[j]) > 0) ==> {
            &&& speaker_for(seg, sps, fallback) == speaker_for(seg, sps, other_fallback)
            &&& exists|b: int|
                0 <= b < sps.len() && #[trigger] sps[b].speaker@ == speaker_for(seg, sps, fallback)
                    && seg_overlap(seg, sps[b]) > 0 && (forall|j: int|
                    0 <= j < sps.len() ==> #[trigger] seg_overlap(seg, sps[j]) <= seg_overlap(
                        seg,
                        sps[b],
                    )) && (forall|j: int|
                    0 <= j < b ==> #[trigger] seg_overlap(seg, sps[j]) < seg_overlap(seg, sps[b]))
        },
{
    lemma_best_speaker(seg, sps, sps.len() as int);
    if exists|j: int| 0 <= j < sps.len() && #[trigger] seg_overlap(seg, sps[j]) > 0 {
        let j = choose|j: int| 0 <= j < sps.len() && #[trigger] seg_overlap(seg, sps[j]) > 0;
        assert(best_speaker(seg, sps, sps.len() as int) is Some);
        let b = best_speaker(seg, sps, sps.len() as int).unwrap();
        assert(sps[b].speaker@ == speaker_for(seg, sps, fallback));
    } else {
        if best_speaker(seg, sps, sps.len() as int) is Some {
            let b = best_speaker(seg, sps, sps.len() as int).unwrap();
            assert(seg_overlap(seg, sps[b]) > 0);
        }
    }
}

} // verus!
