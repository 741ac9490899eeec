//! Planar-to-interleaved conversion of system-audio buffers.
//!
//! The system-audio stream delivers planar audio: one buffer per channel,
//! each a run of 4-byte samples. WAV files expect interleaved frames
//! (L,R,L,R,...); writing each planar buffer straight through would
//! scramble the file into [all-L][all-R]. Only whole frames present in
//! every channel are kept. Samples are moved as their 4 bytes; turning them
//! into numbers is the writer's business.

use vstd::prelude::*;

verus! {

/// Bytes per sample.
pub const SAMPLE_BYTES: usize = 4;

/// Whole samples every one of `chs[..k]` holds (unbounded when `k == 0`).
pub open spec fn min_frames(chs: Seq<Seq<u8>>, k: int) -> Option<nat>
    decreases k,
{
    if k <= 0 {
        None
    } else {
        let here = chs[k - 1].len() / 4;
        match min_frames(chs, k - 1) {
            Some(m) => Some(if here < m { here } else { m }),
            None => Some(here),
        }
    }
}

/// The frames a buffer set yields: none without channels.
pub open spec fn frame_count(chs: Seq<Seq<u8>>) -> nat {
    match min_frames(chs, chs.len() as int) {
        Some(m) => m,
        None => 0,
    }
}

/// Frame `f` of `chs[..k]`: the `f`-th sample of each channel in turn.
pub open spec fn frame_bytes(chs: Seq<Seq<u8>>, f: int, k: int) -> Seq<u8>
    decreases k,
{
    if k <= 0 {
        seq![]
    } else {
        frame_bytes(chs, f, k - 1) + chs[k - 1].subrange(4 * f, 4 * f + 4)
    }
}

/// The first `n` frames, interleaved.
pub open spec fn interleaved(chs: Seq<Seq<u8>>, n: int) -> Seq<u8>
    decreases n,
{
    if n <= 0 {
        seq![]
    } else {
        interleaved(chs, n - 1) + frame_bytes(chs, n - 1, chs.len() as int)
    }
}

pub open spec fn views(v: Seq<Vec<u8>>) -> Seq<Seq<u8>> {
    v.map_values(|b: Vec<u8>| b@)
}

proof fn lemma_min_frames_bound(chs: Seq<Seq<u8>>, k: int)
    requires
        0 <= k <= chs.len(),
    ensures
        match min_frames(chs, k) {
            Some(m) => forall|c: int| 0 <= c < k ==> m <= #[trigger] chs[c].len() / 4,
            None => k == 0,
        },
    decreases k,
{
    if k > 0 {
        lemma_min_frames_bound(chs, k - 1);
    }
}

/// Interleaves one buffer set: frame after frame, each frame holding one
/// sample of every channel in channel order.
pub fn interleave_planar(channels: &Vec<Vec<u8>>) -> (r: Vec<u8>)
    ensures
        r@ == interleaved(views(channels@), frame_count(views(channels@)) as int),
{
    let ghost chs = views(channels@);
    let nch = channels.len();
    let mut frames: usize = 0;
    let mut k: usize = 0;
    while k < nch
        invariant
            k <= nch == channels@.len() == chs.len(),
            chs == views(channels@),
            match min_frames(chs, k as int) {
                Some(m) => frames == m,
                None => k == 0 && frames == 0,
            },
        decreases nch - k,
    {
        let here = channels[k].len() / SAMPLE_BYTES;
        proof {
            assert(chs[k as int] == channels@[k as int]@);
        }
        if k == 0 || here < frames {
            frames = here;
        }
        k = k + 1;
    }
    proof {
        lemma_min_frames_bound(chs, nch as int);
    }
    let mut out: Vec<u8> = Vec::new();
    let mut f: usize = 0;
    while f < frames
        invariant
            f <= frames == frame_count(chs),
            nch == channels@.len() == chs.len(),
            chs == views(channels@),
            forall|c: int| 0 <= c < nch ==> frames <= #[trigger] chs[c].len() / 4,
            out@ == interleaved(chs, f as int),
        decreases frames - f,
    {
        let ghost before = out@;
        let mut c: usize = 0;
        while c < nch
            invariant
                c <= nch == channels@.len() == chs.len(),
                f < frames,
                chs == views(channels@),
                forall|c2: int| 0 <= c2 < nch ==> frames <= #[trigger] chs[c2].len() / 4,
                out@ == before + frame_bytes(chs, f as int, c as int),
            decreases nch - c,
        {
            let ch = &channels[c];
            let len = ch.len();
            proof {
                assert(chs[c as int] == ch@);
                assert(frames <= chs[c as int].len() / 4);
                assert(f * 4 + 4 <= len) by (nonlinear_arith)
                    requires
                        f < frames,
                        frames <= len / 4,
                ;
            }
            let i = f * SAMPLE_BYTES;
            let ghost mid = out@;
            out.push(ch[i]);
            out.push(ch[i + 1]);
            out.push(ch[i + 2]);
            out.push(ch[i + 3]);
            proof {
                assert(ch@.subrange(4 * f, 4 * f + 4) == seq![ch@[i as int], ch@[i + 1], ch@[i + 2], ch@[i + 3]]);
                assert(out@ == mid + ch@.subrange(4 * f, 4 * f + 4));
            }
            c = c + 1;
        }
        f = f + 1;
    }
    out
}

} // verus!

verus! {

proof fn lemma_frame_len(chs: Seq<Seq<u8>>, f: int, k: int)
    requires
        0 <= f,
        0 <= k <= chs.len(),
        forall|c: int| 0 <= c < k ==> 4 * f + 4 <= #[trigger] chs[c].len(),
    ensures
        frame_bytes(chs, f, k).len() == 4 * k,
    decreases k,
{
    if k > 0 {
        lemma_frame_len(chs, f, k - 1);
    }
}

/// Interleaving keeps every byte of the whole frames: `n` frames of `c`
/// channels make `4 * n * c` bytes.
pub proof fn lemma_interleaved_len(chs: Seq<Seq<u8>>, n: int)
    requires
        0 <= n,
        forall|c: int| 0 <= c < chs.len() ==> 4 * n <= #[trigger] chs[c].len(),
    ensures
        interleaved(chs, n).len() == 4 * n * chs.len(),
    decreases n,
{
    if n > 0 {
        lemma_interleaved_len(chs, n - 1);
        assert forall|c: int| 0 <= c < chs.len() implies 4 * (n - 1) + 4 <= #[trigger] chs[c].len() by {
            assert(4 * n <= chs[c].len());
        }
        lemma_frame_len(chs, n - 1, chs.len() as int);
        let m = chs.len() as int;
        assert(interleaved(chs, n) == interleaved(chs, n - 1) + frame_bytes(chs, n - 1, m));
        assert(4 * (n - 1) * m + 4 * m == 4 * n * m) by (nonlinear_arith);
    } else {
        let m = chs.len() as int;
        assert(4 * n * m == 0) by (nonlinear_arith)
            requires
                n == 0,
        ;
    }
}

} // verus!

verus! {

proof fn lemma_frame_index(chs: Seq<Seq<u8>>, f: int, k: int, c: int, b: int)
    requires
        0 <= f,
        0 <= c < k <= chs.len(),
        0 <= b < 4,
        forall|x: int| 0 <= x < k ==> 4 * f + 4 <= #[trigger] chs[x].len(),
    ensures
        frame_bytes(chs, f, k)[4 * c + b] == chs[c][4 * f + b],
    decreases k,
{
    lemma_frame_len(chs, f, k - 1);
    if c < k - 1 {
        lemma_frame_index(chs, f, k - 1, c, b);
    }
}

/// Byte `b` of sample `f` of channel `c` lands at position
/// `4 * (channels * f + c) + b` of the interleaved output: frames in order,
/// channels in order within each frame, sample bytes kept together.
pub proof fn lemma_interleaved_index(chs: Seq<Seq<u8>>, n: int, f: int, c: int, b: int)
    requires
        0 <= f < n,
        0 <= c < chs.len(),
        0 <= b < 4,
        forall|x: int| 0 <= x < chs.len() ==> 4 * n <= #[trigger] chs[x].len(),
    ensures
        interleaved(chs, n)[4 * chs.len() * f + 4 * c + b] == chs[c][4 * f + b],
    decreases n,
{
    let m = chs.len() as int;
    lemma_interleaved_len(chs, n - 1);
    assert forall|x: int| 0 <= x < m implies 4 * (n - 1) <= #[trigger] chs[x].len() by {
        assert(4 * n <= chs[x].len());
    }
    assert forall|x: int| 0 <= x < m implies 4 * (n - 1) + 4 <= #[trigger] chs[x].len() by {
        assert(4 * n <= chs[x].len());
    }
    lemma_interleaved_len(chs, n - 1);
    assert(interleaved(chs, n) == interleaved(chs, n - 1) + frame_bytes(chs, n - 1, m));
    if f < n - 1 {
        lemma_interleaved_index(chs, n - 1, f, c, b);
        assert(4 * m * f + 4 * c + b < 4 * (n - 1) * m) by (nonlinear_arith)
            requires
                0 <= f < n - 1,
                0 <= c < m,
                0 <= b < 4,
        ;
        let a = interleaved(chs, n - 1);
        let idx = 4 * m * f + 4 * c + b;
        assert(0 <= 4 * m * f + 4 * c + b) by (nonlinear_arith)
            requires
                0 <= f,
                0 <= m,
                0 <= c,
                0 <= b,
        ;
        assert(interleaved(chs, n)[idx] == a[idx]);
    } else {
        assert(4 * m * f == 4 * (n - 1) * m) by (nonlinear_arith)
            requires
                f == n - 1,
        ;
        assert forall|x: int| 0 <= x < m implies 4 * f + 4 <= #[trigger] chs[x].len() by {
            assert(4 * n <= chs[x].len());
        }
        lemma_frame_index(chs, f, m, c, b);
        lemma_frame_len(chs, f, m);
        let a = interleaved(chs, n - 1);
        let idx = 4 * m * f + 4 * c + b;
        assert(idx == a.len() + (4 * c + b));
        assert(interleaved(chs, n)[idx] == frame_bytes(chs, n - 1, m)[4 * c + b]);
    }
}

} // verus!
