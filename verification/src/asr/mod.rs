//! Transcription stage data: timed transcript spans and the conversion of
//! an engine's raw segments (centisecond timestamps, padded text) into them.

use vstd::prelude::*;

use crate::text::{push_str, chars_of, string_of_vec, trim, trim_vec};

verus! {

/// A transcribed span with timing. `start_ms`/`end_ms` are relative to the
/// start of the audio track that produced it.
#[derive(Debug, PartialEq)]
pub struct AsrSegment {
    pub start_ms: u64,
    pub end_ms: u64,
    pub text: String,
}

impl Clone for AsrSegment {
    fn clone(&self) -> (r: Self)
        ensures
            r == *self,
    {
        AsrSegment { start_ms: self.start_ms, end_ms: self.end_ms, text: self.text.clone() }
    }
}

/// Why a transcription failed.
#[derive(Debug)]
pub enum AsrError {
    ModelLoad(String),
    Inference(String),
}

/// Largest engine timestamp (in centiseconds) whose millisecond value fits
/// in a `u64`.
pub const MAX_CENTISECONDS: i64 = 1844674407370955161;

/// Milliseconds of an engine timestamp in centiseconds; negative stamps
/// count as zero.
pub open spec fn centis_to_ms(t: i64) -> u64 {
    if t < 0 {
        0
    } else {
        (t * 10) as u64
    }
}

/// An engine's raw segment as a transcript span: the text trimmed, the
/// centisecond timestamps in milliseconds; blank segments are dropped.
pub open spec fn span_of(text: Seq<char>, t0: i64, t1: i64) -> Option<(u64, u64, Seq<char>)> {
    if trim(text).len() == 0 {
        None
    } else {
        Some((centis_to_ms(t0), centis_to_ms(t1), trim(text)))
    }
}

pub open spec fn segment_view(s: AsrSegment) -> (u64, u64, Seq<char>) {
    (s.start_ms, s.end_ms, s.text@)
}

/// Converts one raw engine segment (text, start and end in centiseconds).
pub fn segment_from_raw(text: &str, t0: i64, t1: i64) -> (r: Option<AsrSegment>)
    requires
        t0 <= MAX_CENTISECONDS,
        t1 <= MAX_CENTISECONDS,
    ensures
        match r {
            Some(seg) => span_of(text@, t0, t1) == Some(segment_view(seg)),
            None => span_of(text@, t0, t1) is None,
        },
{
    let v = chars_of(text);
    let trimmed = trim_vec(&v);
    if trimmed.len() == 0 {
        return None;
    }
    let start: u64 = if t0 < 0 {
        0
    } else {
        (t0 as u64) * 10
    };
    let end: u64 = if t1 < 0 {
        0
    } else {
        (t1 as u64) * 10
    };
    Some(AsrSegment { start_ms: start, end_ms: end, text: string_of_vec(&trimmed) })
}

/// The spans of `raw[..n]` that are not blank, in order.
pub open spec fn spans_from(raw: Seq<(String, i64, i64)>, n: int) -> Seq<(u64, u64, Seq<char>)>
    decreases n,
{
    if n <= 0 {
        seq![]
    } else {
        let rest = spans_from(raw, n - 1);
        match span_of(raw[n - 1].0@, raw[n - 1].1, raw[n - 1].2) {
            Some(s) => rest.push(s),
            None => rest,
        }
    }
}

/// Converts an engine's raw segments, dropping blank ones.
pub fn segments_from_raw(raw: &[(String, i64, i64)]) -> (r: Vec<AsrSegment>)
    requires
        forall|i: int|
            0 <= i < raw@.len() ==> (#[trigger] raw@[i]).1 <= MAX_CENTISECONDS && raw@[i].2
                <= MAX_CENTISECONDS,
    ensures
        r@.map_values(|s: AsrSegment| segment_view(s)) == spans_from(raw@, raw@.len() as int),
{
    let mut out: Vec<AsrSegment> = Vec::new();
    let mut i: usize = 0;
    while i < raw.len()
        invariant
            i <= raw@.len(),
            forall|k: int|
                0 <= k < raw@.len() ==> (#[trigger] raw@[k]).1 <= MAX_CENTISECONDS && raw@[k].2
                    <= MAX_CENTISECONDS,
            out@.map_values(|s: AsrSegment| segment_view(s)) == spans_from(raw@, i as int),
        decreases raw@.len() - i,
    {
        let ghost prev = out@;
        let entry = &raw[i];
        match segment_from_raw(entry.0.as_str(), entry.1, entry.2) {
            Some(seg) => {
                out.push(seg);
                proof {
                    assert(out@.map_values(|s: AsrSegment| segment_view(s)) == prev.map_values(
                        |s: AsrSegment| segment_view(s),
                    ).push(segment_view(out@.last())));
                }
            },
            None => {},
        }
        i = i + 1;
    }
    out
}

/// The message of a transcription error.
pub open spec fn asr_error_text(e: AsrError) -> Seq<char> {
    match e {
        AsrError::ModelLoad(m) => "model load failed: "@ + m@,
        AsrError::Inference(m) => "inference failed: "@ + m@,
    }
}

impl AsrError {
    /// The error's message, e.g. `inference failed: out of memory`.
    pub fn message(&self) -> (r: String)
        ensures
            r@ == asr_error_text(*self),
    {
        let mut out = String::new();
        match self {
            AsrError::ModelLoad(m) => {
                push_str(&mut out, "model load failed: ");
                push_str(&mut out, m.as_str());
            },
            AsrError::Inference(m) => {
                push_str(&mut out, "inference failed: ");
                push_str(&mut out, m.as_str());
            },
        }
        out
    }
}

} // verus!
