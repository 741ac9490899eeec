//! Three-stage MapReduce summarization, as a plan that the caller drives.
//!
//! Stage 1 (map): per-chunk structured extraction — decisions, arguments,
//!   data points, action items, with speakers.
//! Stage 2 (reduce): merge all extraction reports into a deduplicated outline.
//! Stage 3 (rewrite): outline → polished prose.
//!
//! Short meetings (at most `max_words_per_chunk` words) skip the map stage:
//! the whole transcript goes straight to the outline stage.
//!
//! [`SummaryPlan`] makes every decision of a run: which prompt, which
//! content and which sampling profile each model call gets, which progress
//! ticks precede it, and what the finished summary is. The caller performs
//! each call and hands the reply back with [`SummaryPlan::on_reply`]; a
//! failed call simply ends the run with its error.

use vstd::prelude::*;

use super::chunk::{
    blocks, carried, chunk_bounds, chunk_turns, chunks_of, format_chunk, formatted_chunk,
    chained, lemma_chained_overlap, lemma_chunk_bounds_chained, turn_block, turns_of, words_between, Turn,
};
use super::router::{RoutedModel, SamplingProfile};
use crate::text::{is_ws, lemma_back_ws, push_str, trim_end, word_count};

verus! {

pub const STAGE_1_PROMPT: &'static str = "You are a strict data extraction engine analyzing a transcript chunk.
Extract all substantive decisions, arguments, data points, and action items.
Use concise, complete sentences. Include the speaker's name.
Do not write a narrative summary. If a category has no relevant information, write \"None\".

Required Output Format:
Decisions Made:
* [Speaker]: [Detail]

Key Arguments & Discussion:
* [Speaker]: [Detail]

Data & Metrics Discussed:
* [Speaker]: [Detail]

Action Items:
* [Speaker]: [Detail]";

pub const STAGE_2_PROMPT: &'static str = "You are an expert synthesizer organizing raw data points into a cohesive outline.
Review the extraction reports. Merge related points, eliminate redundancies, and group them by theme.
Organize the final output into a standard markdown outline with Main Topics and Subtopics.
Preserve the [mm:ss] timestamps of the most important points so they remain citable.
Do not include introductory or concluding conversational text.";

pub const STAGE_3_PROMPT: &'static str = "You are an expert writer translating an outline into polished meeting notes.
Write in a direct, calm, and human tone.
Avoid all corporate filler and AI-speak. Do not use em dashes anywhere.
Structure the notes using clear H2 and H3 headings, ending with an \"Action Items\" section listing owner and task.
Keep the [mm:ss] timestamp markers from the outline attached to the points they belong to; do not invent new ones.
Do not include generic opening remarks or signatures.";

/// Separator between extraction reports in the outline stage's input.
pub const REPORT_SEPARATOR: &'static str = "\n\n=== NEXT CHUNK ===\n\n";

/// Chunking parameters of a summarization run.
#[derive(Debug, Clone, Copy)]
pub struct SummarizeConfig {
    pub max_words_per_chunk: usize,
    pub overlap_turns: usize,
}

impl Default for SummarizeConfig {
    fn default() -> (r: Self)
        ensures
            r.max_words_per_chunk == 1200,
            r.overlap_turns == 2,
    {
        SummarizeConfig { max_words_per_chunk: 1200, overlap_turns: 2 }
    }
}

/// A finished summary.
#[derive(Debug)]
pub struct SummaryOutput {
    pub outline: String,
    pub notes: String,
    /// Which model produced it (for provenance).
    pub model: RoutedModel,
}

/// The stage a progress report is about.
#[derive(Debug, Clone, Copy, PartialEq, Eq, Structural)]
pub enum ProgressStage {
    Extract,
    Outline,
    Rewrite,
}

impl ProgressStage {
    /// The stage's name as progress reports carry it.
    pub fn name(&self) -> (r: &'static str)
        ensures
            *self is Extract ==> r@ == "extract"@,
            *self is Outline ==> r@ == "outline"@,
            *self is Rewrite ==> r@ == "rewrite"@,
    {
        match self {
            ProgressStage::Extract => "extract",
            ProgressStage::Outline => "outline",
            ProgressStage::Rewrite => "rewrite",
        }
    }
}

/// One progress report: `done` of `total` steps of `stage`.
#[derive(Debug, Clone, Copy, PartialEq, Eq, Structural)]
pub struct ProgressTick {
    pub stage: ProgressStage,
    pub done: usize,
    pub total: usize,
}

/// The system prompt of a stage call.
#[derive(Debug, Clone, Copy, PartialEq, Eq, Structural)]
pub enum StagePrompt {
    /// Stage 1: per-chunk extraction.
    Extraction,
    /// Stage 2: merge into an outline.
    Outline,
    /// Stage 3: rewrite as notes.
    Rewrite,
}

impl StagePrompt {
    /// The prompt's text.
    pub fn text(&self) -> (r: &'static str)
        ensures
            *self is Extraction ==> r@ == STAGE_1_PROMPT@,
            *self is Outline ==> r@ == STAGE_2_PROMPT@,
            *self is Rewrite ==> r@ == STAGE_3_PROMPT@,
    {
        match self {
            StagePrompt::Extraction => STAGE_1_PROMPT,
            StagePrompt::Outline => STAGE_2_PROMPT,
            StagePrompt::Rewrite => STAGE_3_PROMPT,
        }
    }
}

/// One model call: system prompt, user content, sampling profile.
#[derive(Debug)]
pub struct StageCall {
    pub prompt: StagePrompt,
    pub content: String,
    pub profile: SamplingProfile,
}

/// What the caller does next.
#[derive(Debug)]
pub enum PlanAction {
    /// Make this call and hand its reply to [`SummaryPlan::on_reply`].
    Call(StageCall),
    /// The run is over.
    Finish(SummaryOutput),
}

/// Progress reports to emit, then the next action.
#[derive(Debug)]
pub struct PlanStep {
    pub progress: Vec<ProgressTick>,
    pub action: PlanAction,
}

/// The next action as plain values.
pub enum ActionView {
    Call(StagePrompt, Seq<char>, SamplingProfile),
    Finish(Seq<char>, Seq<char>),
}

pub open spec fn tick(stage: ProgressStage, done: int, total: int) -> ProgressTick {
    ProgressTick { stage, done: done as usize, total: total as usize }
}

/// `parts` joined with `sep` between consecutive parts.
pub open spec fn joined(parts: Seq<Seq<char>>, sep: Seq<char>) -> Seq<char>
    decreases parts.len(),
{
    if parts.len() == 0 {
        Seq::empty()
    } else if parts.len() == 1 {
        parts[0]
    } else {
        joined(parts.drop_last(), sep) + sep + parts.last()
    }
}

/// The step that follows once `replies` (in call order) have come back.
///
/// Single pass (`inputs` is the whole transcript): outline, then rewrite.
/// MapReduce (`inputs` are the chunk texts): one extraction per chunk, then
/// the outline of the joined reports, then the rewrite of the outline.
pub open spec fn expected_step(single: bool, inputs: Seq<Seq<char>>, replies: Seq<Seq<char>>) -> (
    Seq<ProgressTick>,
    ActionView,
) {
    let k = replies.len() as int;
    if single {
        if k == 0 {
            (
                seq![tick(ProgressStage::Extract, 0, 1)],
                ActionView::Call(StagePrompt::Outline, inputs[0], SamplingProfile::Strict),
            )
        } else if k == 1 {
            (
                seq![tick(ProgressStage::Extract, 1, 1), tick(ProgressStage::Rewrite, 0, 1)],
                ActionView::Call(StagePrompt::Rewrite, replies[0], SamplingProfile::Prose),
            )
        } else {
            (seq![tick(ProgressStage::Rewrite, 1, 1)], ActionView::Finish(replies[0], replies[1]))
        }
    } else {
        let n = inputs.len() as int;
        if k < n {
            (
                seq![tick(ProgressStage::Extract, k, n)],
                ActionView::Call(StagePrompt::Extraction, inputs[k], SamplingProfile::Strict),
            )
        } else if k == n {
            (
                seq![tick(ProgressStage::Extract, n, n), tick(ProgressStage::Outline, 0, 1)],
                ActionView::Call(
                    StagePrompt::Outline,
                    joined(replies, REPORT_SEPARATOR@),
                    SamplingProfile::Strict,
                ),
            )
        } else if k == n + 1 {
            (
                seq![tick(ProgressStage::Outline, 1, 1), tick(ProgressStage::Rewrite, 0, 1)],
                ActionView::Call(StagePrompt::Rewrite, replies[n], SamplingProfile::Prose),
            )
        } else {
            (seq![tick(ProgressStage::Rewrite, 1, 1)], ActionView::Finish(replies[n], replies[n + 1]))
        }
    }
}

/// Number of model calls a run makes.
pub open spec fn calls_in(single: bool, inputs: Seq<Seq<char>>) -> int {
    if single {
        2
    } else {
        inputs.len() + 2int
    }
}

/// A plan's state as plain values.
pub struct PlanView {
    pub single: bool,
    pub inputs: Seq<Seq<char>>,
    pub replies: Seq<Seq<char>>,
    pub model: RoutedModel,
}

/// Whether a run on `turns` skips the map stage.
pub open spec fn is_single_pass(turns: Seq<Turn>, config: SummarizeConfig) -> bool {
    words_between(turns, 0, turns.len() as int) <= config.max_words_per_chunk
}

/// The texts a run on `turns` feeds its first stage: the whole transcript
/// for a single pass, else one formatted text per chunk.
pub open spec fn stage_inputs(turns: Seq<Turn>, config: SummarizeConfig) -> Seq<Seq<char>> {
    if is_single_pass(turns, config) {
        seq![formatted_chunk(turns)]
    } else {
        chunks_of(turns, config.max_words_per_chunk as nat, config.overlap_turns as nat).map_values(
            |c: Seq<Turn>| formatted_chunk(c),
        )
    }
}

pub open spec fn strings(v: Seq<String>) -> Seq<Seq<char>> {
    v.map_values(|s: String| s@)
}

pub open spec fn step_view(s: PlanStep) -> (Seq<ProgressTick>, ActionView) {
    (
        s.progress@,
        match s.action {
            PlanAction::Call(c) => ActionView::Call(c.prompt, c.content@, c.profile),
            PlanAction::Finish(o) => ActionView::Finish(o.outline@, o.notes@),
        },
    )
}

/// A summarization run in progress.
pub struct SummaryPlan {
    model: RoutedModel,
    single: bool,
    inputs: Vec<String>,
    replies: Vec<String>,
}

impl View for SummaryPlan {
    type V = PlanView;

    closed spec fn view(&self) -> PlanView {
        PlanView {
            single: self.single,
            inputs: strings(self.inputs@),
            replies: strings(self.replies@),
            model: self.model,
        }
    }
}

/// Total words of `turns` (`split_whitespace().count()` summed).
fn total_words(turns: &[Turn]) -> (n: usize)
    requires
        words_between(turns@, 0, turns@.len() as int) <= usize::MAX,
    ensures
        n == words_between(turns@, 0, turns@.len() as int),
{
    let mut n: usize = 0;
    let mut i: usize = 0;
    while i < turns.len()
        invariant
            i <= turns@.len(),
            n == words_between(turns@, 0, i as int),
            words_between(turns@, 0, turns@.len() as int) <= usize::MAX,
        decreases turns@.len() - i,
    {
        proof {
            crate::llm::chunk::lemma_words_between_mono(
                turns@,
                0,
                i + 1,
                0,
                turns@.len() as int,
            );
        }
        n = n + word_count(turns[i].text.as_str());
        i = i + 1;
    }
    n
}

impl SummaryPlan {
    /// Whether every call of the run has been answered.
    pub open spec fn is_done(&self) -> bool {
        self@.replies.len() >= calls_in(self@.single, self@.inputs)
    }

    /// A plan that is consistent: one input for a single pass, and no more
    /// replies than calls.
    pub closed spec fn wf(&self) -> bool {
        &&& (self.single ==> self.inputs@.len() == 1)
        &&& self.replies@.len() <= calls_in(self@.single, self@.inputs)
    }

    /// Starts a run on `turns` with the model already routed; returns the
    /// plan and its first step.
    pub fn start(model: RoutedModel, turns: &[Turn], config: SummarizeConfig) -> (r: (
        SummaryPlan,
        PlanStep,
    ))
        requires
            words_between(turns@, 0, turns@.len() as int) <= usize::MAX,
        ensures
            r.0.wf(),
            r.0@.model == model,
            r.0@.single == is_single_pass(turns@, config),
            r.0@.inputs == stage_inputs(turns@, config),
            r.0@.replies.len() == 0,
            step_view(r.1) == expected_step(r.0@.single, r.0@.inputs, r.0@.replies),
    {
        let total = total_words(turns);
        let single = total <= config.max_words_per_chunk;
        let mut inputs: Vec<String> = Vec::new();
        if single {
            inputs.push(format_chunk(turns));
            proof {
                assert(strings(inputs@) == seq![formatted_chunk(turns@)]);
            }
        } else {
            let chunks = chunk_turns(turns, config.max_words_per_chunk, config.overlap_turns);
            let ghost cs = chunks_of(
                turns@,
                config.max_words_per_chunk as nat,
                config.overlap_turns as nat,
            );
            let mut i: usize = 0;
            while i < chunks.len()
                invariant
                    i <= chunks@.len(),
                    turns_of(chunks@) == cs,
                    inputs@.len() == i,
                    forall|j: int|
                        0 <= j < i ==> #[trigger] inputs@[j]@ == formatted_chunk(cs[j]),
                decreases chunks@.len() - i,
            {
                inputs.push(format_chunk(chunks[i].as_slice()));
                proof {
                    assert(cs[i as int] == chunks@[i as int]@);
                }
                i = i + 1;
            }
            proof {
                assert(strings(inputs@) == cs.map_values(|c: Seq<Turn>| formatted_chunk(c)));
            }
        }
        let plan = SummaryPlan { model, single, inputs, replies: Vec::new() };
        proof {
            assert(strings(plan.replies@) == Seq::<Seq<char>>::empty());
        }
        let step = plan.current_step();
        (plan, step)
    }

    /// Hands back the reply to the last call and returns the next step.
    pub fn on_reply(&mut self, reply: String) -> (r: PlanStep)
        requires
            old(self).wf(),
            !old(self).is_done(),
        ensures
            final(self).wf(),
            final(self)@.model == old(self)@.model,
            final(self)@.single == old(self)@.single,
            final(self)@.inputs == old(self)@.inputs,
            final(self)@.replies == old(self)@.replies.push(reply@),
            step_view(r) == expected_step(final(self)@.single, final(self)@.inputs, final(self)@.replies),
    {
        let ghost before = self.replies@;
        self.replies.push(reply);
        proof {
            assert(strings(self.replies@) == strings(before).push(self.replies@.last()@));
        }
        self.current_step()
    }

    /// The step that follows the replies received so far.
    fn current_step(&self) -> (r: PlanStep)
        requires
            self.wf(),
        ensures
            step_view(r) == expected_step(self@.single, self@.inputs, self@.replies),
    {
        let k = self.replies.len();
        let mut progress: Vec<ProgressTick> = Vec::new();
        if self.single {
            if k == 0 {
                progress.push(ProgressTick { stage: ProgressStage::Extract, done: 0, total: 1 });
                let action = PlanAction::Call(
                    StageCall {
                        prompt: StagePrompt::Outline,
                        content: self.inputs[0].clone(),
                        profile: SamplingProfile::Strict,
                    },
                );
                proof {
                    assert(progress@ == seq![tick(ProgressStage::Extract, 0, 1)]);
                }
                PlanStep { progress, action }
            } else if k == 1 {
                progress.push(ProgressTick { stage: ProgressStage::Extract, done: 1, total: 1 });
                progress.push(ProgressTick { stage: ProgressStage::Rewrite, done: 0, total: 1 });
                let action = PlanAction::Call(
                    StageCall {
                        prompt: StagePrompt::Rewrite,
                        content: self.replies[0].clone(),
                        profile: SamplingProfile::Prose,
                    },
                );
                proof {
                    assert(progress@ == seq![
                        tick(ProgressStage::Extract, 1, 1),
                        tick(ProgressStage::Rewrite, 0, 1),
                    ]);
                }
                PlanStep { progress, action }
            } else {
                progress.push(ProgressTick { stage: ProgressStage::Rewrite, done: 1, total: 1 });
                let action = PlanAction::Finish(
                    SummaryOutput {
                        outline: self.replies[0].clone(),
                        notes: self.replies[1].clone(),
                        model: self.model.clone(),
                    },
                );
                proof {
                    assert(progress@ == seq![tick(ProgressStage::Rewrite, 1, 1)]);
                }
                PlanStep { progress, action }
            }
        } else {
            let n = self.inputs.len();
            if k < n {
                progress.push(ProgressTick { stage: ProgressStage::Extract, done: k, total: n });
                let action = PlanAction::Call(
                    StageCall {
                        prompt: StagePrompt::Extraction,
                        content: self.inputs[k].clone(),
                        profile: SamplingProfile::Strict,
                    },
                );
                proof {
                    assert(progress@ == seq![tick(ProgressStage::Extract, k as int, n as int)]);
                }
                PlanStep { progress, action }
            } else if k == n {
                progress.push(ProgressTick { stage: ProgressStage::Extract, done: n, total: n });
                progress.push(ProgressTick { stage: ProgressStage::Outline, done: 0, total: 1 });
                let content = join_reports(&self.replies);
                let action = PlanAction::Call(
                    StageCall {
                        prompt: StagePrompt::Outline,
                        content,
                        profile: SamplingProfile::Strict,
                    },
                );
                proof {
                    assert(progress@ == seq![
                        tick(ProgressStage::Extract, n as int, n as int),
                        tick(ProgressStage::Outline, 0, 1),
                    ]);
                }
                PlanStep { progress, action }
            } else if k == n + 1 {
                progress.push(ProgressTick { stage: ProgressStage::Outline, done: 1, total: 1 });
                progress.push(ProgressTick { stage: ProgressStage::Rewrite, done: 0, total: 1 });
                let action = PlanAction::Call(
                    StageCall {
                        prompt: StagePrompt::Rewrite,
                        content: self.replies[n].clone(),
                        profile: SamplingProfile::Prose,
                    },
                );
                proof {
                    assert(progress@ == seq![
                        tick(ProgressStage::Outline, 1, 1),
                        tick(ProgressStage::Rewrite, 0, 1),
                    ]);
                }
                PlanStep { progress, action }
            } else {
                progress.push(ProgressTick { stage: ProgressStage::Rewrite, done: 1, total: 1 });
                let action = PlanAction::Finish(
                    SummaryOutput {
                        outline: self.replies[n].clone(),
                        notes: self.replies[n + 1].clone(),
                        model: self.model.clone(),
                    },
                );
                proof {
                    assert(progress@ == seq![tick(ProgressStage::Rewrite, 1, 1)]);
                }
                PlanStep { progress, action }
            }
        }
    }
}

/// The extraction reports joined with [`REPORT_SEPARATOR`].
fn join_reports(reports: &Vec<String>) -> (r: String)
    ensures
        r@ == joined(strings(reports@), REPORT_SEPARATOR@),
{
    let mut out = String::new();
    let mut i: usize = 0;
    while i < reports.len()
        invariant
            i <= reports@.len(),
            out@ == joined(strings(reports@.subrange(0, i as int)), REPORT_SEPARATOR@),
        decreases reports@.len() - i,
    {
        let ghost prev = out@;
        if i > 0 {
            push_str(&mut out, REPORT_SEPARATOR);
        }
        push_str(&mut out, reports[i].as_str());
        proof {
            let pre = strings(reports@.subrange(0, i as int));
            let post = strings(reports@.subrange(0, i + 1));
            assert(post.drop_last() == pre);
            assert(post.last() == reports@[i as int]@);
            if i == 0 {
                assert(prev == Seq::<char>::empty());
                assert(out@ == reports@[0]@);
            }
        }
        i = i + 1;
    }
    proof {
        assert(reports@.subrange(0, reports@.len() as int) == reports@);
    }
    out
}

} // verus!

verus! {

/// A run asks for exactly `calls_in` replies: until then every step is a
/// model call, and the step after the last reply is the finished summary.
pub proof fn lemma_run_shape(single: bool, inputs: Seq<Seq<char>>, replies: Seq<Seq<char>>)
    requires
        single ==> inputs.len() == 1,
        replies.len() <= calls_in(single, inputs),
    ensures
        (expected_step(single, inputs, replies).1 is Finish) <==> replies.len() == calls_in(
            single,
            inputs,
        ),
{
}

} // verus!

verus! {

/// A run's result: once every call is answered, the plan finishes with the
/// outline-stage reply as the outline and the last reply as the notes.
pub proof fn lemma_run_result(single: bool, inputs: Seq<Seq<char>>, replies: Seq<Seq<char>>)
    requires
        single ==> inputs.len() == 1,
        replies.len() == calls_in(single, inputs),
    ensures
        expected_step(single, inputs, replies).1 == ActionView::Finish(
            replies[replies.len() - 2],
            replies[replies.len() - 1],
        ),
        expected_step(single, inputs, replies).0 == seq![tick(ProgressStage::Rewrite, 1, 1)],
{
}

} // verus!

verus! {

proof fn lemma_blocks_prefix(s: Seq<Turn>, c: int, n: int)
    requires
        0 <= c <= n <= s.len(),
    ensures
        blocks(s, c).len() <= blocks(s, n).len(),
        blocks(s, n).subrange(0, blocks(s, c).len() as int) == blocks(s, c),
        c < n ==> blocks(s, c).len() < blocks(s, n).len(),
        c < n ==> blocks(s, n)[blocks(s, c).len() as int] == '[',
    decreases n - c,
{
    if c < n {
        lemma_blocks_prefix(s, c + 1, n);
        let p = blocks(s, c);
        let q = blocks(s, c + 1);
        assert(q == p + turn_block(s[c]));
        assert(q.subrange(0, p.len() as int) == p);
        assert(q[p.len() as int] == '[');
        assert(blocks(s, n).subrange(0, p.len() as int) == blocks(s, n).subrange(
            0,
            q.len() as int,
        ).subrange(0, p.len() as int));
    } else {
        assert(blocks(s, n).subrange(0, blocks(s, c).len() as int) == blocks(s, n));
    }
}

proof fn lemma_blocks_depend_on_prefix(s: Seq<Turn>, t: Seq<Turn>, c: int)
    requires
        0 <= c <= s.len(),
        0 <= c <= t.len(),
        s.subrange(0, c) == t.subrange(0, c),
    ensures
        blocks(s, c) == blocks(t, c),
    decreases c,
{
    if c > 0 {
        assert(s.subrange(0, c - 1) == s.subrange(0, c).subrange(0, c - 1));
        assert(t.subrange(0, c - 1) == t.subrange(0, c).subrange(0, c - 1));
        lemma_blocks_depend_on_prefix(s, t, c - 1);
        assert(s[c - 1] == s.subrange(0, c)[c - 1]);
        assert(t[c - 1] == t.subrange(0, c)[c - 1]);
    }
}

proof fn lemma_trim_end_keeps_prefix(x: Seq<char>, k: int)
    requires
        0 <= k < x.len(),
        !is_ws(x[k]),
    ensures
        trim_end(x).len() > k,
        trim_end(x).subrange(0, k) == x.subrange(0, k),
{
    lemma_back_ws(x, 0, x.len() as int);
}

proof fn lemma_carry_prefix(turns: Seq<Turn>, b: Seq<(int, int)>, ov: nat, i: int)
    requires
        chained(b, ov, turns.len() as int),
        0 < i < b.len(),
    ensures
        ({
            let prev = turns.subrange(b[i - 1].0, b[i - 1].1);
            let c = carried(ov, b[i - 1].0, b[i - 1].1);
            let tail = prev.subrange(prev.len() - c, prev.len() as int);
            let input = formatted_chunk(turns.subrange(b[i].0, b[i].1));
            &&& c == if (ov as int) < prev.len() {
                ov as int
            } else {
                prev.len() as int
            }
            &&& blocks(tail, c).len() < input.len()
            &&& input.subrange(0, blocks(tail, c).len() as int) == blocks(tail, c)
        }),
{
    lemma_chained_overlap(turns, b, ov, i);
    let c = carried(ov, b[i - 1].0, b[i - 1].1);
    let prev = turns.subrange(b[i - 1].0, b[i - 1].1);
    let cur = turns.subrange(b[i].0, b[i].1);
    let tail = prev.subrange(prev.len() - c, prev.len() as int);
    assert(tail.len() == c);
    assert(cur.subrange(0, c) == tail);
    assert(tail.subrange(0, c) == tail);
    lemma_blocks_depend_on_prefix(cur, tail, c);
    lemma_blocks_prefix(cur, c, cur.len() as int);
    let whole = blocks(cur, cur.len() as int);
    let p = blocks(cur, c);
    assert(whole[p.len() as int] == '[');
    assert(!is_ws('['));
    lemma_trim_end_keeps_prefix(whole, p.len() as int);
}

/// A MapReduce run carries the configured overlap into its extraction
/// inputs: input `i > 0` opens with the rendered last
/// `min(overlap_turns, length of chunk i-1)` turns of the previous chunk
/// (chunks cut at the configured word budget), so the model sees that
/// context again.
pub proof fn lemma_map_inputs_carry_overlap(turns: Seq<Turn>, config: SummarizeConfig, i: int)
    requires
        !is_single_pass(turns, config),
        0 < i < stage_inputs(turns, config).len(),
    ensures
        ({
            let b = chunk_bounds(
                turns,
                config.max_words_per_chunk as nat,
                config.overlap_turns as nat,
            );
            let cs = chunks_of(turns, config.max_words_per_chunk as nat, config.overlap_turns as nat);
            let c = carried(config.overlap_turns as nat, b[i - 1].0, b[i - 1].1);
            let tail = cs[i - 1].subrange(cs[i - 1].len() - c, cs[i - 1].len() as int);
            let input = stage_inputs(turns, config)[i];
            &&& c == if (config.overlap_turns as int) < cs[i - 1].len() {
                config.overlap_turns as int
            } else {
                cs[i - 1].len() as int
            }
            &&& blocks(tail, c).len() < input.len()
            &&& input.subrange(0, blocks(tail, c).len() as int) == blocks(tail, c)
        }),
{
    let mw = config.max_words_per_chunk as nat;
    let ov = config.overlap_turns as nat;
    let b = chunk_bounds(turns, mw, ov);
    let cs = chunks_of(turns, mw, ov);
    lemma_chunk_bounds_chained(turns, mw, ov);
    lemma_carry_prefix(turns, b, ov, i);
    assert(cs[i - 1] == turns.subrange(b[i - 1].0, b[i - 1].1));
    assert(cs[i] == turns.subrange(b[i].0, b[i].1));
    assert(stage_inputs(turns, config)[i] == formatted_chunk(cs[i]));
}

} // verus!
