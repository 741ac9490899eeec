use whosaidwhat::llm::chunk::{format_chunk, Turn};
use whosaidwhat::llm::router::{RoutedModel, SamplingProfile};
use whosaidwhat::llm::summarize::{
    PlanAction, PlanStep, ProgressStage, ProgressTick, StagePrompt, SummarizeConfig, SummaryPlan,
    STAGE_1_PROMPT, STAGE_2_PROMPT, STAGE_3_PROMPT,
};

fn turn(speaker: &str, words: usize, start_ms: u64) -> Turn {
    let text = (0..words).map(|i| format!("w{i}")).collect::<Vec<_>>().join(" ");
    Turn { speaker: speaker.into(), text, start_ms, end_ms: start_ms + 1000 }
}

fn model() -> RoutedModel {
    RoutedModel { model: "qwen".into(), preferred: true }
}

fn tick(stage: ProgressStage, done: usize, total: usize) -> ProgressTick {
    ProgressTick { stage, done, total }
}

fn call(step: &PlanStep) -> (StagePrompt, String, SamplingProfile) {
    match &step.action {
        PlanAction::Call(c) => (c.prompt, c.content.clone(), c.profile),
        PlanAction::Finish(_) => panic!("expected a call"),
    }
}

#[test]
fn default_summarize_config() {
    let c = SummarizeConfig::default();
    assert_eq!((c.max_words_per_chunk, c.overlap_turns), (1200, 2));
}

#[test]
fn short_meeting_is_single_pass() {
    let turns = vec![turn("A", 5, 0), turn("B", 5, 2000)];
    let (mut plan, step) = SummaryPlan::start(model(), &turns, SummarizeConfig::default());
    assert_eq!(step.progress, vec![tick(ProgressStage::Extract, 0, 1)]);
    assert_eq!(call(&step), (StagePrompt::Outline, format_chunk(&turns), SamplingProfile::Strict));

    let step = plan.on_reply("OUTLINE".into());
    assert_eq!(
        step.progress,
        vec![tick(ProgressStage::Extract, 1, 1), tick(ProgressStage::Rewrite, 0, 1)]
    );
    assert_eq!(call(&step), (StagePrompt::Rewrite, "OUTLINE".to_string(), SamplingProfile::Prose));

    let step = plan.on_reply("NOTES".into());
    assert_eq!(step.progress, vec![tick(ProgressStage::Rewrite, 1, 1)]);
    match step.action {
        PlanAction::Finish(out) => {
            assert_eq!(out.outline, "OUTLINE");
            assert_eq!(out.notes, "NOTES");
            assert_eq!(out.model, model());
        }
        PlanAction::Call(_) => panic!("expected finish"),
    }
}

#[test]
fn long_meeting_maps_reduces_and_rewrites() {
    let turns: Vec<Turn> = (0..4).map(|i| turn("S", 400, i * 1000)).collect();
    let config = SummarizeConfig { max_words_per_chunk: 1000, overlap_turns: 0 };
    let (mut plan, step) = SummaryPlan::start(model(), &turns, config);
    assert_eq!(step.progress, vec![tick(ProgressStage::Extract, 0, 2)]);
    assert_eq!(
        call(&step),
        (StagePrompt::Extraction, format_chunk(&turns[0..2]), SamplingProfile::Strict)
    );
    let step = plan.on_reply("R1".into());
    assert_eq!(step.progress, vec![tick(ProgressStage::Extract, 1, 2)]);
    assert_eq!(
        call(&step),
        (StagePrompt::Extraction, format_chunk(&turns[2..4]), SamplingProfile::Strict)
    );
    let step = plan.on_reply("R2".into());
    assert_eq!(
        step.progress,
        vec![tick(ProgressStage::Extract, 2, 2), tick(ProgressStage::Outline, 0, 1)]
    );
    assert_eq!(
        call(&step),
        (
            StagePrompt::Outline,
            "R1\n\n=== NEXT CHUNK ===\n\nR2".to_string(),
            SamplingProfile::Strict
        )
    );
    let step = plan.on_reply("OUT".into());
    assert_eq!(
        step.progress,
        vec![tick(ProgressStage::Outline, 1, 1), tick(ProgressStage::Rewrite, 0, 1)]
    );
    assert_eq!(call(&step), (StagePrompt::Rewrite, "OUT".to_string(), SamplingProfile::Prose));
    let step = plan.on_reply("NOTES".into());
    assert_eq!(step.progress, vec![tick(ProgressStage::Rewrite, 1, 1)]);
    match step.action {
        PlanAction::Finish(out) => {
            assert_eq!((out.outline.as_str(), out.notes.as_str()), ("OUT", "NOTES"));
        }
        PlanAction::Call(_) => panic!("expected finish"),
    }
}

#[test]
fn prompts_and_stage_names() {
    assert_eq!(StagePrompt::Extraction.text(), STAGE_1_PROMPT);
    assert_eq!(StagePrompt::Outline.text(), STAGE_2_PROMPT);
    assert_eq!(StagePrompt::Rewrite.text(), STAGE_3_PROMPT);
    assert!(STAGE_1_PROMPT.starts_with("You are a strict data extraction engine"));
    assert_eq!(ProgressStage::Extract.name(), "extract");
    assert_eq!(ProgressStage::Outline.name(), "outline");
    assert_eq!(ProgressStage::Rewrite.name(), "rewrite");
}
