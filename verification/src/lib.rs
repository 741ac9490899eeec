//! whosaidwhat — local-first meeting assistant core: meeting detection,
//! recording-session lifecycle, transcript assembly, summarization
//! planning and citation extraction.

pub mod asr;
pub mod capture;
pub mod config;
pub mod db;
pub mod detect;
pub mod diarize;
pub mod llm;
pub mod notify;
pub mod pipeline;
pub mod shell;
pub mod text;
