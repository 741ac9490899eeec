//! LLM-facing logic: transcript chunking, citation and action-item
//! extraction, model routing, response handling and the summarization plan.

pub mod chunk;
pub mod client;
pub mod extract;
pub mod router;
pub mod summarize;
