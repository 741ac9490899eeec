//! Jobs for the background pipeline worker: one saved recording awaiting
//! processing, carrying everything the pipeline needs so the worker never
//! touches detection-side state. Jobs run one at a time, in FIFO order, on
//! a thread the application owns.

use vstd::prelude::*;

verus! {

/// One saved recording awaiting processing (audio paths as strings).
#[derive(Debug, PartialEq, Eq)]
pub struct Job {
    pub meeting_id: String,
    pub system_wav: String,
    pub mic_wav: Option<String>,
}

impl Clone for Job {
    fn clone(&self) -> (r: Self)
        ensures
            r == *self,
    {
        Job {
            meeting_id: self.meeting_id.clone(),
            system_wav: self.system_wav.clone(),
            mic_wav: match &self.mic_wav {
                Some(m) => Some(m.clone()),
                None => None,
            },
        }
    }
}

} // verus!
