//! The course of documenting a unit, step by step.

use vstd::prelude::*;
use vstd::string::*;

verus! {

/// What is done next.
#[derive(Clone, Copy, Debug, PartialEq, Eq, Structural)]
pub enum DocumentingStage {
    /// The invocation is completed.
    Completing,
    /// Documentation that an earlier run left is removed.
    Clearing,
    /// The start is recorded.
    Timing,
    /// The documentation tool runs.
    Documenting,
    /// What the tool has read is recorded.
    RecordingInputs,
    Done,
    Failed,
}

/// What happened.
#[derive(Clone, Copy, Debug, PartialEq, Eq, Structural)]
pub enum DocumentingEvent {
    /// The invocation is complete. `stale` tells whether there is documentation
    /// that an earlier run left.
    Completed { stale: bool },
    /// Whether a step succeeded that has no other result.
    Stepped(bool),
    /// The tool succeeded. `reported` tells whether it wrote what it has read.
    Documented { reported: bool },
}

/// A unit that is documented.
#[derive(Clone, Copy, Debug, PartialEq, Eq, Structural)]
pub struct RustdocJob {
    pub stage: DocumentingStage,
    /// Whether the documentation is data. Such is not removed before it is
    /// written anew.
    pub is_json_output: bool,
    /// Whether what the tool has read is recorded.
    pub records_inputs: bool,
    /// Whether users are told of a failure by a warning of its own.
    pub hides_diagnostics: bool,
    /// Whether the start was recorded.
    pub timed: bool,
    /// Whether the tool ran, and succeeded.
    pub documented: bool,
    /// Whether the warning is due.
    pub warns: bool,
}

/// A unit before the first step.
pub open spec fn new_documenting(
    is_json_output: bool,
    records_inputs: bool,
    hides_diagnostics: bool,
) -> RustdocJob {
    RustdocJob {
        stage: DocumentingStage::Completing,
        is_json_output,
        records_inputs,
        hides_diagnostics,
        timed: false,
        documented: false,
        warns: false,
    }
}

/// A job at another stage.
pub open spec fn at_stage(job: RustdocJob, stage: DocumentingStage) -> RustdocJob {
    RustdocJob { stage, ..job }
}

/// A job after an event. One that does not belong to the stage changes nothing,
/// except that a step that failed ends the job.
pub open spec fn after_documenting_event(job: RustdocJob, event: DocumentingEvent) -> RustdocJob {
    match (job.stage, event) {
        (DocumentingStage::Done, _) => job,
        (DocumentingStage::Failed, _) => job,
        (DocumentingStage::Documenting, DocumentingEvent::Stepped(false)) => RustdocJob {
            stage: DocumentingStage::Failed,
            warns: job.hides_diagnostics,
            ..job
        },
        (_, DocumentingEvent::Stepped(false)) => at_stage(job, DocumentingStage::Failed),
        (DocumentingStage::Completing, DocumentingEvent::Completed { stale }) => at_stage(
            job,
            if stale && !job.is_json_output {
                DocumentingStage::Clearing
            } else {
                DocumentingStage::Timing
            },
        ),
        (DocumentingStage::Clearing, DocumentingEvent::Stepped(true)) => at_stage(
            job,
            DocumentingStage::Timing,
        ),
        (DocumentingStage::Timing, DocumentingEvent::Stepped(true)) => RustdocJob {
            stage: DocumentingStage::Documenting,
            timed: true,
            ..job
        },
        (DocumentingStage::Documenting, DocumentingEvent::Documented { reported }) => RustdocJob {
            stage: if job.records_inputs && reported {
                DocumentingStage::RecordingInputs
            } else {
                DocumentingStage::Done
            },
            documented: true,
            ..job
        },
        (DocumentingStage::RecordingInputs, DocumentingEvent::Stepped(true)) => at_stage(
            job,
            DocumentingStage::Done,
        ),
        _ => job,
    }
}

impl RustdocJob {
    /// A unit before the first step.
    pub fn new(is_json_output: bool, records_inputs: bool, hides_diagnostics: bool) -> (job: Self)
        ensures
            job == new_documenting(is_json_output, records_inputs, hides_diagnostics),
    {
        RustdocJob {
            stage: DocumentingStage::Completing,
            is_json_output,
            records_inputs,
            hides_diagnostics,
            timed: false,
            documented: false,
            warns: false,
        }
    }

    /// Notes an event.
    pub fn advance(&mut self, event: DocumentingEvent)
        ensures
            *final(self) == after_documenting_event(*old(self), event),
    {
        match (self.stage, event) {
            (DocumentingStage::Done, _) => {},
            (DocumentingStage::Failed, _) => {},
            (DocumentingStage::Documenting, DocumentingEvent::Stepped(false)) => {
                self.stage = DocumentingStage::Failed;
                self.warns = self.hides_diagnostics;
            },
            (_, DocumentingEvent::Stepped(false)) => {
                self.stage = DocumentingStage::Failed;
            },
            (DocumentingStage::Completing, DocumentingEvent::Completed { stale }) => {
                self.stage = if stale && !self.is_json_output {
                    DocumentingStage::Clearing
                } else {
                    DocumentingStage::Timing
                };
            },
            (DocumentingStage::Clearing, DocumentingEvent::Stepped(true)) => {
                self.stage = DocumentingStage::Timing;
            },
            (DocumentingStage::Timing, DocumentingEvent::Stepped(true)) => {
                self.stage = DocumentingStage::Documenting;
                self.timed = true;
            },
            (DocumentingStage::Documenting, DocumentingEvent::Documented { reported }) => {
                self.stage = if self.records_inputs && reported {
                    DocumentingStage::RecordingInputs
                } else {
                    DocumentingStage::Done
                };
                self.documented = true;
            },
            (DocumentingStage::RecordingInputs, DocumentingEvent::Stepped(true)) => {
                self.stage = DocumentingStage::Done;
            },
            _ => {},
        }
    }
}

/// A job after events.
pub open spec fn after_documenting_events(
    start: RustdocJob,
    events: Seq<DocumentingEvent>,
) -> RustdocJob
    decreases events.len(),
{
    if events.len() == 0 {
        start
    } else {
        after_documenting_event(
            after_documenting_events(start, events.drop_last()),
            events.last(),
        )
    }
}

/// Whatever happens: the start is recorded before the tool runs, what it has
/// read is recorded only after it succeeded, a job that is done was documented,
/// and users are warned only of a unit that failed and whose diagnostics are
/// hidden.
pub proof fn law_documenting_is_sound(
    is_json_output: bool,
    records_inputs: bool,
    hides_diagnostics: bool,
    events: Seq<DocumentingEvent>,
)
    ensures
        ({
            let job = after_documenting_events(
                new_documenting(is_json_output, records_inputs, hides_diagnostics),
                events,
            );
            &&& job.is_json_output == is_json_output
            &&& job.records_inputs == records_inputs
            &&& job.hides_diagnostics == hides_diagnostics
            &&& job.stage == DocumentingStage::Completing || job.stage == DocumentingStage::Clearing
                || job.stage == DocumentingStage::Timing ==> !job.timed && !job.documented
            &&& job.stage == DocumentingStage::Clearing ==> !is_json_output
            &&& job.stage == DocumentingStage::Documenting ==> job.timed && !job.documented
            &&& job.stage == DocumentingStage::RecordingInputs ==> job.documented && records_inputs
            &&& job.stage == DocumentingStage::Done ==> job.documented
            &&& job.documented ==> job.timed
            &&& job.warns ==> job.stage == DocumentingStage::Failed && hides_diagnostics
                && !job.documented
        }),
    decreases events.len(),
{
    if events.len() > 0 {
        law_documenting_is_sound(
            is_json_output,
            records_inputs,
            hides_diagnostics,
            events.drop_last(),
        );
    }
}

/// What users are told of a unit that could not be documented.
pub fn document_failure(name: &str) -> (text: String)
    ensures
        text@ == "could not document `"@ + name@ + "`"@,
{
    let mut text = "could not document `".to_owned();
    text.append(name);
    text.append("`");
    text
}

} // verus!
