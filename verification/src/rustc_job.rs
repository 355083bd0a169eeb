//! The course of a compilation, step by step.
//!
//! The invocation is completed and its start recorded before anything is read
//! from the cache, so that an edit that races with a restore leaves the restored
//! outputs dirty. What is restored is replayed; what is not is compiled, and
//! published once its state is recorded.

use vstd::prelude::*;

use crate::job::publishes;
use crate::job::ActionSource;

verus! {

/// What is done next.
#[derive(Clone, Copy, Debug, PartialEq, Eq, Structural)]
pub enum JobStage {
    /// The invocation is completed.
    Completing,
    /// The start is recorded.
    Timing,
    /// The cached action is described.
    Describing,
    /// The outputs are looked for in the cache.
    Restoring,
    /// The messages of the compilation that made the outputs are replayed.
    Replaying,
    /// What is there of the outputs is put out of the way.
    PreparingOutputs,
    /// The compiler runs.
    Compiling,
    /// The state of the unit is recorded.
    Finishing,
    /// The outputs are published.
    Publishing,
    Done,
    Failed,
}

/// What happened.
#[derive(Clone, Copy, Debug, PartialEq, Eq, Structural)]
pub enum JobEvent {
    /// Whether a step succeeded that has no other result.
    Stepped(bool),
    /// Whether there is a cached action. Absent where that failed.
    Described(Option<bool>),
    /// Whether the outputs were restored.
    Restored(bool),
}

/// A compilation on its way.
#[derive(Clone, Copy, Debug, PartialEq, Eq, Structural)]
pub struct RustcJob {
    pub stage: JobStage,
    pub source: ActionSource,
    pub has_action: bool,
    pub cache_hit: bool,
    /// Whether the start was recorded.
    pub timed: bool,
    /// Whether the compiler ran, and succeeded.
    pub compiled: bool,
    /// Whether the state of the unit was recorded.
    pub finished: bool,
}

/// A compilation before its first step.
pub open spec fn new_job(source: ActionSource) -> RustcJob {
    RustcJob {
        stage: JobStage::Completing,
        source,
        has_action: false,
        cache_hit: false,
        timed: false,
        compiled: false,
        finished: false,
    }
}

/// A compilation that failed.
pub open spec fn failed(job: RustcJob) -> RustcJob {
    RustcJob { stage: JobStage::Failed, ..job }
}

/// Whether the outputs are published.
pub open spec fn is_published(job: RustcJob) -> bool {
    !job.cache_hit && (job.source == ActionSource::Prepared || (job.source
        == ActionSource::Described && job.has_action))
}

/// A compilation after an event. One that does not belong to the stage changes
/// nothing.
pub open spec fn after_job_event(job: RustcJob, event: JobEvent) -> RustcJob {
    match (job.stage, event) {
        (JobStage::Completing, JobEvent::Stepped(done)) => if done {
            RustcJob { stage: JobStage::Timing, ..job }
        } else {
            failed(job)
        },
        (JobStage::Timing, JobEvent::Stepped(done)) => if done {
            RustcJob {
                stage: if job.source == ActionSource::Described {
                    JobStage::Describing
                } else {
                    JobStage::PreparingOutputs
                },
                timed: true,
                ..job
            }
        } else {
            failed(job)
        },
        (JobStage::Describing, JobEvent::Described(described)) => match described {
            Some(has_action) => RustcJob {
                stage: if has_action {
                    JobStage::Restoring
                } else {
                    JobStage::PreparingOutputs
                },
                has_action,
                ..job
            },
            None => failed(job),
        },
        (JobStage::Restoring, JobEvent::Restored(hit)) => RustcJob {
            stage: if hit {
                JobStage::Replaying
            } else {
                JobStage::PreparingOutputs
            },
            cache_hit: hit,
            ..job
        },
        (JobStage::Replaying, JobEvent::Stepped(done)) => if done {
            RustcJob { stage: JobStage::Finishing, ..job }
        } else {
            failed(job)
        },
        (JobStage::PreparingOutputs, JobEvent::Stepped(done)) => if done {
            RustcJob { stage: JobStage::Compiling, ..job }
        } else {
            failed(job)
        },
        (JobStage::Compiling, JobEvent::Stepped(done)) => if done {
            RustcJob { stage: JobStage::Finishing, compiled: true, ..job }
        } else {
            failed(job)
        },
        (JobStage::Finishing, JobEvent::Stepped(done)) => if done {
            RustcJob {
                stage: if is_published(job) {
                    JobStage::Publishing
                } else {
                    JobStage::Done
                },
                finished: true,
                ..job
            }
        } else {
            failed(job)
        },
        (JobStage::Publishing, JobEvent::Stepped(_)) => RustcJob { stage: JobStage::Done, ..job },
        _ => job,
    }
}

impl RustcJob {
    /// A compilation before its first step.
    pub fn new(source: ActionSource) -> (job: Self)
        ensures
            job == new_job(source),
    {
        RustcJob {
            stage: JobStage::Completing,
            source,
            has_action: false,
            cache_hit: false,
            timed: false,
            compiled: false,
            finished: false,
        }
    }

    /// Notes an event. A publication that fails changes nothing for the unit.
    pub fn advance(&mut self, event: JobEvent)
        ensures
            *final(self) == after_job_event(*old(self), event),
    {
        match (self.stage, event) {
            (JobStage::Completing, JobEvent::Stepped(done)) => {
                self.stage = if done {
                    JobStage::Timing
                } else {
                    JobStage::Failed
                };
            },
            (JobStage::Timing, JobEvent::Stepped(done)) => {
                if done {
                    self.timed = true;
                    self.stage = match self.source {
                        ActionSource::Described => JobStage::Describing,
                        _ => JobStage::PreparingOutputs,
                    };
                } else {
                    self.stage = JobStage::Failed;
                }
            },
            (JobStage::Describing, JobEvent::Described(described)) => match described {
                Some(has_action) => {
                    self.has_action = has_action;
                    self.stage = if has_action {
                        JobStage::Restoring
                    } else {
                        JobStage::PreparingOutputs
                    };
                },
                None => {
                    self.stage = JobStage::Failed;
                },
            },
            (JobStage::Restoring, JobEvent::Restored(hit)) => {
                self.cache_hit = hit;
                self.stage = if hit {
                    JobStage::Replaying
                } else {
                    JobStage::PreparingOutputs
                };
            },
            (JobStage::Replaying, JobEvent::Stepped(done)) => {
                self.stage = if done {
                    JobStage::Finishing
                } else {
                    JobStage::Failed
                };
            },
            (JobStage::PreparingOutputs, JobEvent::Stepped(done)) => {
                self.stage = if done {
                    JobStage::Compiling
                } else {
                    JobStage::Failed
                };
            },
            (JobStage::Compiling, JobEvent::Stepped(done)) => {
                if done {
                    self.compiled = true;
                    self.stage = JobStage::Finishing;
                } else {
                    self.stage = JobStage::Failed;
                }
            },
            (JobStage::Finishing, JobEvent::Stepped(done)) => {
                if done {
                    self.finished = true;
                    self.stage = if publishes(self.source, self.has_action, self.cache_hit) {
                        JobStage::Publishing
                    } else {
                        JobStage::Done
                    };
                } else {
                    self.stage = JobStage::Failed;
                }
            },
            (JobStage::Publishing, JobEvent::Stepped(_)) => {
                self.stage = JobStage::Done;
            },
            _ => {},
        }
    }
}

/// A compilation after events.
pub open spec fn after_job_events(source: ActionSource, events: Seq<JobEvent>) -> RustcJob
    decreases events.len(),
{
    if events.len() == 0 {
        new_job(source)
    } else {
        after_job_event(after_job_events(source, events.drop_last()), events.last())
    }
}

/// What holds of a compilation at every stage.
pub open spec fn is_sound(job: RustcJob) -> bool {
    &&& job.cache_hit ==> job.source == ActionSource::Described && job.has_action && !job.compiled
    &&& job.stage == JobStage::Completing || job.stage == JobStage::Timing ==> !job.timed
        && !job.cache_hit && !job.compiled && !job.finished
    &&& job.stage == JobStage::Describing || job.stage == JobStage::Restoring || job.stage
        == JobStage::PreparingOutputs || job.stage == JobStage::Compiling ==> job.timed
        && !job.cache_hit && !job.compiled && !job.finished
    &&& job.stage == JobStage::Describing ==> job.source == ActionSource::Described
    &&& job.stage == JobStage::Restoring ==> job.source == ActionSource::Described
        && job.has_action
    &&& job.stage == JobStage::Replaying ==> job.timed && job.cache_hit && !job.compiled
        && !job.finished
    &&& job.stage == JobStage::Finishing ==> job.timed && job.compiled == !job.cache_hit
        && !job.finished
    &&& job.stage == JobStage::Publishing ==> job.timed && job.compiled && !job.cache_hit
        && job.finished && is_published(job)
    &&& job.stage == JobStage::Done ==> job.timed && job.compiled == !job.cache_hit && job.finished
}

/// Whatever happens: the start is recorded before the cache is read or the
/// compiler runs; the compiler runs exactly where nothing was restored; and
/// outputs are published only after the compiler succeeded and the state of the
/// unit was recorded.
pub proof fn law_jobs_are_sound(source: ActionSource, events: Seq<JobEvent>)
    ensures
        is_sound(after_job_events(source, events)),
        after_job_events(source, events).source == source,
    decreases events.len(),
{
    if events.len() > 0 {
        law_jobs_are_sound(source, events.drop_last());
    }
}

/// A unit whose invocation changed since it was prepared, or that the cache is
/// passed by for, is compiled and not published.
pub proof fn law_bypassed_units_are_not_published(source: ActionSource, events: Seq<JobEvent>)
    requires
        source == ActionSource::Absent || source == ActionSource::Changed,
    ensures
        ({
            let job = after_job_events(source, events);
            job.stage != JobStage::Publishing && !job.cache_hit
        }),
    decreases events.len(),
{
    law_jobs_are_sound(source, events);
    if events.len() > 0 {
        law_bypassed_units_are_not_published(source, events.drop_last());
        law_jobs_are_sound(source, events.drop_last());
    }
}

/// A compilation that is over stays so.
pub proof fn law_ended_jobs_stay(job: RustcJob, event: JobEvent)
    requires
        job.stage == JobStage::Done || job.stage == JobStage::Failed,
    ensures
        after_job_event(job, event) == job,
{
}

} // verus!
