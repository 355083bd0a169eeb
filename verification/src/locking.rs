//! Locks on the cache: how long they are waited for, and when a restore is
//! admitted under one.

use vstd::prelude::*;
use vstd::slice::slice_subrange;
use vstd::string::*;

use crate::bytes::copy_bytes;
use crate::cache_size::rlib_cache_size_within_limit;
use crate::digest::blake3_hex;
use crate::digest::hex_digest;
use crate::disk::FileKind;
use crate::disk::Lookup;
use crate::disk::Metadata;
use crate::text::characters;
use crate::text::text_of;
use crate::unix_path::file_name;
use crate::unix_path::path_file_name;

verus! {

/// The name of the lock on a cache.
pub const CACHE_LOCK: &'static str = ".cargo-artifact-cache-lock";

/// How long a lock is waited for, in milliseconds.
pub const LOCK_TIMEOUT_MS: u64 = 5000;

/// The first pause between attempts, in milliseconds.
pub const FIRST_DELAY_MS: u64 = 1;

/// The longest pause between attempts, in milliseconds.
pub const LONGEST_DELAY_MS: u64 = 32;

/// How many digits of a digest tell action locks apart.
pub const ACTION_LOCK_DIGITS: usize = 6;

/// What came of an attempt to take a lock.
#[derive(Clone, Copy, Debug, PartialEq, Eq, Structural)]
pub enum LockAttempt {
    Acquired,
    /// A holder failed. The lock protects nothing that could be half done.
    Poisoned,
    /// Somebody else holds it.
    WouldBlock,
    /// The file system has no locks.
    Unsupported,
    Failed,
}

/// What follows an attempt to take a lock.
#[derive(Clone, Copy, Debug, PartialEq, Eq, Structural)]
pub enum LockStep {
    /// The lock is held.
    Hold,
    /// Another attempt is made after a pause of so many milliseconds.
    Retry(u64),
    /// The work goes on without the lock, and without what it protects.
    GiveUp,
    Fail,
}

/// How long attempts to take a lock have gone on.
#[derive(Clone, Copy, Debug, PartialEq, Eq, Structural)]
pub struct LockWait {
    /// The next pause, in milliseconds.
    pub delay: u64,
}

/// The next pause after a pause.
pub open spec fn next_delay(delay: u64) -> u64 {
    if delay * 2 < LONGEST_DELAY_MS {
        (delay * 2) as u64
    } else {
        LONGEST_DELAY_MS
    }
}

impl LockWait {
    /// Before the first attempt.
    pub fn new() -> (wait: Self)
        ensures
            wait.delay == FIRST_DELAY_MS,
    {
        LockWait { delay: FIRST_DELAY_MS }
    }

    /// What follows an attempt. Pauses double up to the longest, and there are
    /// none once the deadline has passed.
    pub fn step(&mut self, attempt: LockAttempt, before_deadline: bool) -> (step: LockStep)
        ensures
            step == match attempt {
                LockAttempt::Acquired | LockAttempt::Poisoned => LockStep::Hold,
                LockAttempt::WouldBlock => if before_deadline {
                    LockStep::Retry(old(self).delay)
                } else {
                    LockStep::GiveUp
                },
                LockAttempt::Unsupported => LockStep::GiveUp,
                LockAttempt::Failed => LockStep::Fail,
            },
            final(self).delay == if step is Retry {
                next_delay(old(self).delay)
            } else {
                old(self).delay
            },
    {
        match attempt {
            LockAttempt::Acquired => LockStep::Hold,
            LockAttempt::Poisoned => LockStep::Hold,
            LockAttempt::WouldBlock => {
                if before_deadline {
                    let delay: u64 = self.delay;
                    self.delay = if delay < LONGEST_DELAY_MS / 2 {
                        delay * 2
                    } else {
                        LONGEST_DELAY_MS
                    };
                    LockStep::Retry(delay)
                } else {
                    LockStep::GiveUp
                }
            },
            LockAttempt::Unsupported => LockStep::GiveUp,
            LockAttempt::Failed => LockStep::Fail,
        }
    }
}

/// The pause after so many others.
pub open spec fn delay_after(pauses: nat) -> u64
    decreases pauses,
{
    if pauses == 0 {
        FIRST_DELAY_MS
    } else {
        next_delay(delay_after((pauses - 1) as nat))
    }
}

/// Pauses never shrink, are never longer than the longest, and are the longest
/// from the sixth on.
pub proof fn law_delays_are_bounded(pauses: nat)
    ensures
        FIRST_DELAY_MS <= delay_after(pauses) <= LONGEST_DELAY_MS,
        delay_after(pauses) <= delay_after(pauses + 1),
        pauses >= 5 ==> delay_after(pauses) == LONGEST_DELAY_MS,
    decreases pauses,
{
    reveal_with_fuel(delay_after, 7);
    if pauses > 0 {
        law_delays_are_bounded((pauses - 1) as nat);
        assert(delay_after(pauses + 1) == next_delay(delay_after(pauses)));
    }
}

/// Whether a lock can be taken at a path: it is not a symbolic link.
pub fn lock_path_is_usable(found: &Lookup<Metadata>) -> (usable: bool)
    ensures
        usable == match *found {
            Lookup::Found(metadata) => metadata.kind != FileKind::Symlink,
            _ => true,
        },
{
    match found {
        Lookup::Found(metadata) => metadata.kind != FileKind::Symlink,
        _ => true,
    }
}

/// What an action lock is named after: the last name of the entry's path, or the
/// path itself where it has none.
pub open spec fn action_name(entry_root: Seq<u8>) -> Seq<u8> {
    match file_name(entry_root) {
        Some(name) => name,
        None => entry_root,
    }
}

/// The name of the lock on an action.
pub open spec fn action_lock_name(entry_root: Seq<u8>) -> Seq<char> {
    ".cargo-artifact-cache-publish-lock"@ + "-"@ + hex_digest(action_name(entry_root)).take(
        ACTION_LOCK_DIGITS as int,
    )
}

/// The name of the lock on an action. Actions are spread over locks by a digest.
pub fn rlib_cache_action_lock_name(entry_root: &[u8]) -> (name: String)
    ensures
        name@ == action_lock_name(entry_root@),
{
    let action = match path_file_name(entry_root) {
        Some(name) => name,
        None => copy_bytes(entry_root),
    };
    let digest = characters(blake3_hex(action.as_slice()).as_str());
    let shard = text_of(slice_subrange(digest.as_slice(), 0, ACTION_LOCK_DIGITS));
    let mut name = ".cargo-artifact-cache-publish-lock".to_owned();
    name.append("-");
    name.append(shard.as_str());
    proof {
        assert(shard@ =~= hex_digest(action@).take(ACTION_LOCK_DIGITS as int));
    }
    name
}

/// What came of taking a lock, after all attempts.
#[derive(Clone, Copy, Debug, PartialEq, Eq, Structural)]
pub enum LockOutcome {
    Held,
    NotHeld,
    Failed,
}

/// How far a restore is on its way to be admitted.
#[derive(Clone, Copy, Debug, PartialEq, Eq, Structural)]
pub enum AdmissionStage {
    /// A shared lock is taken.
    Locking,
    /// The recorded size is read.
    Sizing,
    /// An exclusive lock is taken.
    LockingExclusively,
    /// The recorded size is read again.
    SizingExclusively,
    /// Entries are removed until the size is within the limit.
    Reconciling,
    /// A shared lock is taken again.
    LockingAgain,
    /// The recorded size is read once more.
    SizingAgain,
    /// The restore goes on under the lock.
    Admitted,
    /// The restore does not go on.
    Refused,
    Failed,
}

/// What happened.
#[derive(Clone, Copy, Debug, PartialEq, Eq, Structural)]
pub enum AdmissionEvent {
    Locked(LockOutcome),
    /// The recorded size, if there is one.
    Sized(Option<u64>),
    /// Whether the size could be reconciled.
    Reconciled(bool),
}

/// Whether a recorded size is within the limit.
pub open spec fn size_fits(size: Option<u64>, max_size: Option<u64>) -> bool {
    match (size, max_size) {
        (Some(size), Some(limit)) => size <= limit,
        (Some(_), None) => true,
        (None, _) => false,
    }
}

/// Whether a recorded size is within the limit.
fn recorded_size_fits(size: Option<u64>, max_size: Option<u64>) -> (fits: bool)
    ensures
        fits == size_fits(size, max_size),
{
    match size {
        Some(size) => rlib_cache_size_within_limit(size, max_size),
        None => false,
    }
}

/// The stage after a lock was taken or not.
pub open spec fn after_lock(outcome: LockOutcome, held: AdmissionStage) -> AdmissionStage {
    match outcome {
        LockOutcome::Held => held,
        LockOutcome::NotHeld => AdmissionStage::Refused,
        LockOutcome::Failed => AdmissionStage::Failed,
    }
}

/// The stage after an event. One that does not belong to the stage changes
/// nothing.
pub open spec fn after_admission_event(
    stage: AdmissionStage,
    event: AdmissionEvent,
    max_size: Option<u64>,
) -> AdmissionStage {
    match (stage, event) {
        (AdmissionStage::Locking, AdmissionEvent::Locked(outcome)) => after_lock(
            outcome,
            if max_size is None {
                AdmissionStage::Admitted
            } else {
                AdmissionStage::Sizing
            },
        ),
        (AdmissionStage::Sizing, AdmissionEvent::Sized(size)) => if size_fits(size, max_size) {
            AdmissionStage::Admitted
        } else {
            AdmissionStage::LockingExclusively
        },
        (AdmissionStage::LockingExclusively, AdmissionEvent::Locked(outcome)) => after_lock(
            outcome,
            AdmissionStage::SizingExclusively,
        ),
        (AdmissionStage::SizingExclusively, AdmissionEvent::Sized(size)) => if size_fits(
            size,
            max_size,
        ) {
            AdmissionStage::LockingAgain
        } else {
            AdmissionStage::Reconciling
        },
        (AdmissionStage::Reconciling, AdmissionEvent::Reconciled(done)) => if done {
            AdmissionStage::LockingAgain
        } else {
            AdmissionStage::Failed
        },
        (AdmissionStage::LockingAgain, AdmissionEvent::Locked(outcome)) => after_lock(
            outcome,
            AdmissionStage::SizingAgain,
        ),
        (AdmissionStage::SizingAgain, AdmissionEvent::Sized(size)) => if size_fits(size, max_size) {
            AdmissionStage::Admitted
        } else {
            AdmissionStage::Refused
        },
        _ => stage,
    }
}

/// The stage after a lock was taken or not.
fn locked(outcome: LockOutcome, held: AdmissionStage) -> (stage: AdmissionStage)
    ensures
        stage == after_lock(outcome, held),
{
    match outcome {
        LockOutcome::Held => held,
        LockOutcome::NotHeld => AdmissionStage::Refused,
        LockOutcome::Failed => AdmissionStage::Failed,
    }
}

/// Takes a restore one step further: it is admitted under a shared lock while
/// the recorded size is within the limit. Where it is not, the size is
/// reconciled once under an exclusive lock.
pub fn try_read_lock_rlib_cache_within_limit(
    stage: AdmissionStage,
    event: AdmissionEvent,
    max_size: Option<u64>,
) -> (next: AdmissionStage)
    ensures
        next == after_admission_event(stage, event, max_size),
{
    match (stage, event) {
        (AdmissionStage::Locking, AdmissionEvent::Locked(outcome)) => {
            if max_size.is_none() {
                locked(outcome, AdmissionStage::Admitted)
            } else {
                locked(outcome, AdmissionStage::Sizing)
            }
        },
        (AdmissionStage::Sizing, AdmissionEvent::Sized(size)) => {
            if recorded_size_fits(size, max_size) {
                AdmissionStage::Admitted
            } else {
                AdmissionStage::LockingExclusively
            }
        },
        (AdmissionStage::LockingExclusively, AdmissionEvent::Locked(outcome)) => locked(
            outcome,
            AdmissionStage::SizingExclusively,
        ),
        (AdmissionStage::SizingExclusively, AdmissionEvent::Sized(size)) => {
            if recorded_size_fits(size, max_size) {
                AdmissionStage::LockingAgain
            } else {
                AdmissionStage::Reconciling
            }
        },
        (AdmissionStage::Reconciling, AdmissionEvent::Reconciled(done)) => {
            if done {
                AdmissionStage::LockingAgain
            } else {
                AdmissionStage::Failed
            }
        },
        (AdmissionStage::LockingAgain, AdmissionEvent::Locked(outcome)) => locked(
            outcome,
            AdmissionStage::SizingAgain,
        ),
        (AdmissionStage::SizingAgain, AdmissionEvent::Sized(size)) => {
            if recorded_size_fits(size, max_size) {
                AdmissionStage::Admitted
            } else {
                AdmissionStage::Refused
            }
        },
        _ => stage,
    }
}

/// The stage after events.
pub open spec fn after_admission_events(
    events: Seq<AdmissionEvent>,
    max_size: Option<u64>,
) -> AdmissionStage
    decreases events.len(),
{
    if events.len() == 0 {
        AdmissionStage::Locking
    } else {
        after_admission_event(
            after_admission_events(events.drop_last(), max_size),
            events.last(),
            max_size,
        )
    }
}

/// Whether a size within the limit was read under a lock.
pub open spec fn read_fitting_size(events: Seq<AdmissionEvent>, max_size: Option<u64>) -> bool {
    exists|i: int|
        0 <= i < events.len() && (#[trigger] events[i]) is Sized && size_fits(
            events[i]->Sized_0,
            max_size,
        )
}

/// A restore is admitted only within the limit: there is none, or a recorded
/// size within it was read.
pub proof fn law_admission_is_within_the_limit(events: Seq<AdmissionEvent>, max_size: Option<u64>)
    requires
        after_admission_events(events, max_size) == AdmissionStage::Admitted,
    ensures
        max_size is None || read_fitting_size(events, max_size),
    decreases events.len(),
{
    if events.len() > 0 {
        let before = events.drop_last();
        if after_admission_events(before, max_size) == AdmissionStage::Admitted {
            law_admission_is_within_the_limit(before, max_size);
            if read_fitting_size(before, max_size) {
                let i = choose|i: int|
                    0 <= i < before.len() && (#[trigger] before[i]) is Sized && size_fits(
                        before[i]->Sized_0,
                        max_size,
                    );
                assert(events[i] == before[i]);
            }
        } else {
            assert(events[events.len() - 1] == events.last());
        }
    }
}

/// An entry that was found corrupt, looked at again under the lock.
#[derive(Clone, Copy, Debug, PartialEq, Eq, Structural)]
pub struct SuspectEntry {
    /// Whether it is in order after all.
    pub verified: bool,
    /// Whether the recorded size could be marked as not to be trusted.
    pub marked: bool,
    /// Whether the entry could be put aside.
    pub quarantined: bool,
}

/// Whether an entry was put aside.
pub open spec fn was_removed(entry: SuspectEntry) -> bool {
    !entry.verified && entry.marked && entry.quarantined
}

/// Whether the size has to be reconciled after corrupt entries were looked at:
/// one of them was put aside. Without the lock nothing is done.
pub fn cleanup_corrupt_rlib_cache_entries(lock_held: bool, entries: &Vec<SuspectEntry>) -> (reconcile:
    bool)
    ensures
        reconcile == (lock_held && exists|i: int|
            0 <= i < entries@.len() && was_removed(#[trigger] entries@[i])),
{
    if !lock_held {
        return false;
    }
    let mut changed = false;
    let mut index: usize = 0;
    while index < entries.len()
        invariant
            index <= entries@.len(),
            changed == exists|i: int| 0 <= i < index && was_removed(#[trigger] entries@[i]),
        decreases entries@.len() - index,
    {
        let entry = entries[index];
        if !entry.verified && entry.marked && entry.quarantined {
            changed = true;
            proof {
                assert(was_removed(entries@[index as int]));
            }
        }
        index = index + 1;
    }
    changed
}

/// A cache is admitted only on a lock that is held, where it has no limit, or on a
/// size within the limit; a lock that is not held refuses it, and one that fails
/// ends in failure.
pub proof fn law_locks_decide_admission(
    stage: AdmissionStage,
    event: AdmissionEvent,
    max_size: Option<u64>,
)
    requires
        stage != AdmissionStage::Admitted,
        stage != AdmissionStage::Refused,
        stage != AdmissionStage::Failed,
    ensures
        ({
            let after = after_admission_event(stage, event, max_size);
            let locking = stage == AdmissionStage::Locking || stage
                == AdmissionStage::LockingExclusively || stage == AdmissionStage::LockingAgain;
            &&& after == AdmissionStage::Admitted ==> match max_size {
                None => event == AdmissionEvent::Locked(LockOutcome::Held) || event is Sized,
                Some(limit) => event matches AdmissionEvent::Sized(Some(size)) && size <= limit
                    && (stage == AdmissionStage::Sizing || stage == AdmissionStage::SizingAgain),
            }
            &&& locking && event == AdmissionEvent::Locked(LockOutcome::NotHeld) ==> after
                == AdmissionStage::Refused
            &&& locking && event == AdmissionEvent::Locked(LockOutcome::Failed) ==> after
                == AdmissionStage::Failed
            &&& stage == AdmissionStage::Locking && event == AdmissionEvent::Locked(
                LockOutcome::Held,
            ) && max_size is None ==> after == AdmissionStage::Admitted
            &&& max_size matches Some(limit) ==> (stage == AdmissionStage::Sizing ==> (event matches
                AdmissionEvent::Sized(Some(size)) ==> {
                &&& size <= limit ==> after == AdmissionStage::Admitted
                &&& size > limit ==> after == AdmissionStage::LockingExclusively
            }))
            &&& max_size matches Some(limit) ==> (stage == AdmissionStage::SizingAgain ==> (
            event matches AdmissionEvent::Sized(Some(size)) ==> {
                &&& size <= limit ==> after == AdmissionStage::Admitted
                &&& size > limit ==> after == AdmissionStage::Refused
            }))
        }),
{
}

} // verus!
