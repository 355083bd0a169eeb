//! Publishing a cache entry: which checks come before it, and how it ends.

use vstd::prelude::*;
use vstd::string::*;

use crate::bytes::optional_text;
use crate::cache_size::added;
use crate::cache_size::rlib_cache_size_within_limit;
use crate::cache_size::within_limit;
use crate::disk::FileKind;
use crate::disk::Lookup;
use crate::disk::Metadata;
use crate::snapshot_restore::DirectoryCreation;
use crate::source_inputs::RlibCacheInputSupport;
use crate::text::text_is;

verus! {

/// Why an entry was not published.
#[derive(Clone, Copy, Debug, PartialEq, Eq, Structural)]
pub enum PublicationSkipReason {
    SourceInputsUnavailable,
    GeneratedBuildInput,
    CompilerIdentityChanged,
    LoaderInputsChanged,
    ActionInputsChanged,
    ActionLockUnavailable,
    UnsupportedActionRoot,
    EntryTooLarge,
    InputsChangedDuringStaging,
    PublicationLockUnavailable,
    InputsChangedBeforePublication,
    AlreadyStored,
    ConcurrentPublication,
}

/// How a publication ended.
#[derive(Clone, Copy, Debug, PartialEq, Eq, Structural)]
pub enum PublicationOutcome {
    Stored,
    Skipped(PublicationSkipReason),
}

/// The outcome of a publication that was skipped.
pub fn skip_artifact_cache_publication(reason: PublicationSkipReason) -> (outcome:
    PublicationOutcome)
    ensures
        outcome == PublicationOutcome::Skipped(reason),
{
    PublicationOutcome::Skipped(reason)
}

/// Whether a publication stored an entry, as the statistics count it.
pub fn publication_stored(result: &Result<PublicationOutcome, ()>) -> (counted: Result<bool, ()>)
    ensures
        match *result {
            Ok(outcome) => counted == Ok::<bool, ()>(outcome == PublicationOutcome::Stored),
            Err(_) => counted is Err,
        },
{
    match result {
        Ok(PublicationOutcome::Stored) => Ok(true),
        Ok(PublicationOutcome::Skipped(_)) => Ok(false),
        Err(_) => Err(()),
    }
}

/// Whether a directory stands at a path, given what stood there and, where
/// nothing did, what came of making one. Symbolic links are not followed.
pub fn create_rlib_cache_directory_no_follow(
    found: &Lookup<Metadata>,
    creation: DirectoryCreation,
) -> (directory: Result<bool, ()>)
    ensures
        directory == match *found {
            Lookup::Found(metadata) => Ok::<bool, ()>(metadata.kind == FileKind::Directory),
            Lookup::Missing => match creation {
                DirectoryCreation::Made => Ok::<bool, ()>(true),
                DirectoryCreation::Exists(kind) => Ok::<bool, ()>(
                    kind == Some(FileKind::Directory),
                ),
                DirectoryCreation::Failed => Err::<bool, ()>(()),
            },
            Lookup::Failed => Err::<bool, ()>(()),
        },
{
    match found {
        Lookup::Found(metadata) => Ok(metadata.kind == FileKind::Directory),
        Lookup::Missing => match creation {
            DirectoryCreation::Made => Ok(true),
            DirectoryCreation::Exists(Some(FileKind::Directory)) => Ok(true),
            DirectoryCreation::Exists(_) => Ok(false),
            DirectoryCreation::Failed => Err(()),
        },
        Lookup::Failed => Err(()),
    }
}

/// When the inputs of a compilation are confirmed: once it is done, once the
/// entry is staged, and once the cache is locked for it.
#[derive(Clone, Copy, Debug, PartialEq, Eq, Structural)]
pub enum Round {
    Compiled,
    Staged,
    Locked,
}

/// What a publication waits for.
#[derive(Clone, Copy, Debug, PartialEq, Eq, Structural)]
pub enum PublicationStage {
    /// Whether the reported inputs can be covered.
    InputSupport,
    /// Whether the compiler identity is current.
    CompilerIdentity(Round),
    /// Whether the loader inputs have the digest of the key.
    LoaderInputs(Round),
    /// Whether the action inputs are current.
    ActionInputs(Round),
    /// The digest of the source inputs.
    SourceInputs(Round),
    /// Whether the lock of the action was taken.
    ActionLock,
    /// Whether the action root is a directory.
    ActionRoot,
    /// That the staging directory was made.
    StagingDirectory,
    /// The size of the staged entry.
    Staging,
    /// Whether the cache was locked for publication.
    PublicationLock,
    /// The recorded size of the cache.
    RecordedSize,
    /// The size of the cache once it was brought within its limit.
    Reconcile,
    /// What stands in the place of the entry.
    ExistingEntry,
    /// The size of the cache without the entry that stood there.
    Replace,
    /// Whether the staged entry was moved into place.
    Rename,
    /// That the cache was reconciled after another publication came first.
    ReconcileConcurrent,
    /// That the size of the cache was recorded.
    WriteSize,
    /// That the cache was brought within its limit, keeping the new entry.
    ReconcileRetained,
    /// The end.
    Done,
}

/// What was found out for a stage.
pub enum PublicationEvent {
    /// An operation failed.
    Failed,
    Support(RlibCacheInputSupport),
    Verdict(bool),
    Digest(Option<String>),
    StagingMade,
    Staged { entry_files: u64, entry_size: u64 },
    Recorded(Option<u64>),
    Size(u64),
    /// Nothing stands in the place of the entry.
    Absent,
    /// An entry stands there. `usable`, where it is complete, verified and
    /// within the limit of the cache.
    Present { usable: bool },
    Renamed,
    /// The entry could not be moved. `complete`, where a complete one stands
    /// in its place now.
    NotRenamed { complete: bool },
    Written,
}

/// A publication in progress.
pub struct Publication {
    pub stage: PublicationStage,
    pub max_size: Option<u64>,
    pub inputs_digest: Option<String>,
    pub entry_files: u64,
    pub entry_size: u64,
    pub cache_size: u64,
    /// Whether there is a staging directory that was not moved into place.
    pub staged: bool,
    /// Whether the entry was moved into place.
    pub renamed: bool,
    pub outcome: Option<Result<PublicationOutcome, ()>>,
}

/// A publication in progress, as plain values.
#[verifier::ext_equal]
pub struct Progress {
    pub stage: PublicationStage,
    pub max_size: Option<u64>,
    pub inputs_digest: Option<Seq<char>>,
    pub entry_files: u64,
    pub entry_size: u64,
    pub cache_size: u64,
    pub staged: bool,
    pub renamed: bool,
    pub outcome: Option<Result<PublicationOutcome, ()>>,
}

impl Publication {
    /// The publication as plain values.
    pub open spec fn progress(self) -> Progress {
        Progress {
            stage: self.stage,
            max_size: self.max_size,
            inputs_digest: optional_text(self.inputs_digest),
            entry_files: self.entry_files,
            entry_size: self.entry_size,
            cache_size: self.cache_size,
            staged: self.staged,
            renamed: self.renamed,
            outcome: self.outcome,
        }
    }
}

/// The first stage of the confirmation behind the given one.
pub open spec fn after_round(round: Round) -> PublicationStage {
    match round {
        Round::Compiled => PublicationStage::ActionLock,
        Round::Staged => PublicationStage::PublicationLock,
        Round::Locked => PublicationStage::ExistingEntry,
    }
}

/// Why a publication is skipped when a confirmation fails at `stage`.
pub open spec fn change_reason(stage: PublicationStage) -> PublicationSkipReason {
    match stage {
        PublicationStage::CompilerIdentity(
            Round::Compiled,
        ) => PublicationSkipReason::CompilerIdentityChanged,
        PublicationStage::LoaderInputs(
            Round::Compiled,
        ) => PublicationSkipReason::LoaderInputsChanged,
        PublicationStage::ActionInputs(
            Round::Compiled,
        ) => PublicationSkipReason::ActionInputsChanged,
        PublicationStage::SourceInputs(
            Round::Compiled,
        ) => PublicationSkipReason::SourceInputsUnavailable,
        PublicationStage::CompilerIdentity(
            Round::Staged,
        ) => PublicationSkipReason::InputsChangedDuringStaging,
        PublicationStage::LoaderInputs(
            Round::Staged,
        ) => PublicationSkipReason::InputsChangedDuringStaging,
        PublicationStage::ActionInputs(
            Round::Staged,
        ) => PublicationSkipReason::InputsChangedDuringStaging,
        PublicationStage::SourceInputs(
            Round::Staged,
        ) => PublicationSkipReason::InputsChangedDuringStaging,
        _ => PublicationSkipReason::InputsChangedBeforePublication,
    }
}

/// The publication, skipped.
pub open spec fn skipped(progress: Progress, reason: PublicationSkipReason) -> Progress {
    Progress {
        stage: PublicationStage::Done,
        outcome: Some(Ok(PublicationOutcome::Skipped(reason))),
        ..progress
    }
}

/// The publication, failed.
pub open spec fn failed(progress: Progress) -> Progress {
    Progress { stage: PublicationStage::Done, outcome: Some(Err(())), ..progress }
}

/// The publication, waiting for the next thing.
pub open spec fn moved(progress: Progress, stage: PublicationStage) -> Progress {
    Progress { stage, ..progress }
}

/// The text of an optional digest.
pub open spec fn digest_text(digest: Option<String>) -> Option<Seq<char>> {
    optional_text(digest)
}

/// The publication after an event. An event that the stage does not wait for
/// is a failure.
pub open spec fn after_event(progress: Progress, event: PublicationEvent) -> Progress {
    match (progress.stage, event) {
        (PublicationStage::Done, _) => progress,
        (_, PublicationEvent::Failed) => failed(progress),
        (PublicationStage::InputSupport, PublicationEvent::Support(support)) => match support {
            RlibCacheInputSupport::Supported => moved(
                progress,
                PublicationStage::CompilerIdentity(Round::Compiled),
            ),
            RlibCacheInputSupport::MissingDepInfo => skipped(
                progress,
                PublicationSkipReason::SourceInputsUnavailable,
            ),
            RlibCacheInputSupport::GeneratedBuildInput => skipped(
                progress,
                PublicationSkipReason::GeneratedBuildInput,
            ),
        },
        (PublicationStage::CompilerIdentity(round), PublicationEvent::Verdict(current)) => if current {
            moved(progress, PublicationStage::LoaderInputs(round))
        } else {
            skipped(progress, change_reason(progress.stage))
        },
        (PublicationStage::LoaderInputs(round), PublicationEvent::Verdict(same)) => if same {
            moved(progress, PublicationStage::ActionInputs(round))
        } else {
            skipped(progress, change_reason(progress.stage))
        },
        (PublicationStage::ActionInputs(round), PublicationEvent::Verdict(current)) => if current {
            moved(progress, PublicationStage::SourceInputs(round))
        } else {
            skipped(progress, change_reason(progress.stage))
        },
        (PublicationStage::SourceInputs(round), PublicationEvent::Digest(digest)) => match digest {
            None => skipped(progress, change_reason(progress.stage)),
            Some(digest) => if round == Round::Compiled {
                Progress {
                    stage: after_round(round),
                    inputs_digest: Some(digest@),
                    ..progress
                }
            } else if progress.inputs_digest == Some(digest@) {
                moved(progress, after_round(round))
            } else {
                skipped(progress, change_reason(progress.stage))
            },
        },
        (PublicationStage::ActionLock, PublicationEvent::Verdict(taken)) => if taken {
            moved(progress, PublicationStage::ActionRoot)
        } else {
            skipped(progress, PublicationSkipReason::ActionLockUnavailable)
        },
        (PublicationStage::ActionRoot, PublicationEvent::Verdict(supported)) => if supported {
            moved(progress, PublicationStage::StagingDirectory)
        } else {
            skipped(progress, PublicationSkipReason::UnsupportedActionRoot)
        },
        (PublicationStage::StagingDirectory, PublicationEvent::StagingMade) => Progress {
            stage: PublicationStage::Staging,
            staged: true,
            ..progress
        },
        (
            PublicationStage::Staging,
            PublicationEvent::Staged { entry_files, entry_size },
        ) => {
            let staged = Progress { entry_files, entry_size, ..progress };
            if within_limit(entry_size, progress.max_size) {
                moved(staged, PublicationStage::CompilerIdentity(Round::Staged))
            } else {
                skipped(staged, PublicationSkipReason::EntryTooLarge)
            }
        },
        (PublicationStage::PublicationLock, PublicationEvent::Verdict(taken)) => if taken {
            moved(progress, PublicationStage::RecordedSize)
        } else {
            skipped(progress, PublicationSkipReason::PublicationLockUnavailable)
        },
        (PublicationStage::RecordedSize, PublicationEvent::Recorded(recorded)) => if recorded is Some
            && within_limit(recorded->0, progress.max_size) {
            Progress {
                stage: PublicationStage::CompilerIdentity(Round::Locked),
                cache_size: recorded->0,
                ..progress
            }
        } else {
            moved(progress, PublicationStage::Reconcile)
        },
        (PublicationStage::Reconcile, PublicationEvent::Size(size)) => Progress {
            stage: PublicationStage::CompilerIdentity(Round::Locked),
            cache_size: size,
            ..progress
        },
        (PublicationStage::ExistingEntry, PublicationEvent::Absent) => moved(
            progress,
            PublicationStage::Rename,
        ),
        (PublicationStage::ExistingEntry, PublicationEvent::Present { usable }) => if usable {
            skipped(progress, PublicationSkipReason::AlreadyStored)
        } else {
            moved(progress, PublicationStage::Replace)
        },
        (PublicationStage::Replace, PublicationEvent::Size(size)) => Progress {
            stage: PublicationStage::Rename,
            cache_size: size,
            ..progress
        },
        (PublicationStage::Rename, PublicationEvent::Renamed) => {
            let size = added(progress.cache_size, progress.entry_size);
            Progress {
                stage: if within_limit(size, progress.max_size) {
                    PublicationStage::WriteSize
                } else {
                    PublicationStage::ReconcileRetained
                },
                cache_size: size,
                staged: false,
                renamed: true,
                ..progress
            }
        },
        (PublicationStage::Rename, PublicationEvent::NotRenamed { complete }) => if complete {
            moved(progress, PublicationStage::ReconcileConcurrent)
        } else {
            failed(progress)
        },
        (PublicationStage::ReconcileConcurrent, PublicationEvent::Size(_)) => skipped(
            progress,
            PublicationSkipReason::ConcurrentPublication,
        ),
        (PublicationStage::WriteSize, PublicationEvent::Written) => Progress {
            stage: PublicationStage::Done,
            outcome: Some(Ok(PublicationOutcome::Stored)),
            ..progress
        },
        (PublicationStage::ReconcileRetained, PublicationEvent::Size(_)) => Progress {
            stage: PublicationStage::Done,
            outcome: Some(Ok(PublicationOutcome::Stored)),
            ..progress
        },
        _ => failed(progress),
    }
}

/// Whether a publication has ended and left its staging directory behind.
pub open spec fn leaves_staging(progress: Progress) -> bool {
    progress.stage == PublicationStage::Done && progress.staged
}

/// The start of a publication.
pub open spec fn publication_start(max_size: Option<u64>) -> Progress {
    Progress {
        stage: PublicationStage::InputSupport,
        max_size,
        inputs_digest: None,
        entry_files: 0,
        entry_size: 0,
        cache_size: 0,
        staged: false,
        renamed: false,
        outcome: None,
    }
}

/// The publication after events, in order.
pub open spec fn after_events(progress: Progress, events: Seq<PublicationEvent>) -> Progress
    decreases events.len(),
{
    if events.len() == 0 {
        progress
    } else {
        after_event(after_events(progress, events.drop_last()), events.last())
    }
}

/// Why a publication is skipped when a confirmation fails at `stage`.
fn reason_for_change(stage: PublicationStage) -> (reason: PublicationSkipReason)
    ensures
        reason == change_reason(stage),
{
    match stage {
        PublicationStage::CompilerIdentity(
            Round::Compiled,
        ) => PublicationSkipReason::CompilerIdentityChanged,
        PublicationStage::LoaderInputs(
            Round::Compiled,
        ) => PublicationSkipReason::LoaderInputsChanged,
        PublicationStage::ActionInputs(
            Round::Compiled,
        ) => PublicationSkipReason::ActionInputsChanged,
        PublicationStage::SourceInputs(
            Round::Compiled,
        ) => PublicationSkipReason::SourceInputsUnavailable,
        PublicationStage::CompilerIdentity(
            Round::Staged,
        ) => PublicationSkipReason::InputsChangedDuringStaging,
        PublicationStage::LoaderInputs(
            Round::Staged,
        ) => PublicationSkipReason::InputsChangedDuringStaging,
        PublicationStage::ActionInputs(
            Round::Staged,
        ) => PublicationSkipReason::InputsChangedDuringStaging,
        PublicationStage::SourceInputs(
            Round::Staged,
        ) => PublicationSkipReason::InputsChangedDuringStaging,
        _ => PublicationSkipReason::InputsChangedBeforePublication,
    }
}

/// The first stage behind a confirmation.
fn stage_after_round(round: Round) -> (stage: PublicationStage)
    ensures
        stage == after_round(round),
{
    match round {
        Round::Compiled => PublicationStage::ActionLock,
        Round::Staged => PublicationStage::PublicationLock,
        Round::Locked => PublicationStage::ExistingEntry,
    }
}

impl Publication {
    /// The start of a publication.
    pub fn new(max_size: Option<u64>) -> (publication: Self)
        ensures
            publication.progress() == publication_start(max_size),
    {
        Publication {
            stage: PublicationStage::InputSupport,
            max_size,
            inputs_digest: None,
            entry_files: 0,
            entry_size: 0,
            cache_size: 0,
            staged: false,
            renamed: false,
            outcome: None,
        }
    }

    /// Ends the publication without storing an entry.
    fn skip(&mut self, reason: PublicationSkipReason)
        ensures
            final(self).progress() == skipped(old(self).progress(), reason),
    {
        self.stage = PublicationStage::Done;
        self.outcome = Some(Ok(skip_artifact_cache_publication(reason)));
    }

    /// Ends the publication with a failure.
    fn fail(&mut self)
        ensures
            final(self).progress() == failed(old(self).progress()),
    {
        self.stage = PublicationStage::Done;
        self.outcome = Some(Err(()));
    }

    /// Goes on after an event.
    #[verifier::rlimit(60)]
    pub fn advance(&mut self, event: PublicationEvent)
        ensures
            final(self).progress() == after_event(old(self).progress(), event),
    {
        match (self.stage, event) {
            (PublicationStage::Done, _) => {},
            (_, PublicationEvent::Failed) => {
                self.fail();
            },
            (PublicationStage::InputSupport, PublicationEvent::Support(support)) => match support {
                RlibCacheInputSupport::Supported => {
                    self.stage = PublicationStage::CompilerIdentity(Round::Compiled);
                },
                RlibCacheInputSupport::MissingDepInfo => {
                    self.skip(PublicationSkipReason::SourceInputsUnavailable);
                },
                RlibCacheInputSupport::GeneratedBuildInput => {
                    self.skip(PublicationSkipReason::GeneratedBuildInput);
                },
            },
            (PublicationStage::CompilerIdentity(round), PublicationEvent::Verdict(current)) => {
                if current {
                    self.stage = PublicationStage::LoaderInputs(round);
                } else {
                    self.skip(reason_for_change(PublicationStage::CompilerIdentity(round)));
                }
            },
            (PublicationStage::LoaderInputs(round), PublicationEvent::Verdict(same)) => {
                if same {
                    self.stage = PublicationStage::ActionInputs(round);
                } else {
                    self.skip(reason_for_change(PublicationStage::LoaderInputs(round)));
                }
            },
            (PublicationStage::ActionInputs(round), PublicationEvent::Verdict(current)) => {
                if current {
                    self.stage = PublicationStage::SourceInputs(round);
                } else {
                    self.skip(reason_for_change(PublicationStage::ActionInputs(round)));
                }
            },
            (PublicationStage::SourceInputs(round), PublicationEvent::Digest(digest)) => {
                let reason = reason_for_change(PublicationStage::SourceInputs(round));
                match digest {
                    None => {
                        self.skip(reason);
                    },
                    Some(digest) => {
                        if round == Round::Compiled {
                            self.inputs_digest = Some(digest);
                            self.stage = stage_after_round(round);
                        } else {
                            let same = match &self.inputs_digest {
                                Some(recorded) => text_is(recorded.as_str(), digest.as_str()),
                                None => false,
                            };
                            if same {
                                self.stage = stage_after_round(round);
                            } else {
                                self.skip(reason);
                            }
                        }
                    },
                }
            },
            (PublicationStage::ActionLock, PublicationEvent::Verdict(taken)) => {
                if taken {
                    self.stage = PublicationStage::ActionRoot;
                } else {
                    self.skip(PublicationSkipReason::ActionLockUnavailable);
                }
            },
            (PublicationStage::ActionRoot, PublicationEvent::Verdict(supported)) => {
                if supported {
                    self.stage = PublicationStage::StagingDirectory;
                } else {
                    self.skip(PublicationSkipReason::UnsupportedActionRoot);
                }
            },
            (PublicationStage::StagingDirectory, PublicationEvent::StagingMade) => {
                self.staged = true;
                self.stage = PublicationStage::Staging;
            },
            (
                PublicationStage::Staging,
                PublicationEvent::Staged { entry_files, entry_size },
            ) => {
                self.entry_files = entry_files;
                self.entry_size = entry_size;
                if rlib_cache_size_within_limit(entry_size, self.max_size) {
                    self.stage = PublicationStage::CompilerIdentity(Round::Staged);
                } else {
                    self.skip(PublicationSkipReason::EntryTooLarge);
                }
            },
            (PublicationStage::PublicationLock, PublicationEvent::Verdict(taken)) => {
                if taken {
                    self.stage = PublicationStage::RecordedSize;
                } else {
                    self.skip(PublicationSkipReason::PublicationLockUnavailable);
                }
            },
            (PublicationStage::RecordedSize, PublicationEvent::Recorded(recorded)) => {
                match recorded {
                    Some(size) if rlib_cache_size_within_limit(size, self.max_size) => {
                        self.cache_size = size;
                        self.stage = PublicationStage::CompilerIdentity(Round::Locked);
                    },
                    _ => {
                        self.stage = PublicationStage::Reconcile;
                    },
                }
            },
            (PublicationStage::Reconcile, PublicationEvent::Size(size)) => {
                self.cache_size = size;
                self.stage = PublicationStage::CompilerIdentity(Round::Locked);
            },
            (PublicationStage::ExistingEntry, PublicationEvent::Absent) => {
                self.stage = PublicationStage::Rename;
            },
            (PublicationStage::ExistingEntry, PublicationEvent::Present { usable }) => {
                if usable {
                    self.skip(PublicationSkipReason::AlreadyStored);
                } else {
                    self.stage = PublicationStage::Replace;
                }
            },
            (PublicationStage::Replace, PublicationEvent::Size(size)) => {
                self.cache_size = size;
                self.stage = PublicationStage::Rename;
            },
            (PublicationStage::Rename, PublicationEvent::Renamed) => {
                self.cache_size = self.cache_size.saturating_add(self.entry_size);
                self.staged = false;
                self.renamed = true;
                self.stage =
                if rlib_cache_size_within_limit(self.cache_size, self.max_size) {
                    PublicationStage::WriteSize
                } else {
                    PublicationStage::ReconcileRetained
                };
            },
            (PublicationStage::Rename, PublicationEvent::NotRenamed { complete }) => {
                if complete {
                    self.stage = PublicationStage::ReconcileConcurrent;
                } else {
                    self.fail();
                }
            },
            (PublicationStage::ReconcileConcurrent, PublicationEvent::Size(_)) => {
                self.skip(PublicationSkipReason::ConcurrentPublication);
            },
            (PublicationStage::WriteSize, PublicationEvent::Written) => {
                self.stage = PublicationStage::Done;
                self.outcome = Some(Ok(PublicationOutcome::Stored));
            },
            (PublicationStage::ReconcileRetained, PublicationEvent::Size(_)) => {
                self.stage = PublicationStage::Done;
                self.outcome = Some(Ok(PublicationOutcome::Stored));
            },
            _ => {
                self.fail();
            },
        }
    }

    /// Whether the staging directory is left to be removed at the end.
    pub fn removes_staging(&self) -> (removes: bool)
        ensures
            removes == leaves_staging(self.progress()),
    {
        match self.stage {
            PublicationStage::Done => self.staged,
            _ => false,
        }
    }

    /// Whether the entry in place is recorded for a snapshot: it was stored, or
    /// a usable one stood there.
    pub fn records_snapshot(&self) -> (records: bool)
        ensures
            records == (self.outcome == Some(
                Ok::<PublicationOutcome, ()>(PublicationOutcome::Stored),
            ) || self.outcome == Some(
                Ok::<PublicationOutcome, ()>(
                    PublicationOutcome::Skipped(PublicationSkipReason::AlreadyStored),
                ),
            )),
    {
        match self.outcome {
            Some(Ok(PublicationOutcome::Stored)) => true,
            Some(Ok(PublicationOutcome::Skipped(PublicationSkipReason::AlreadyStored))) => true,
            _ => false,
        }
    }
}

/// How often the inputs were confirmed before a stage.
pub open spec fn rounds_before(stage: PublicationStage) -> int {
    match stage {
        PublicationStage::InputSupport => 0,
        PublicationStage::CompilerIdentity(Round::Compiled) => 0,
        PublicationStage::LoaderInputs(Round::Compiled) => 0,
        PublicationStage::ActionInputs(Round::Compiled) => 0,
        PublicationStage::SourceInputs(Round::Compiled) => 0,
        PublicationStage::ActionLock => 1,
        PublicationStage::ActionRoot => 1,
        PublicationStage::StagingDirectory => 1,
        PublicationStage::Staging => 1,
        PublicationStage::CompilerIdentity(Round::Staged) => 1,
        PublicationStage::LoaderInputs(Round::Staged) => 1,
        PublicationStage::ActionInputs(Round::Staged) => 1,
        PublicationStage::SourceInputs(Round::Staged) => 1,
        PublicationStage::PublicationLock => 2,
        PublicationStage::RecordedSize => 2,
        PublicationStage::Reconcile => 2,
        PublicationStage::CompilerIdentity(Round::Locked) => 2,
        PublicationStage::LoaderInputs(Round::Locked) => 2,
        PublicationStage::ActionInputs(Round::Locked) => 2,
        PublicationStage::SourceInputs(Round::Locked) => 2,
        _ => 3,
    }
}

/// The number of events that confirm the source inputs with `digest`.
pub open spec fn confirmations(events: Seq<PublicationEvent>, digest: Seq<char>) -> int
    decreases events.len(),
{
    if events.len() == 0 {
        0
    } else {
        confirmations(events.drop_last(), digest) + match events.last() {
            PublicationEvent::Digest(Some(found)) if found@ == digest => 1int,
            _ => 0int,
        }
    }
}

/// The number of events that give a positive verdict.
pub open spec fn verdicts(events: Seq<PublicationEvent>) -> int
    decreases events.len(),
{
    if events.len() == 0 {
        0
    } else {
        verdicts(events.drop_last()) + match events.last() {
            PublicationEvent::Verdict(true) => 1int,
            _ => 0int,
        }
    }
}

/// How many positive verdicts come before a stage.
pub open spec fn verdicts_before(stage: PublicationStage) -> int {
    match stage {
        PublicationStage::InputSupport => 0,
        PublicationStage::CompilerIdentity(Round::Compiled) => 0,
        PublicationStage::LoaderInputs(Round::Compiled) => 1,
        PublicationStage::ActionInputs(Round::Compiled) => 2,
        PublicationStage::SourceInputs(Round::Compiled) => 3,
        PublicationStage::ActionLock => 3,
        PublicationStage::ActionRoot => 4,
        PublicationStage::StagingDirectory => 5,
        PublicationStage::Staging => 5,
        PublicationStage::CompilerIdentity(Round::Staged) => 5,
        PublicationStage::LoaderInputs(Round::Staged) => 6,
        PublicationStage::ActionInputs(Round::Staged) => 7,
        PublicationStage::SourceInputs(Round::Staged) => 8,
        PublicationStage::PublicationLock => 8,
        PublicationStage::RecordedSize => 9,
        PublicationStage::Reconcile => 9,
        PublicationStage::CompilerIdentity(Round::Locked) => 9,
        PublicationStage::LoaderInputs(Round::Locked) => 10,
        PublicationStage::ActionInputs(Round::Locked) => 11,
        PublicationStage::SourceInputs(Round::Locked) => 12,
        _ => 12,
    }
}

/// Whether a run has come as far as its stage says.
pub open spec fn run_is_sound(progress: Progress, events: Seq<PublicationEvent>) -> bool {
    let done = progress.stage == PublicationStage::Done;
    &&& !done ==> progress.outcome is None
    &&& progress.renamed ==> !progress.staged
    &&& progress.renamed ==> (progress.stage == PublicationStage::WriteSize || progress.stage
        == PublicationStage::ReconcileRetained || done)
    &&& (progress.stage == PublicationStage::WriteSize || progress.stage
        == PublicationStage::ReconcileRetained) ==> progress.renamed
    &&& (!done && rounds_before(progress.stage) > 0) ==> progress.inputs_digest is Some
    &&& !done ==> verdicts(events) >= verdicts_before(progress.stage)
    &&& (!done && rounds_before(progress.stage) > 0) ==> confirmations(
        events,
        progress.inputs_digest->0,
    ) >= rounds_before(progress.stage)
    &&& progress.outcome == Some(Ok::<PublicationOutcome, ()>(PublicationOutcome::Stored)) ==> {
        &&& progress.renamed
        &&& progress.inputs_digest is Some
        &&& confirmations(events, progress.inputs_digest->0) >= 3
        &&& verdicts(events) >= 12
    }
    &&& (progress.stage == PublicationStage::ExistingEntry || progress.stage
        == PublicationStage::Replace || progress.stage == PublicationStage::Rename
        || progress.stage == PublicationStage::ReconcileConcurrent || progress.renamed)
        ==> within_limit(progress.entry_size, progress.max_size)
    &&& (!done && rounds_before(progress.stage) >= 2 && !progress.renamed)
        ==> progress.staged && within_limit(progress.entry_size, progress.max_size)
    &&& progress.stage == PublicationStage::Staging ==> progress.staged
    &&& (progress.stage == PublicationStage::CompilerIdentity(Round::Staged) || progress.stage
        == PublicationStage::LoaderInputs(Round::Staged) || progress.stage
        == PublicationStage::ActionInputs(Round::Staged) || progress.stage
        == PublicationStage::SourceInputs(Round::Staged)) ==> progress.staged && within_limit(
        progress.entry_size,
        progress.max_size,
    )
}

/// The number of confirmations is not negative.
proof fn lemma_confirmations(events: Seq<PublicationEvent>, digest: Seq<char>)
    ensures
        confirmations(events, digest) >= 0,
    decreases events.len(),
{
    if events.len() > 0 {
        lemma_confirmations(events.drop_last(), digest);
    }
}

/// Runs come as far as their stages say.
#[verifier::rlimit(60)]
proof fn lemma_runs_are_sound(max_size: Option<u64>, events: Seq<PublicationEvent>)
    ensures
        run_is_sound(after_events(publication_start(max_size), events), events),
        after_events(publication_start(max_size), events).max_size == max_size,
    decreases events.len(),
{
    if events.len() > 0 {
        lemma_runs_are_sound(max_size, events.drop_last());
        let end = after_events(publication_start(max_size), events);
        if end.inputs_digest is Some {
            lemma_confirmations(events.drop_last(), end.inputs_digest->0);
        }
    }
}

/// An entry is stored only after its source inputs were confirmed three times
/// with one digest, and every other verdict was positive: three times for the
/// compiler, the loader inputs and the action inputs, and once for each of the
/// locks and the action root. The entry is then within the limit of the cache.
pub proof fn law_stored_entries_were_confirmed(
    max_size: Option<u64>,
    events: Seq<PublicationEvent>,
)
    ensures
        ({
            let end = after_events(publication_start(max_size), events);
            end.outcome == Some(Ok::<PublicationOutcome, ()>(PublicationOutcome::Stored)) ==> {
                &&& end.renamed
                &&& end.inputs_digest is Some
                &&& confirmations(events, end.inputs_digest->0) >= 3
                &&& verdicts(events) >= 12
                &&& within_limit(end.entry_size, max_size)
            }
        }),
{
    lemma_runs_are_sound(max_size, events);
}

/// A publication that is skipped or failed did not move an entry into place,
/// unless the size of the cache could not be recorded afterwards.
pub proof fn law_skipped_publications_store_nothing(
    max_size: Option<u64>,
    events: Seq<PublicationEvent>,
    reason: PublicationSkipReason,
)
    requires
        after_events(publication_start(max_size), events).outcome == Some(
            Ok::<PublicationOutcome, ()>(PublicationOutcome::Skipped(reason)),
        ),
    ensures
        !after_events(publication_start(max_size), events).renamed,
{
    lemma_skipped_not_renamed(max_size, events);
}

/// Skipped publications did not move an entry into place.
#[verifier::rlimit(60)]
proof fn lemma_skipped_not_renamed(max_size: Option<u64>, events: Seq<PublicationEvent>)
    ensures
        ({
            let end = after_events(publication_start(max_size), events);
            match end.outcome {
                Some(Ok(PublicationOutcome::Skipped(_))) => !end.renamed,
                _ => true,
            }
        }),
    decreases events.len(),
{
    if events.len() > 0 {
        lemma_skipped_not_renamed(max_size, events.drop_last());
        lemma_runs_are_sound(max_size, events.drop_last());
    }
}

/// Whether a run made the staging directory.
pub open spec fn made_staging(progress: Progress, events: Seq<PublicationEvent>) -> bool
    decreases events.len(),
{
    events.len() > 0 && (made_staging(progress, events.drop_last()) || (after_events(
        progress,
        events.drop_last(),
    ).stage == PublicationStage::StagingDirectory && events.last() is StagingMade))
}

/// A staging directory never stays: a run that made one, whatever events came,
/// moved it into place or, at its end, has it removed. One that made none has
/// none to remove.
#[verifier::rlimit(60)]
pub proof fn law_staging_is_moved_or_removed(max_size: Option<u64>, events: Seq<PublicationEvent>)
    ensures
        ({
            let end = after_events(publication_start(max_size), events);
            let made = made_staging(publication_start(max_size), events);
            &&& end.stage == PublicationStage::Done ==> made == (end.renamed || leaves_staging(end))
            &&& made == (end.renamed || end.staged)
            &&& !(end.renamed && end.staged)
        }),
    decreases events.len(),
{
    lemma_runs_are_sound(max_size, events);
    if events.len() > 0 {
        law_staging_is_moved_or_removed(max_size, events.drop_last());
        lemma_runs_are_sound(max_size, events.drop_last());
    }
}

/// Whether a run staged an entry that is over the limit of the cache.
pub open spec fn staged_oversized(progress: Progress, events: Seq<PublicationEvent>) -> bool
    decreases events.len(),
{
    events.len() > 0 && (staged_oversized(progress, events.drop_last()) || (after_events(
        progress,
        events.drop_last(),
    ).stage == PublicationStage::Staging && match events.last() {
        PublicationEvent::Staged { entry_size, .. } => !within_limit(entry_size, progress.max_size),
        _ => false,
    }))
}

/// An entry that is over the limit of the cache is not published: the run ends
/// there, with this reason, and its staging directory is removed.
#[verifier::rlimit(60)]
pub proof fn law_oversized_entries_are_not_published(
    max_size: Option<u64>,
    events: Seq<PublicationEvent>,
)
    requires
        staged_oversized(publication_start(max_size), events),
    ensures
        ({
            let end = after_events(publication_start(max_size), events);
            &&& end.outcome == Some(
                Ok::<PublicationOutcome, ()>(
                    PublicationOutcome::Skipped(PublicationSkipReason::EntryTooLarge),
                ),
            )
            &&& !end.renamed
            &&& leaves_staging(end)
        }),
    decreases events.len(),
{
    lemma_runs_are_sound(max_size, events.drop_last());
    if staged_oversized(publication_start(max_size), events.drop_last()) {
        law_oversized_entries_are_not_published(max_size, events.drop_last());
    }
}

/// Once a publication has ended, no event changes how.
pub proof fn law_ended_publications_stay(progress: Progress, event: PublicationEvent)
    requires
        progress.stage == PublicationStage::Done,
    ensures
        after_event(progress, event) == progress,
{
}

/// No doubt leads to an entry: a failure ends a publication with an error; a negative
/// verdict, inputs without a digest, and inputs with another digest than the
/// compiler read end it without an entry. An entry is in place only by being
/// moved there, and stored only when its size is recorded after that.
pub proof fn law_doubts_are_not_published(progress: Progress, event: PublicationEvent)
    requires
        progress.stage != PublicationStage::Done,
        progress.outcome is None,
    ensures
        ({
            let after = after_event(progress, event);
            let stored = Some(Ok::<PublicationOutcome, ()>(PublicationOutcome::Stored));
            &&& event is Failed ==> after.outcome == Some(Err::<PublicationOutcome, ()>(()))
            &&& event == PublicationEvent::Verdict(false) || event == PublicationEvent::Digest(None)
                ==> {
                &&& after.stage == PublicationStage::Done
                &&& after.outcome is Some
                &&& after.outcome != stored
                &&& after.renamed == progress.renamed
            }
            &&& (progress.stage == PublicationStage::SourceInputs(Round::Staged) || progress.stage
                == PublicationStage::SourceInputs(Round::Locked)) ==> (event matches
                PublicationEvent::Digest(Some(found)) ==> {
                &&& Some(found@) != progress.inputs_digest ==> after.stage == PublicationStage::Done
                    && after.outcome != stored
                &&& Some(found@) == progress.inputs_digest ==> after.outcome is None
                &&& after.inputs_digest == progress.inputs_digest
            })
            &&& after.renamed && !progress.renamed ==> event is Renamed && progress.stage
                == PublicationStage::Rename
            &&& after.outcome == stored ==> (event is Written && progress.stage
                == PublicationStage::WriteSize) || (event is Size && progress.stage
                == PublicationStage::ReconcileRetained)
        }),
{
}

/// Moving an entry into place adds its size to that of the cache, up to the largest
/// size, and the cache is brought back below its limit exactly where it is then
/// above it.
pub proof fn law_published_sizes_add_up(progress: Progress)
    requires
        progress.stage == PublicationStage::Rename,
    ensures
        ({
            let after = after_event(progress, PublicationEvent::Renamed);
            let sum = progress.cache_size as int + progress.entry_size as int;
            &&& after.renamed
            &&& !after.staged
            &&& after.cache_size == if sum <= u64::MAX {
                sum
            } else {
                u64::MAX as int
            }
            &&& after.stage == match progress.max_size {
                Some(limit) => if after.cache_size <= limit {
                    PublicationStage::WriteSize
                } else {
                    PublicationStage::ReconcileRetained
                },
                None => PublicationStage::WriteSize,
            }
        }),
{
}

/// One event more.
proof fn lemma_one_more(start: Progress, events: Seq<PublicationEvent>, event: PublicationEvent)
    ensures
        after_events(start, events.push(event)) == after_event(after_events(start, events), event),
{
    assert(events.push(event).drop_last() =~= events);
}

/// What happens in a publication where all is well.
pub open spec fn publishing(
    digest: String,
    entry_files: u64,
    entry_size: u64,
    cache_size: u64,
) -> Seq<PublicationEvent> {
    let yes = PublicationEvent::Verdict(true);
    let same = PublicationEvent::Digest(Some(digest));
    Seq::empty()
        .push(PublicationEvent::Support(RlibCacheInputSupport::Supported))
        .push(yes)
        .push(yes)
        .push(yes)
        .push(same)
        .push(yes)
        .push(yes)
        .push(PublicationEvent::StagingMade)
        .push(PublicationEvent::Staged { entry_files, entry_size })
        .push(yes)
        .push(yes)
        .push(yes)
        .push(same)
        .push(yes)
        .push(PublicationEvent::Recorded(Some(cache_size)))
        .push(yes)
        .push(yes)
        .push(yes)
        .push(same)
        .push(PublicationEvent::Absent)
        .push(PublicationEvent::Renamed)
        .push(PublicationEvent::Written)
}

/// An entry is stored where nothing speaks against it: the inputs are covered and stay
/// as they are, the locks are taken, the entry is within the limit, no entry is in its
/// place, and the cache is within its limit before and after.
#[verifier::rlimit(60)]
pub proof fn law_confirmed_entries_are_stored(
    max_size: Option<u64>,
    digest: String,
    entry_files: u64,
    entry_size: u64,
    cache_size: u64,
)
    requires
        cache_size + entry_size <= u64::MAX,
        max_size matches Some(limit) ==> cache_size + entry_size <= limit,
    ensures
        ({
            let end = after_events(
                publication_start(max_size),
                publishing(digest, entry_files, entry_size, cache_size),
            );
            &&& end.stage == PublicationStage::Done
            &&& end.outcome == Some(Ok::<PublicationOutcome, ()>(PublicationOutcome::Stored))
            &&& end.renamed
            &&& !leaves_staging(end)
            &&& end.inputs_digest == Some(digest@)
            &&& end.entry_files == entry_files
            &&& end.entry_size == entry_size
            &&& end.cache_size == cache_size + entry_size
        }),
{
    let yes = PublicationEvent::Verdict(true);
    let same = PublicationEvent::Digest(Some(digest));
    let start = publication_start(max_size);
    let e0 = Seq::<PublicationEvent>::empty();
    let e1 = e0.push(PublicationEvent::Support(RlibCacheInputSupport::Supported));
    lemma_one_more(start, e0, PublicationEvent::Support(RlibCacheInputSupport::Supported));
    assert(after_events(start, e1).stage != PublicationStage::Done);
    let e2 = e1.push(yes);
    lemma_one_more(start, e1, yes);
    assert(after_events(start, e2).stage != PublicationStage::Done);
    let e3 = e2.push(yes);
    lemma_one_more(start, e2, yes);
    assert(after_events(start, e3).stage != PublicationStage::Done);
    let e4 = e3.push(yes);
    lemma_one_more(start, e3, yes);
    assert(after_events(start, e4).stage != PublicationStage::Done);
    let e5 = e4.push(same);
    lemma_one_more(start, e4, same);
    assert(after_events(start, e5).stage != PublicationStage::Done);
    let e6 = e5.push(yes);
    lemma_one_more(start, e5, yes);
    assert(after_events(start, e6).stage != PublicationStage::Done);
    let e7 = e6.push(yes);
    lemma_one_more(start, e6, yes);
    assert(after_events(start, e7).stage != PublicationStage::Done);
    let e8 = e7.push(PublicationEvent::StagingMade);
    lemma_one_more(start, e7, PublicationEvent::StagingMade);
    assert(after_events(start, e8).stage != PublicationStage::Done);
    let e9 = e8.push(PublicationEvent::Staged { entry_files, entry_size });
    lemma_one_more(start, e8, PublicationEvent::Staged { entry_files, entry_size });
    assert(after_events(start, e9).stage != PublicationStage::Done);
    let e10 = e9.push(yes);
    lemma_one_more(start, e9, yes);
    assert(after_events(start, e10).stage != PublicationStage::Done);
    let e11 = e10.push(yes);
    lemma_one_more(start, e10, yes);
    assert(after_events(start, e11).stage != PublicationStage::Done);
    let e12 = e11.push(yes);
    lemma_one_more(start, e11, yes);
    assert(after_events(start, e12).stage != PublicationStage::Done);
    let e13 = e12.push(same);
    lemma_one_more(start, e12, same);
    assert(after_events(start, e13).stage != PublicationStage::Done);
    let e14 = e13.push(yes);
    lemma_one_more(start, e13, yes);
    assert(after_events(start, e14).stage != PublicationStage::Done);
    let e15 = e14.push(PublicationEvent::Recorded(Some(cache_size)));
    lemma_one_more(start, e14, PublicationEvent::Recorded(Some(cache_size)));
    assert(after_events(start, e15).stage != PublicationStage::Done);
    let e16 = e15.push(yes);
    lemma_one_more(start, e15, yes);
    assert(after_events(start, e16).stage != PublicationStage::Done);
    let e17 = e16.push(yes);
    lemma_one_more(start, e16, yes);
    assert(after_events(start, e17).stage != PublicationStage::Done);
    let e18 = e17.push(yes);
    lemma_one_more(start, e17, yes);
    assert(after_events(start, e18).stage != PublicationStage::Done);
    let e19 = e18.push(same);
    lemma_one_more(start, e18, same);
    assert(after_events(start, e19).stage != PublicationStage::Done);
    let e20 = e19.push(PublicationEvent::Absent);
    lemma_one_more(start, e19, PublicationEvent::Absent);
    assert(after_events(start, e20).stage != PublicationStage::Done);
    let e21 = e20.push(PublicationEvent::Renamed);
    lemma_one_more(start, e20, PublicationEvent::Renamed);
    assert(after_events(start, e21).stage != PublicationStage::Done);
    let e22 = e21.push(PublicationEvent::Written);
    lemma_one_more(start, e21, PublicationEvent::Written);
    assert(publishing(digest, entry_files, entry_size, cache_size) == e22);
}

} // verus!
