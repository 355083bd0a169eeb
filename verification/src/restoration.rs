//! Restoring a compilation from the cache: which checks it takes, and how it
//! ends.

use vstd::prelude::*;
use vstd::string::*;

use crate::digest::lossy_text;
use crate::digest::text_from_utf8_lossy;
use crate::disk::FileKind;
use crate::disk::Lookup;
use crate::disk::Metadata;
use crate::key_laws::lemma_nothing_replaced;
use crate::key_laws::occurs;
use crate::path_laws::is_plain_name;
use crate::path_laws::law_parents_are_read_back;
use crate::pruning::is_hidden;
use crate::pruning::path_is_hidden;
use crate::stats::MaterializationKind;
use crate::stats::MaterializationTotals;
use crate::text::replace;
use crate::text::replaced;
use crate::text::trim_end;
use crate::text::trimmed_end;
use crate::text_laws::law_occurrences_are_replaced;
use crate::unix_path::is_absolute;
use crate::unix_path::joined;
use crate::unix_path::parent_or_self;
use crate::unix_path::path_parent_or_self;

verus! {

/// How cached files are put in their places.
#[derive(Clone, Copy, Debug, PartialEq, Eq, Structural)]
pub enum ArtifactCacheMaterialization {
    Hardlink,
    Copy,
}

/// How the files of a restore are put in their places: the outputs of a check
/// are copied in any case, as their times are changed afterwards.
pub fn restore_materialization(
    is_check: bool,
    configured: ArtifactCacheMaterialization,
) -> (materialization: ArtifactCacheMaterialization)
    ensures
        materialization == if is_check {
            ArtifactCacheMaterialization::Copy
        } else {
            configured
        },
{
    if is_check {
        ArtifactCacheMaterialization::Copy
    } else {
        configured
    }
}

/// What is done first to put a cached file in its place.
#[derive(Clone, Copy, Debug, PartialEq, Eq, Structural)]
pub enum MaterializationStep {
    /// Remove what stands there and link the file.
    Link,
    /// Remove what stands there and copy the file.
    ReplaceByCopy,
    /// Copy the file over what stands there.
    CopyOver,
}

/// What is done first to put a cached file in its place. Links are made only
/// on Unix, where a rebuild detaches them.
pub fn first_materialization_step(
    materialization: ArtifactCacheMaterialization,
    unix: bool,
) -> (step: MaterializationStep)
    ensures
        step == match materialization {
            ArtifactCacheMaterialization::Copy => MaterializationStep::ReplaceByCopy,
            ArtifactCacheMaterialization::Hardlink => if unix {
                MaterializationStep::Link
            } else {
                MaterializationStep::CopyOver
            },
        },
{
    match materialization {
        ArtifactCacheMaterialization::Copy => MaterializationStep::ReplaceByCopy,
        ArtifactCacheMaterialization::Hardlink => if unix {
            MaterializationStep::Link
        } else {
            MaterializationStep::CopyOver
        },
    }
}

/// How an attempt to link a file ended.
#[derive(Clone, Copy, Debug, PartialEq, Eq, Structural)]
pub enum LinkAttempt {
    Linked,
    CrossesDevices,
    Failed,
}

/// How a file was put in its place after an attempt to link it: across devices
/// it is copied, any other failure is one.
pub fn materialize_rlib_cache_file(attempt: LinkAttempt) -> (kind: Option<MaterializationKind>)
    ensures
        kind == match attempt {
            LinkAttempt::Linked => Some(MaterializationKind::Hardlink),
            LinkAttempt::CrossesDevices => Some(MaterializationKind::CrossDeviceCopy),
            LinkAttempt::Failed => None,
        },
{
    match attempt {
        LinkAttempt::Linked => Some(MaterializationKind::Hardlink),
        LinkAttempt::CrossesDevices => Some(MaterializationKind::CrossDeviceCopy),
        LinkAttempt::Failed => None,
    }
}

/// Whether an output is removed before the compiler writes it: on Unix, where
/// it is a regular file that is linked elsewhere.
pub fn prepare_materialized_rlib_output_for_write(found: &Lookup<Metadata>, unix: bool) -> (remove:
    bool)
    ensures
        remove == match *found {
            Lookup::Found(metadata) => unix && metadata.kind == FileKind::File && metadata.links
                > 1,
            _ => false,
        },
{
    match found {
        Lookup::Found(metadata) => unix && metadata.kind == FileKind::File && metadata.links > 1,
        _ => false,
    }
}

/// Whether an entry is looked at by a restore: a directory without a dot
/// before its name, with a completion mark.
pub fn is_restore_candidate(is_directory: bool, path: &[u8], complete_is_file: bool) -> (candidate:
    bool)
    ensures
        candidate == (is_directory && !is_hidden(path@) && complete_is_file),
{
    is_directory && !path_is_hidden(path) && complete_is_file
}

/// The reported inputs of a compilation, with the directories of where it was
/// compiled replaced by those of where it is restored.
pub open spec fn translated_dep_info(
    stored: Seq<char>,
    origin_pkg_root: Seq<char>,
    origin_profile_root: Seq<char>,
    pkg_root: Seq<u8>,
    output_root: Seq<u8>,
) -> Seq<char> {
    replaced(
        replaced(stored, trimmed_end(origin_pkg_root), lossy_text(pkg_root)),
        trimmed_end(origin_profile_root),
        lossy_text(parent_or_self(output_root)),
    )
}

/// The reported inputs of a compilation, with the directories of where it was
/// compiled replaced by those of where it is restored.
pub fn translate_dep_info(
    stored: &str,
    origin_pkg_root: &str,
    origin_profile_root: &str,
    pkg_root: &[u8],
    output_root: &[u8],
) -> (translated: String)
    ensures
        translated@ == translated_dep_info(
            stored@,
            origin_pkg_root@,
            origin_profile_root@,
            pkg_root@,
            output_root@,
        ),
{
    let package = replace(
        stored,
        trim_end(origin_pkg_root).as_str(),
        text_from_utf8_lossy(pkg_root).as_str(),
    );
    let profile = path_parent_or_self(output_root);
    replace(
        package.as_str(),
        trim_end(origin_profile_root).as_str(),
        text_from_utf8_lossy(profile.as_slice()).as_str(),
    )
}

/// What a restore waits for.
#[derive(Clone, Copy, Debug, PartialEq, Eq, Structural)]
pub enum RestoreStage {
    /// Whether the action root is a directory.
    ActionRoot,
    /// Whether the cache was locked for the restore.
    Lock,
    /// Whether the action root is a directory still.
    LockedActionRoot,
    /// How many entries there are to look at.
    Candidates,
    /// Whether the files that tell what the entry was made from are intact.
    ControlFiles,
    /// Whether its inputs are there now.
    Inputs,
    /// Whether all files that are needed are intact.
    EntryFiles,
    /// That the next output was put in its place.
    Output,
    /// Whether the compiler identity is current.
    CompilerIdentity,
    /// Whether the loader inputs have the digest of the key.
    LoaderInputs,
    /// Whether the action inputs are current.
    ActionInputs,
    /// That messages and reported inputs were written.
    StateWrite,
    /// The end.
    Done,
}

/// What was found out for a stage.
#[derive(Clone, Copy, Debug, PartialEq, Eq, Structural)]
pub enum RestoreEvent {
    /// An operation failed.
    Failed,
    Verdict(bool),
    /// The number of entries to look at.
    Candidates(usize),
    /// Whether files are as expected. Nothing where they could not be read.
    Checked(Option<bool>),
    Materialized(MaterializationKind, u64),
    Written,
}

/// A restore in progress.
pub struct Restoration {
    pub stage: RestoreStage,
    /// The number of outputs of the compilation.
    pub outputs: usize,
    /// The number of entries to look at.
    pub candidates: usize,
    /// The entry that is looked at.
    pub candidate: usize,
    /// The number of outputs of the entry that are in their places.
    pub placed: usize,
    pub bytes: u64,
    pub totals: MaterializationTotals,
    /// The entries that were found to be damaged.
    pub corrupt: Vec<usize>,
    pub outcome: Option<Result<bool, ()>>,
    /// Whether the outputs are removed at the end.
    pub remove_outputs: bool,
    /// Whether damaged entries are cleaned up at the end.
    pub clean_up: bool,
}

/// A restore in progress, as plain values.
#[verifier::ext_equal]
pub struct RestoreProgress {
    pub stage: RestoreStage,
    pub outputs: usize,
    pub candidates: usize,
    pub candidate: usize,
    pub placed: usize,
    pub bytes: u64,
    pub corrupt: Seq<usize>,
    pub outcome: Option<Result<bool, ()>>,
    pub remove_outputs: bool,
    pub clean_up: bool,
}

impl Restoration {
    /// The restore as plain values, without its totals by kind.
    pub open spec fn progress(self) -> RestoreProgress {
        RestoreProgress {
            stage: self.stage,
            outputs: self.outputs,
            candidates: self.candidates,
            candidate: self.candidate,
            placed: self.placed,
            bytes: self.bytes,
            corrupt: self.corrupt@,
            outcome: self.outcome,
            remove_outputs: self.remove_outputs,
            clean_up: self.clean_up,
        }
    }
}

/// The restore, ended without a hit because of a failure.
pub open spec fn restore_failed(progress: RestoreProgress) -> RestoreProgress {
    RestoreProgress { stage: RestoreStage::Done, outcome: Some(Err(())), ..progress }
}

/// The restore, ended without a hit.
pub open spec fn restore_missed(progress: RestoreProgress) -> RestoreProgress {
    RestoreProgress { stage: RestoreStage::Done, outcome: Some(Ok(false)), ..progress }
}

/// The restore, looking at the next entry, or ended where there is none.
pub open spec fn next_candidate(progress: RestoreProgress) -> RestoreProgress {
    if progress.candidate + 1 < progress.candidates {
        RestoreProgress {
            stage: RestoreStage::ControlFiles,
            candidate: (progress.candidate + 1) as usize,
            placed: 0,
            bytes: 0,
            ..progress
        }
    } else {
        RestoreProgress {
            stage: RestoreStage::Done,
            outcome: Some(Ok(false)),
            clean_up: true,
            ..progress
        }
    }
}

/// The restore with the entry that is looked at noted as damaged.
pub open spec fn note_corrupt(progress: RestoreProgress) -> RestoreProgress {
    RestoreProgress { corrupt: progress.corrupt.push(progress.candidate), ..progress }
}

/// The restore after an event. An event that the stage does not wait for is a
/// failure.
pub open spec fn after_restore_event(progress: RestoreProgress, event: RestoreEvent) -> RestoreProgress {
    match (progress.stage, event) {
        (RestoreStage::Done, _) => progress,
        (_, RestoreEvent::Failed) => restore_failed(progress),
        (RestoreStage::ActionRoot, RestoreEvent::Verdict(directory)) => if directory {
            RestoreProgress { stage: RestoreStage::Lock, ..progress }
        } else {
            restore_missed(progress)
        },
        (RestoreStage::Lock, RestoreEvent::Verdict(taken)) => if taken {
            RestoreProgress { stage: RestoreStage::LockedActionRoot, ..progress }
        } else {
            restore_missed(progress)
        },
        (RestoreStage::LockedActionRoot, RestoreEvent::Verdict(directory)) => if directory {
            RestoreProgress { stage: RestoreStage::Candidates, ..progress }
        } else {
            restore_missed(progress)
        },
        (RestoreStage::Candidates, RestoreEvent::Candidates(count)) => if count > 0 {
            RestoreProgress {
                stage: RestoreStage::ControlFiles,
                candidates: count,
                candidate: 0,
                placed: 0,
                bytes: 0,
                ..progress
            }
        } else {
            RestoreProgress {
                stage: RestoreStage::Done,
                outcome: Some(Ok(false)),
                clean_up: true,
                ..progress
            }
        },
        (RestoreStage::ControlFiles, RestoreEvent::Checked(intact)) => if intact == Some(true) {
            RestoreProgress { stage: RestoreStage::Inputs, ..progress }
        } else {
            next_candidate(note_corrupt(progress))
        },
        (RestoreStage::Inputs, RestoreEvent::Checked(same)) => if same == Some(true) {
            RestoreProgress { stage: RestoreStage::EntryFiles, ..progress }
        } else {
            next_candidate(progress)
        },
        (RestoreStage::EntryFiles, RestoreEvent::Checked(intact)) => if intact == Some(true) {
            RestoreProgress {
                stage: if progress.outputs > 0 {
                    RestoreStage::Output
                } else {
                    RestoreStage::CompilerIdentity
                },
                ..progress
            }
        } else {
            next_candidate(note_corrupt(progress))
        },
        (RestoreStage::Output, RestoreEvent::Materialized(_, bytes)) => RestoreProgress {
            stage: if progress.placed + 1 < progress.outputs {
                RestoreStage::Output
            } else {
                RestoreStage::CompilerIdentity
            },
            placed: (progress.placed + 1) as usize,
            bytes: (progress.bytes + bytes) as u64,
            ..progress
        },
        (RestoreStage::CompilerIdentity, RestoreEvent::Verdict(current)) => if current {
            RestoreProgress { stage: RestoreStage::LoaderInputs, ..progress }
        } else {
            RestoreProgress { remove_outputs: true, ..restore_missed(progress) }
        },
        (RestoreStage::LoaderInputs, RestoreEvent::Verdict(same)) => if same {
            RestoreProgress { stage: RestoreStage::ActionInputs, ..progress }
        } else {
            RestoreProgress { remove_outputs: true, ..restore_missed(progress) }
        },
        (RestoreStage::ActionInputs, RestoreEvent::Verdict(current)) => if current {
            RestoreProgress { stage: RestoreStage::StateWrite, ..progress }
        } else {
            RestoreProgress { remove_outputs: true, ..restore_missed(progress) }
        },
        (RestoreStage::StateWrite, RestoreEvent::Written) => RestoreProgress {
            stage: RestoreStage::Done,
            outcome: Some(Ok(true)),
            clean_up: true,
            ..progress
        },
        _ => restore_failed(progress),
    }
}

/// The start of a restore.
pub open spec fn restore_start(outputs: usize) -> RestoreProgress {
    RestoreProgress {
        stage: RestoreStage::ActionRoot,
        outputs,
        candidates: 0,
        candidate: 0,
        placed: 0,
        bytes: 0,
        corrupt: Seq::empty(),
        outcome: None,
        remove_outputs: false,
        clean_up: false,
    }
}

/// The restore after events, in order.
pub open spec fn after_restore_events(
    progress: RestoreProgress,
    events: Seq<RestoreEvent>,
) -> RestoreProgress
    decreases events.len(),
{
    if events.len() == 0 {
        progress
    } else {
        after_restore_event(after_restore_events(progress, events.drop_last()), events.last())
    }
}

/// The files counted for all kinds.
pub open spec fn all_files(totals: MaterializationTotals) -> int {
    totals.files(MaterializationKind::Hardlink) + totals.files(MaterializationKind::Copy)
        + totals.files(MaterializationKind::CrossDeviceCopy)
}

/// The bytes counted for all kinds.
pub open spec fn all_bytes(totals: MaterializationTotals) -> int {
    totals.bytes(MaterializationKind::Hardlink) + totals.bytes(MaterializationKind::Copy)
        + totals.bytes(MaterializationKind::CrossDeviceCopy)
}

/// Totals that count nothing.
fn no_totals() -> (totals: MaterializationTotals)
    ensures
        forall|kind: MaterializationKind|
            #![trigger totals.files(kind)]
            totals.files(kind) == 0 && totals.bytes(kind) == 0,
        all_files(totals) == 0,
        all_bytes(totals) == 0,
{
    let totals = MaterializationTotals::default();
    proof {
        assert(totals.files(MaterializationKind::Hardlink) == 0);
        assert(totals.files(MaterializationKind::Copy) == 0);
        assert(totals.files(MaterializationKind::CrossDeviceCopy) == 0);
    }
    totals
}

/// Whether an event can be counted.
pub open spec fn can_count(restoration: Restoration, event: RestoreEvent) -> bool {
    match (restoration.stage, event) {
        (RestoreStage::Output, RestoreEvent::Materialized(kind, bytes)) => {
            restoration.bytes + bytes <= u64::MAX
        },
        _ => true,
    }
}

impl Restoration {
    /// Whether no more outputs were placed than there are, none before the
    /// entry was checked, and the totals by kind add up to all of them.
    pub open spec fn well_formed(self) -> bool {
        &&& self.placed <= self.outputs
        &&& self.stage == RestoreStage::Output ==> self.placed < self.outputs
        &&& (self.stage == RestoreStage::ControlFiles || self.stage == RestoreStage::Inputs
            || self.stage == RestoreStage::EntryFiles) ==> self.placed == 0
        &&& all_files(self.totals) == self.placed
        &&& all_bytes(self.totals) == self.bytes
    }

    /// The start of a restore.
    pub fn new(outputs: usize) -> (restoration: Self)
        ensures
            restoration.progress() == restore_start(outputs),
            restoration.well_formed(),
            forall|kind: MaterializationKind|
                #![trigger restoration.totals.files(kind)]
                restoration.totals.files(kind) == 0 && restoration.totals.bytes(kind) == 0,
    {
        let restoration = Restoration {
            stage: RestoreStage::ActionRoot,
            outputs,
            candidates: 0,
            candidate: 0,
            placed: 0,
            bytes: 0,
            totals: no_totals(),
            corrupt: Vec::new(),
            outcome: None,
            remove_outputs: false,
            clean_up: false,
        };
        proof {
            assert(restoration.progress() =~= restore_start(outputs));
        }
        restoration
    }

    /// Looks at the next entry, or ends where there is none.
    fn look_further(&mut self)
        requires
            old(self).placed <= old(self).outputs,
            all_files(old(self).totals) == old(self).placed,
            all_bytes(old(self).totals) == old(self).bytes,
        ensures
            final(self).progress() == next_candidate(old(self).progress()),
            final(self).well_formed(),
            final(self).totals == old(self).totals || final(self).placed == 0,
    {
        if self.candidates > 0 && self.candidate < self.candidates - 1 {
            self.stage = RestoreStage::ControlFiles;
            self.candidate = self.candidate + 1;
            self.placed = 0;
            self.bytes = 0;
            self.totals = no_totals();
        } else {
            self.stage = RestoreStage::Done;
            self.outcome = Some(Ok(false));
            self.clean_up = true;
        }
    }

    /// Ends without a hit.
    fn miss(&mut self, remove_outputs: bool)
        requires
            old(self).well_formed(),
        ensures
            final(self).progress() == (RestoreProgress {
                remove_outputs: old(self).remove_outputs || remove_outputs,
                ..restore_missed(old(self).progress())
            }),
            final(self).well_formed(),
            final(self).totals == old(self).totals,
    {
        self.stage = RestoreStage::Done;
        self.outcome = Some(Ok(false));
        self.remove_outputs = self.remove_outputs || remove_outputs;
    }

    /// Goes on after an event.
    #[verifier::rlimit(60)]
    pub fn advance(&mut self, event: RestoreEvent)
        requires
            old(self).well_formed(),
            can_count(*old(self), event),
        ensures
            final(self).progress() == after_restore_event(old(self).progress(), event),
            final(self).well_formed(),
            match (old(self).stage, event) {
                (RestoreStage::Output, RestoreEvent::Materialized(kind, bytes)) => {
                    &&& final(self).totals.files(kind) == old(self).totals.files(kind) + 1
                    &&& final(self).totals.bytes(kind) == old(self).totals.bytes(kind) + bytes
                    &&& forall|other: MaterializationKind|
                        #![trigger final(self).totals.files(other)]
                        #![trigger final(self).totals.bytes(other)]
                        other != kind ==> final(self).totals.files(other)
                            == old(self).totals.files(other) && final(self).totals.bytes(other)
                            == old(self).totals.bytes(other)
                },
                _ => final(self).totals == old(self).totals || final(self).placed == 0,
            },
    {
        match (self.stage, event) {
            (RestoreStage::Done, _) => {},
            (_, RestoreEvent::Failed) => {
                self.stage = RestoreStage::Done;
                self.outcome = Some(Err(()));
            },
            (RestoreStage::ActionRoot, RestoreEvent::Verdict(directory)) => {
                if directory {
                    self.stage = RestoreStage::Lock;
                } else {
                    self.miss(false);
                }
            },
            (RestoreStage::Lock, RestoreEvent::Verdict(taken)) => {
                if taken {
                    self.stage = RestoreStage::LockedActionRoot;
                } else {
                    self.miss(false);
                }
            },
            (RestoreStage::LockedActionRoot, RestoreEvent::Verdict(directory)) => {
                if directory {
                    self.stage = RestoreStage::Candidates;
                } else {
                    self.miss(false);
                }
            },
            (RestoreStage::Candidates, RestoreEvent::Candidates(count)) => {
                if count > 0 {
                    self.stage = RestoreStage::ControlFiles;
                    self.candidates = count;
                    self.candidate = 0;
                    self.placed = 0;
                    self.bytes = 0;
                    self.totals = no_totals();
                } else {
                    self.stage = RestoreStage::Done;
                    self.outcome = Some(Ok(false));
                    self.clean_up = true;
                }
            },
            (RestoreStage::ControlFiles, RestoreEvent::Checked(intact)) => {
                match intact {
                    Some(true) => {
                        self.stage = RestoreStage::Inputs;
                    },
                    _ => {
                        self.corrupt.push(self.candidate);
                        self.look_further();
                    },
                }
            },
            (RestoreStage::Inputs, RestoreEvent::Checked(same)) => {
                match same {
                    Some(true) => {
                        self.stage = RestoreStage::EntryFiles;
                    },
                    _ => {
                        self.look_further();
                    },
                }
            },
            (RestoreStage::EntryFiles, RestoreEvent::Checked(intact)) => {
                match intact {
                    Some(true) => {
                        self.stage =
                        if self.outputs > 0 {
                            RestoreStage::Output
                        } else {
                            RestoreStage::CompilerIdentity
                        };
                    },
                    _ => {
                        self.corrupt.push(self.candidate);
                        self.look_further();
                    },
                }
            },
            (RestoreStage::Output, RestoreEvent::Materialized(kind, bytes)) => {
                proof {
                    assert(self.totals.files(kind) <= all_files(self.totals));
                    assert(self.totals.bytes(kind) <= all_bytes(self.totals));
                }
                self.totals.record(kind, bytes);
                self.bytes = self.bytes + bytes;
                self.placed = self.placed + 1;
                if self.placed == self.outputs {
                    self.stage = RestoreStage::CompilerIdentity;
                }
            },
            (RestoreStage::CompilerIdentity, RestoreEvent::Verdict(current)) => {
                if current {
                    self.stage = RestoreStage::LoaderInputs;
                } else {
                    self.miss(true);
                }
            },
            (RestoreStage::LoaderInputs, RestoreEvent::Verdict(same)) => {
                if same {
                    self.stage = RestoreStage::ActionInputs;
                } else {
                    self.miss(true);
                }
            },
            (RestoreStage::ActionInputs, RestoreEvent::Verdict(current)) => {
                if current {
                    self.stage = RestoreStage::StateWrite;
                } else {
                    self.miss(true);
                }
            },
            (RestoreStage::StateWrite, RestoreEvent::Written) => {
                self.stage = RestoreStage::Done;
                self.outcome = Some(Ok(true));
                self.clean_up = true;
            },
            _ => {
                self.stage = RestoreStage::Done;
                self.outcome = Some(Err(()));
            },
        }
    }
}

/// The number of checks that the entry that is looked at has passed since it
/// was taken up.
pub open spec fn passed_checks(events: Seq<RestoreEvent>) -> int
    decreases events.len(),
{
    if events.len() == 0 {
        0
    } else {
        match events.last() {
            RestoreEvent::Checked(Some(true)) => passed_checks(events.drop_last()) + 1,
            RestoreEvent::Checked(_) => 0,
            RestoreEvent::Candidates(_) => 0,
            _ => passed_checks(events.drop_last()),
        }
    }
}

/// The number of positive verdicts at the end of a run, with nothing but
/// writing behind them.
pub open spec fn final_verdicts(events: Seq<RestoreEvent>) -> int
    decreases events.len(),
{
    if events.len() == 0 {
        0
    } else {
        match events.last() {
            RestoreEvent::Verdict(true) => final_verdicts(events.drop_last()) + 1,
            RestoreEvent::Written => final_verdicts(events.drop_last()),
            _ => 0,
        }
    }
}

/// How many checks an entry has passed before a stage.
pub open spec fn checks_before(stage: RestoreStage) -> int {
    match stage {
        RestoreStage::Inputs => 1,
        RestoreStage::EntryFiles => 2,
        RestoreStage::Output => 3,
        RestoreStage::CompilerIdentity => 3,
        RestoreStage::LoaderInputs => 3,
        RestoreStage::ActionInputs => 3,
        RestoreStage::StateWrite => 3,
        _ => 0,
    }
}

/// How many final verdicts come before a stage.
pub open spec fn verdicts_of(stage: RestoreStage) -> int {
    match stage {
        RestoreStage::LoaderInputs => 1,
        RestoreStage::ActionInputs => 2,
        RestoreStage::StateWrite => 3,
        _ => 0,
    }
}

/// Whether a run has come as far as its stage says.
pub open spec fn restore_is_sound(
    progress: RestoreProgress,
    events: Seq<RestoreEvent>,
    outputs: usize,
) -> bool {
    &&& progress.outputs == outputs
    &&& progress.stage != RestoreStage::Done ==> progress.outcome is None
        && !progress.remove_outputs && passed_checks(events) >= checks_before(
        progress.stage,
    ) && final_verdicts(events) >= verdicts_of(progress.stage)
    &&& (progress.stage == RestoreStage::ControlFiles || progress.stage == RestoreStage::Inputs
        || progress.stage == RestoreStage::EntryFiles) ==> progress.placed == 0
    &&& progress.stage == RestoreStage::Output ==> progress.placed < outputs
    &&& (progress.stage == RestoreStage::CompilerIdentity || progress.stage
        == RestoreStage::LoaderInputs || progress.stage == RestoreStage::ActionInputs
        || progress.stage == RestoreStage::StateWrite) ==> progress.placed == outputs
    &&& progress.outcome == Some(Ok::<bool, ()>(true)) ==> progress.placed == outputs
        && passed_checks(events) >= 3 && final_verdicts(events) >= 3
        && !progress.remove_outputs && progress.clean_up
}

/// Counts are not negative.
proof fn lemma_passed_checks(events: Seq<RestoreEvent>)
    ensures
        passed_checks(events) >= 0,
        final_verdicts(events) >= 0,
    decreases events.len(),
{
    if events.len() > 0 {
        lemma_passed_checks(events.drop_last());
    }
}

/// A run that has ended goes on as it is while counts may drop; a run that has
/// not ended is as far as its stage says.
#[verifier::rlimit(80)]
proof fn lemma_restores_are_sound(outputs: usize, events: Seq<RestoreEvent>)
    requires
        forall|i: int|
            0 <= i < events.len() ==> after_restore_events(
                restore_start(outputs),
                #[trigger] events.take(i),
            ).stage != RestoreStage::Done,
    ensures
        restore_is_sound(after_restore_events(restore_start(outputs), events), events, outputs),
    decreases events.len(),
{
    if events.len() > 0 {
        let before = events.drop_last();
        assert forall|i: int| 0 <= i < before.len() implies after_restore_events(
            restore_start(outputs),
            #[trigger] before.take(i),
        ).stage != RestoreStage::Done by {
            assert(before.take(i) =~= events.take(i));
        }
        lemma_restores_are_sound(outputs, before);
        assert(events.take(events.len() - 1) =~= before);
        lemma_passed_checks(before);
        lemma_passed_checks(events);
    }
}

/// A restore hits only with an entry that passed its three checks one after
/// the other, with every output in its place, and after that with positive
/// verdicts on the compiler, the loader inputs and the action inputs. Nothing
/// is removed then.
pub proof fn law_hits_were_validated(outputs: usize, events: Seq<RestoreEvent>)
    requires
        forall|i: int|
            0 <= i < events.len() ==> after_restore_events(
                restore_start(outputs),
                #[trigger] events.take(i),
            ).stage != RestoreStage::Done,
    ensures
        ({
            let end = after_restore_events(restore_start(outputs), events);
            end.outcome == Some(Ok::<bool, ()>(true)) ==> {
                &&& passed_checks(events) >= 3
                &&& final_verdicts(events) >= 3
                &&& end.placed == outputs
                &&& !end.remove_outputs
            }
        }),
{
    lemma_restores_are_sound(outputs, events);
}

/// Outputs are removed at the end only of a restore that placed all of them
/// and then missed.
pub proof fn law_removed_outputs_are_no_hit(progress: RestoreProgress, event: RestoreEvent)
    requires
        !progress.remove_outputs,
    ensures
        after_restore_event(progress, event).remove_outputs ==> after_restore_event(
            progress,
            event,
        ).outcome == Some(Ok::<bool, ()>(false)),
{
}

/// No operation that fails, no negative verdict and no failed check leads to a
/// hit: a failure ends the restore with an error, a negative verdict ends it
/// without a hit, and a check that fails leads to the next entry or to the end.
/// Outputs are removed exactly where a verdict is negative after they were placed,
/// and an entry is noted as corrupt exactly where its own files fail their check.
pub proof fn law_doubts_are_no_hits(progress: RestoreProgress, event: RestoreEvent)
    requires
        progress.stage != RestoreStage::Done,
        progress.outcome is None,
        !progress.remove_outputs,
    ensures
        ({
            let after = after_restore_event(progress, event);
            let placed = progress.stage == RestoreStage::CompilerIdentity || progress.stage
                == RestoreStage::LoaderInputs || progress.stage == RestoreStage::ActionInputs;
            let checked = progress.stage == RestoreStage::ControlFiles || progress.stage
                == RestoreStage::EntryFiles;
            &&& event is Failed ==> after.outcome == Some(Err::<bool, ()>(()))
            &&& event == RestoreEvent::Verdict(false) ==> {
                &&& after.stage == RestoreStage::Done
                &&& after.outcome == Some(Ok::<bool, ()>(false)) || after.outcome == Some(
                    Err::<bool, ()>(()),
                )
                &&& after.remove_outputs == placed
            }
            &&& event matches RestoreEvent::Checked(found) ==> (found != Some(true) ==> {
                &&& after.stage == RestoreStage::Done || after.stage == RestoreStage::ControlFiles
                &&& after.outcome != Some(Ok::<bool, ()>(true))
                &&& after.stage == RestoreStage::ControlFiles ==> after.candidate
                    == progress.candidate + 1 && after.placed == 0 && after.bytes == 0
                &&& checked ==> after.corrupt == progress.corrupt.push(progress.candidate)
                &&& !checked ==> after.corrupt == progress.corrupt
            })
            &&& event != RestoreEvent::Verdict(false) ==> !after.remove_outputs
            &&& after.outcome == Some(Ok::<bool, ()>(true)) ==> event == RestoreEvent::Written
                && progress.stage == RestoreStage::StateWrite
        }),
{
}

/// The bytes of outputs that were placed.
pub open spec fn placed_bytes(sizes: Seq<u64>) -> int
    decreases sizes.len(),
{
    if sizes.len() == 0 {
        0
    } else {
        placed_bytes(sizes.drop_last()) + sizes.last()
    }
}

/// What happens in a restore from the first entry that is looked at, where all is
/// well: the entry passes its checks, and outputs are placed.
pub open spec fn placing(candidates: usize, sizes: Seq<u64>) -> Seq<RestoreEvent> {
    seq![
        RestoreEvent::Verdict(true),
        RestoreEvent::Verdict(true),
        RestoreEvent::Verdict(true),
        RestoreEvent::Candidates(candidates),
        RestoreEvent::Checked(Some(true)),
        RestoreEvent::Checked(Some(true)),
        RestoreEvent::Checked(Some(true)),
    ] + sizes.map_values(|size: u64| RestoreEvent::Materialized(MaterializationKind::Copy, size))
}

/// The start of a restore where all is well.
proof fn lemma_restore_begins(outputs: usize, candidates: usize)
    requires
        candidates > 0,
    ensures
        after_restore_events(restore_start(outputs), placing(candidates, Seq::empty())) == (
        RestoreProgress {
            stage: if outputs > 0 {
                RestoreStage::Output
            } else {
                RestoreStage::CompilerIdentity
            },
            candidates,
            ..restore_start(outputs)
        }),
{
    let e = placing(candidates, Seq::empty());
    let start = restore_start(outputs);
    assert(e.len() == 7);
    let p0 = start;
    let p1 = after_restore_event(p0, e[0]);
    let p2 = after_restore_event(p1, e[1]);
    let p3 = after_restore_event(p2, e[2]);
    let p4 = after_restore_event(p3, e[3]);
    let p5 = after_restore_event(p4, e[4]);
    let p6 = after_restore_event(p5, e[5]);
    assert(after_restore_events(start, e.take(0)) == p0);
    assert(e.take(1).drop_last() =~= e.take(0));
    assert(after_restore_events(start, e.take(1)) == p1);
    assert(e.take(2).drop_last() =~= e.take(1));
    assert(after_restore_events(start, e.take(2)) == p2);
    assert(e.take(3).drop_last() =~= e.take(2));
    assert(after_restore_events(start, e.take(3)) == p3);
    assert(e.take(4).drop_last() =~= e.take(3));
    assert(after_restore_events(start, e.take(4)) == p4);
    assert(e.take(5).drop_last() =~= e.take(4));
    assert(after_restore_events(start, e.take(5)) == p5);
    assert(e.take(6).drop_last() =~= e.take(5));
    assert(after_restore_events(start, e.take(6)) == p6);
    assert(e.drop_last() =~= e.take(6));
}

/// Outputs that are placed are counted.
proof fn lemma_outputs_placed(outputs: usize, candidates: usize, sizes: Seq<u64>)
    requires
        candidates > 0,
        sizes.len() <= outputs,
        placed_bytes(sizes) <= u64::MAX,
    ensures
        placed_bytes(sizes) >= 0,
        after_restore_events(restore_start(outputs), placing(candidates, sizes)) == (
        RestoreProgress {
            stage: if sizes.len() < outputs {
                RestoreStage::Output
            } else {
                RestoreStage::CompilerIdentity
            },
            candidates,
            placed: sizes.len() as usize,
            bytes: placed_bytes(sizes) as u64,
            ..restore_start(outputs)
        }),
    decreases sizes.len(),
{
    if sizes.len() == 0 {
        assert(sizes =~= Seq::empty());
        lemma_restore_begins(outputs, candidates);
    } else {
        let front = sizes.drop_last();
        lemma_placed_bytes(front);
        lemma_outputs_placed(outputs, candidates, front);
        let all = placing(candidates, sizes);
        assert(all.drop_last() =~= placing(candidates, front));
        assert(all.last() == RestoreEvent::Materialized(MaterializationKind::Copy, sizes.last()));
    }
}

/// Bytes are not negative.
proof fn lemma_placed_bytes(sizes: Seq<u64>)
    ensures
        placed_bytes(sizes) >= 0,
    decreases sizes.len(),
{
    if sizes.len() > 0 {
        lemma_placed_bytes(sizes.drop_last());
    }
}

/// An intact entry is restored: where the lock is taken, the first entry passes
/// its checks, every output is placed, the compiler and the inputs are still as
/// they were and the state is written, the restore is a hit. It counts every
/// output and its bytes, notes nothing as corrupt and removes nothing.
pub proof fn law_intact_entries_are_restored(outputs: usize, candidates: usize, sizes: Seq<u64>)
    requires
        candidates > 0,
        sizes.len() == outputs,
        placed_bytes(sizes) <= u64::MAX,
    ensures
        ({
            let end = after_restore_events(
                restore_start(outputs),
                placing(candidates, sizes).push(RestoreEvent::Verdict(true)).push(
                    RestoreEvent::Verdict(true),
                ).push(RestoreEvent::Verdict(true)).push(RestoreEvent::Written),
            );
            &&& end.stage == RestoreStage::Done
            &&& end.outcome == Some(Ok::<bool, ()>(true))
            &&& end.placed == outputs
            &&& end.bytes == placed_bytes(sizes)
            &&& end.corrupt.len() == 0
            &&& !end.remove_outputs
            &&& end.clean_up
        }),
{
    lemma_outputs_placed(outputs, candidates, sizes);
    let a = placing(candidates, sizes);
    let yes = RestoreEvent::Verdict(true);
    let b = a.push(yes);
    let c = b.push(yes);
    let d = c.push(yes);
    let e = d.push(RestoreEvent::Written);
    let start = restore_start(outputs);
    assert(b.drop_last() =~= a);
    assert(after_restore_events(start, b).stage == RestoreStage::LoaderInputs);
    assert(c.drop_last() =~= b);
    assert(after_restore_events(start, c).stage == RestoreStage::ActionInputs);
    assert(d.drop_last() =~= c);
    assert(after_restore_events(start, d).stage == RestoreStage::StateWrite);
    assert(e.drop_last() =~= d);
    assert(after_restore_events(start, e).stage == RestoreStage::Done);
}

/// A path below the place where a package was is a path below the place where it
/// is now, and what stands around it stays.
pub proof fn law_package_paths_are_moved(
    front: Seq<char>,
    origin: Seq<char>,
    back: Seq<char>,
    origin_profile_root: Seq<char>,
    pkg_root: Seq<u8>,
    output_root: Seq<u8>,
)
    requires
        origin.len() > 0,
        trimmed_end(origin) == origin,
        forall|at: int|
            0 <= at < front.len() ==> !origin.is_prefix_of(
                #[trigger] (front + origin + back).skip(at),
            ),
        !occurs(back, origin),
        !occurs(front + lossy_text(pkg_root) + back, trimmed_end(origin_profile_root)),
    ensures
        translated_dep_info(
            front + origin + back,
            origin,
            origin_profile_root,
            pkg_root,
            output_root,
        ) == front + lossy_text(pkg_root) + back,
{
    law_occurrences_are_replaced(front, origin, back, lossy_text(pkg_root));
    lemma_nothing_replaced(back, origin, lossy_text(pkg_root));
    lemma_nothing_replaced(
        front + lossy_text(pkg_root) + back,
        trimmed_end(origin_profile_root),
        lossy_text(parent_or_self(output_root)),
    );
}

/// A path below the profile directory where outputs were is a path below the one
/// where they go now, which is the directory above that of the outputs.
pub proof fn law_profile_paths_are_moved(
    front: Seq<char>,
    origin: Seq<char>,
    back: Seq<char>,
    origin_pkg_root: Seq<char>,
    pkg_root: Seq<u8>,
    profile_root: Seq<u8>,
    name: Seq<u8>,
)
    requires
        origin.len() > 0,
        trimmed_end(origin) == origin,
        forall|at: int|
            0 <= at < front.len() ==> !origin.is_prefix_of(
                #[trigger] (front + origin + back).skip(at),
            ),
        !occurs(back, origin),
        !occurs(front + origin + back, trimmed_end(origin_pkg_root)),
        is_absolute(profile_root),
        profile_root.last() != 0x2f,
        profile_root.last() != 0x2e,
        is_plain_name(name),
    ensures
        translated_dep_info(
            front + origin + back,
            origin_pkg_root,
            origin,
            pkg_root,
            joined(profile_root, name),
        ) == front + lossy_text(profile_root) + back,
{
    law_parents_are_read_back(profile_root, name);
    lemma_nothing_replaced(
        front + origin + back,
        trimmed_end(origin_pkg_root),
        lossy_text(pkg_root),
    );
    law_occurrences_are_replaced(front, origin, back, lossy_text(profile_root));
    lemma_nothing_replaced(back, origin, lossy_text(profile_root));
}

} // verus!
