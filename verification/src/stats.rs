//! Counters for what the artifact cache did in one build.

use vstd::prelude::*;

verus! {

/// Why a compilation was not eligible for the cache.
#[derive(Clone, Copy, Debug, PartialEq, Eq, Structural)]
pub enum IneligibleReason {
    TargetNotLibrary,
    ProcMacro,
    CompileMode,
    CustomBuildScript,
    Sbom,
    UnsupportedHost,
    UnmodeledLoaderEnvironment,
    UnmodeledLoaderInputs,
    DynamicExtern,
    CompilerWrapper,
    UnmodeledRustcAction,
    CompilerIdentityUnavailable,
    KeyGenerationFailure,
}

/// How a cached file was put in its place.
#[derive(Clone, Copy, Debug, PartialEq, Eq, Structural)]
pub enum MaterializationKind {
    Hardlink,
    Copy,
    CrossDeviceCopy,
}

/// The timed phases of a restore.
#[derive(Clone, Copy, Debug, PartialEq, Eq, Structural)]
pub enum RestorePhase {
    Lock,
    ControlValidation,
    SourceValidation,
    EntryValidation,
    FinalValidation,
    FinalIdentityValidation,
    FinalLoaderValidation,
    FinalActionValidation,
    StateWrite,
}

impl RestorePhase {
    /// The position of the phase in `all`.
    pub open spec fn position(self) -> int {
        match self {
            RestorePhase::Lock => 0,
            RestorePhase::ControlValidation => 1,
            RestorePhase::SourceValidation => 2,
            RestorePhase::EntryValidation => 3,
            RestorePhase::FinalValidation => 4,
            RestorePhase::FinalIdentityValidation => 5,
            RestorePhase::FinalLoaderValidation => 6,
            RestorePhase::FinalActionValidation => 7,
            RestorePhase::StateWrite => 8,
        }
    }

    /// The name of the phase in the report.
    pub open spec fn label(self) -> Seq<char> {
        match self {
            RestorePhase::Lock => "lock_us"@,
            RestorePhase::ControlValidation => "control_validation_us"@,
            RestorePhase::SourceValidation => "source_validation_us"@,
            RestorePhase::EntryValidation => "entry_validation_us"@,
            RestorePhase::FinalValidation => "final_validation_us"@,
            RestorePhase::FinalIdentityValidation => "final_identity_validation_us"@,
            RestorePhase::FinalLoaderValidation => "final_loader_validation_us"@,
            RestorePhase::FinalActionValidation => "final_action_validation_us"@,
            RestorePhase::StateWrite => "state_write_us"@,
        }
    }

    /// The position of the phase in `all`.
    pub fn index(self) -> (index: usize)
        ensures
            index == self.position(),
            index < 9,
    {
        match self {
            RestorePhase::Lock => 0,
            RestorePhase::ControlValidation => 1,
            RestorePhase::SourceValidation => 2,
            RestorePhase::EntryValidation => 3,
            RestorePhase::FinalValidation => 4,
            RestorePhase::FinalIdentityValidation => 5,
            RestorePhase::FinalLoaderValidation => 6,
            RestorePhase::FinalActionValidation => 7,
            RestorePhase::StateWrite => 8,
        }
    }

    /// The name of the phase in the report.
    pub fn name(self) -> (name: &'static str)
        ensures
            name@ == self.label(),
    {
        match self {
            RestorePhase::Lock => "lock_us",
            RestorePhase::ControlValidation => "control_validation_us",
            RestorePhase::SourceValidation => "source_validation_us",
            RestorePhase::EntryValidation => "entry_validation_us",
            RestorePhase::FinalValidation => "final_validation_us",
            RestorePhase::FinalIdentityValidation => "final_identity_validation_us",
            RestorePhase::FinalLoaderValidation => "final_loader_validation_us",
            RestorePhase::FinalActionValidation => "final_action_validation_us",
            RestorePhase::StateWrite => "state_write_us",
        }
    }

    /// Every phase, each at its position.
    pub fn all() -> (phases: [RestorePhase; 9])
        ensures
            forall|phase: RestorePhase| phases@[#[trigger] phase.position()] == phase,
            forall|i: int| 0 <= i < 9 ==> (#[trigger] phases@[i]).position() == i,
    {
        [
            RestorePhase::Lock,
            RestorePhase::ControlValidation,
            RestorePhase::SourceValidation,
            RestorePhase::EntryValidation,
            RestorePhase::FinalValidation,
            RestorePhase::FinalIdentityValidation,
            RestorePhase::FinalLoaderValidation,
            RestorePhase::FinalActionValidation,
            RestorePhase::StateWrite,
        ]
    }
}

impl IneligibleReason {
    /// The position of the reason in `all`.
    pub open spec fn position(self) -> int {
        match self {
            IneligibleReason::TargetNotLibrary => 0,
            IneligibleReason::ProcMacro => 1,
            IneligibleReason::CompileMode => 2,
            IneligibleReason::CustomBuildScript => 3,
            IneligibleReason::Sbom => 4,
            IneligibleReason::UnsupportedHost => 5,
            IneligibleReason::UnmodeledLoaderEnvironment => 6,
            IneligibleReason::UnmodeledLoaderInputs => 7,
            IneligibleReason::DynamicExtern => 8,
            IneligibleReason::CompilerWrapper => 9,
            IneligibleReason::UnmodeledRustcAction => 10,
            IneligibleReason::CompilerIdentityUnavailable => 11,
            IneligibleReason::KeyGenerationFailure => 12,
        }
    }

    /// The name of the reason in the report.
    pub open spec fn label(self) -> Seq<char> {
        match self {
            IneligibleReason::TargetNotLibrary => "target_not_library"@,
            IneligibleReason::ProcMacro => "proc_macro"@,
            IneligibleReason::CompileMode => "compile_mode"@,
            IneligibleReason::CustomBuildScript => "custom_build_script"@,
            IneligibleReason::Sbom => "sbom"@,
            IneligibleReason::UnsupportedHost => "unsupported_host"@,
            IneligibleReason::UnmodeledLoaderEnvironment => "unmodeled_loader_environment"@,
            IneligibleReason::UnmodeledLoaderInputs => "unmodeled_loader_inputs"@,
            IneligibleReason::DynamicExtern => "dynamic_extern"@,
            IneligibleReason::CompilerWrapper => "compiler_wrapper"@,
            IneligibleReason::UnmodeledRustcAction => "unmodeled_rustc_action"@,
            IneligibleReason::CompilerIdentityUnavailable => "compiler_identity_unavailable"@,
            IneligibleReason::KeyGenerationFailure => "key_generation_failure"@,
        }
    }

    /// The position of the reason in `all`.
    pub fn index(self) -> (index: usize)
        ensures
            index == self.position(),
            index < 13,
    {
        match self {
            IneligibleReason::TargetNotLibrary => 0,
            IneligibleReason::ProcMacro => 1,
            IneligibleReason::CompileMode => 2,
            IneligibleReason::CustomBuildScript => 3,
            IneligibleReason::Sbom => 4,
            IneligibleReason::UnsupportedHost => 5,
            IneligibleReason::UnmodeledLoaderEnvironment => 6,
            IneligibleReason::UnmodeledLoaderInputs => 7,
            IneligibleReason::DynamicExtern => 8,
            IneligibleReason::CompilerWrapper => 9,
            IneligibleReason::UnmodeledRustcAction => 10,
            IneligibleReason::CompilerIdentityUnavailable => 11,
            IneligibleReason::KeyGenerationFailure => 12,
        }
    }

    /// The name of the reason in the report.
    pub fn name(self) -> (name: &'static str)
        ensures
            name@ == self.label(),
    {
        match self {
            IneligibleReason::TargetNotLibrary => "target_not_library",
            IneligibleReason::ProcMacro => "proc_macro",
            IneligibleReason::CompileMode => "compile_mode",
            IneligibleReason::CustomBuildScript => "custom_build_script",
            IneligibleReason::Sbom => "sbom",
            IneligibleReason::UnsupportedHost => "unsupported_host",
            IneligibleReason::UnmodeledLoaderEnvironment => "unmodeled_loader_environment",
            IneligibleReason::UnmodeledLoaderInputs => "unmodeled_loader_inputs",
            IneligibleReason::DynamicExtern => "dynamic_extern",
            IneligibleReason::CompilerWrapper => "compiler_wrapper",
            IneligibleReason::UnmodeledRustcAction => "unmodeled_rustc_action",
            IneligibleReason::CompilerIdentityUnavailable => "compiler_identity_unavailable",
            IneligibleReason::KeyGenerationFailure => "key_generation_failure",
        }
    }

    /// Every reason, each at its position.
    pub fn all() -> (reasons: [IneligibleReason; 13])
        ensures
            forall|reason: IneligibleReason| reasons@[#[trigger] reason.position()] == reason,
            forall|i: int| 0 <= i < 13 ==> (#[trigger] reasons@[i]).position() == i,
    {
        [
            IneligibleReason::TargetNotLibrary,
            IneligibleReason::ProcMacro,
            IneligibleReason::CompileMode,
            IneligibleReason::CustomBuildScript,
            IneligibleReason::Sbom,
            IneligibleReason::UnsupportedHost,
            IneligibleReason::UnmodeledLoaderEnvironment,
            IneligibleReason::UnmodeledLoaderInputs,
            IneligibleReason::DynamicExtern,
            IneligibleReason::CompilerWrapper,
            IneligibleReason::UnmodeledRustcAction,
            IneligibleReason::CompilerIdentityUnavailable,
            IneligibleReason::KeyGenerationFailure,
        ]
    }
}

/// Files and logical bytes put in place, by kind.
pub struct MaterializationTotals {
    pub hardlinked_files: u64,
    pub hardlinked_bytes: u64,
    pub copied_files: u64,
    pub copied_bytes: u64,
    pub cross_device_copied_files: u64,
    pub cross_device_copied_bytes: u64,
}

impl Default for MaterializationTotals {
    fn default() -> (totals: MaterializationTotals)
        ensures
            forall|kind: MaterializationKind|
                #![trigger totals.files(kind)]
                totals.files(kind) == 0 && totals.bytes(kind) == 0,
    {
        MaterializationTotals {
            hardlinked_files: 0,
            hardlinked_bytes: 0,
            copied_files: 0,
            copied_bytes: 0,
            cross_device_copied_files: 0,
            cross_device_copied_bytes: 0,
        }
    }
}

impl MaterializationTotals {
    /// The files counted for `kind`.
    pub open spec fn files(&self, kind: MaterializationKind) -> u64 {
        match kind {
            MaterializationKind::Hardlink => self.hardlinked_files,
            MaterializationKind::Copy => self.copied_files,
            MaterializationKind::CrossDeviceCopy => self.cross_device_copied_files,
        }
    }

    /// The bytes counted for `kind`.
    pub open spec fn bytes(&self, kind: MaterializationKind) -> u64 {
        match kind {
            MaterializationKind::Hardlink => self.hardlinked_bytes,
            MaterializationKind::Copy => self.copied_bytes,
            MaterializationKind::CrossDeviceCopy => self.cross_device_copied_bytes,
        }
    }

    /// Counts one file of `bytes` bytes for `kind`, and nothing for the others.
    pub fn record(&mut self, kind: MaterializationKind, bytes: u64)
        requires
            old(self).files(kind) < u64::MAX,
            old(self).bytes(kind) + bytes <= u64::MAX,
        ensures
            final(self).files(kind) == old(self).files(kind) + 1,
            final(self).bytes(kind) == old(self).bytes(kind) + bytes,
            forall|other: MaterializationKind|
                #![trigger final(self).files(other)]
                #![trigger final(self).bytes(other)]
                other != kind ==> final(self).files(other) == old(self).files(other)
                    && final(self).bytes(other) == old(self).bytes(other),
    {
        match kind {
            MaterializationKind::Hardlink => {
                self.hardlinked_files = self.hardlinked_files + 1;
                self.hardlinked_bytes = self.hardlinked_bytes + bytes;
            },
            MaterializationKind::Copy => {
                self.copied_files = self.copied_files + 1;
                self.copied_bytes = self.copied_bytes + bytes;
            },
            MaterializationKind::CrossDeviceCopy => {
                self.cross_device_copied_files = self.cross_device_copied_files + 1;
                self.cross_device_copied_bytes = self.cross_device_copied_bytes + bytes;
            },
        }
    }
}

/// The counters of one build. Every counter wraps around at its limit.
pub struct ArtifactCacheStats {
    pub cache_configured: bool,
    pub cargo_fresh: u64,
    pub preflight_attempted: u64,
    pub preflight_already_fresh: u64,
    pub preflight_blocked_by_dependency: u64,
    pub preflight_finalized: u64,
    pub preflight_bypassed: u64,
    pub preflight_elapsed_us: u64,
    pub eligible: u64,
    pub ineligible: [u64; 13],
    pub hits: u64,
    pub misses: u64,
    pub restore_failures: u64,
    pub restore_elapsed_us: u64,
    pub restore_hit_elapsed_us: u64,
    pub restore_miss_elapsed_us: u64,
    pub restore_phase_elapsed_us: [u64; 9],
    pub restored_files: u64,
    pub restored_bytes: u64,
    pub hardlinked_files: u64,
    pub hardlinked_bytes: u64,
    pub copied_files: u64,
    pub copied_bytes: u64,
    pub cross_device_copied_files: u64,
    pub cross_device_copied_bytes: u64,
    pub materialization_elapsed_us: u64,
    pub identity_calls: u64,
    pub identity_computations: u64,
    pub identity_reuses: u64,
    pub identity_files: u64,
    pub identity_bytes: u64,
    pub identity_wall_us: u64,
    pub identity_cpu_us: u64,
    pub identity_computation_wall_us: u64,
    pub identity_computation_cpu_us: u64,
    pub identity_reuse_wall_us: u64,
    pub identity_reuse_cpu_us: u64,
    pub action_hash_calls: u64,
    pub action_hash_failures: u64,
    pub action_hash_wall_us: u64,
    pub publication_attempts: u64,
    pub publication_stored: u64,
    pub publication_skipped: u64,
    pub publication_failures: u64,
    pub publication_files: u64,
    pub publication_bytes: u64,
    pub publication_elapsed_us: u64,
    pub rustc_executions: u64,
    pub rustc_failures: u64,
    pub rustc_elapsed_us: u64,
    pub build_script_executions: u64,
    pub build_script_failures: u64,
    pub build_script_elapsed_us: u64,
    pub snapshot_restore_files: u64,
    pub snapshot_restore_bytes: u64,
    pub snapshot_restore_existing_files: u64,
    pub snapshot_restore_existing_bytes: u64,
    pub snapshot_restore_failures: u64,
    pub snapshot_restore_elapsed_us: u64,
    pub snapshot_manifest_files: u64,
    pub snapshot_manifest_bytes: u64,
    pub snapshot_manifest_failures: u64,
    pub snapshot_manifest_elapsed_us: u64,
    pub primary_link_rustc_executions: u64,
    pub primary_link_rustc_failures: u64,
    pub primary_link_rustc_elapsed_us: u64,
}

/// A counter after `value` more.
pub open spec fn counted(counter: u64, value: u64) -> u64 {
    if counter + value <= u64::MAX {
        (counter + value) as u64
    } else {
        (counter + value - u64::MAX - 1) as u64
    }
}

/// Whole microseconds as a counter holds them.
pub open spec fn clamped(microseconds: u128) -> u64 {
    if microseconds <= u64::MAX {
        microseconds as u64
    } else {
        u64::MAX
    }
}

/// What the counters say of the compiler identity after one more use.
pub open spec fn identity_counted(
    before: ArtifactCacheStats,
    computed: bool,
    files: u64,
    bytes: u64,
    wall: u64,
    cpu: u64,
) -> ArtifactCacheStats {
    let used = ArtifactCacheStats {
        identity_calls: counted(before.identity_calls, 1),
        identity_wall_us: counted(before.identity_wall_us, wall),
        identity_cpu_us: counted(before.identity_cpu_us, cpu),
        ..before
    };
    if computed {
        ArtifactCacheStats {
            identity_computations: counted(used.identity_computations, 1),
            identity_files: counted(used.identity_files, files),
            identity_bytes: counted(used.identity_bytes, bytes),
            identity_computation_wall_us: counted(used.identity_computation_wall_us, wall),
            identity_computation_cpu_us: counted(used.identity_computation_cpu_us, cpu),
            ..used
        }
    } else {
        ArtifactCacheStats {
            identity_reuses: counted(used.identity_reuses, 1),
            identity_reuse_wall_us: counted(used.identity_reuse_wall_us, wall),
            identity_reuse_cpu_us: counted(used.identity_reuse_cpu_us, cpu),
            ..used
        }
    }
}

/// What the counters say of rustc after one more execution.
pub open spec fn rustc_counted(
    before: ArtifactCacheStats,
    elapsed: u64,
    failed: bool,
    primary_link_rustc: bool,
) -> ArtifactCacheStats {
    let failures: u64 = if failed {
        1
    } else {
        0
    };
    let run = ArtifactCacheStats {
        rustc_executions: counted(before.rustc_executions, 1),
        rustc_elapsed_us: counted(before.rustc_elapsed_us, elapsed),
        rustc_failures: counted(before.rustc_failures, failures),
        ..before
    };
    if primary_link_rustc {
        ArtifactCacheStats {
            primary_link_rustc_executions: counted(run.primary_link_rustc_executions, 1),
            primary_link_rustc_elapsed_us: counted(run.primary_link_rustc_elapsed_us, elapsed),
            primary_link_rustc_failures: counted(run.primary_link_rustc_failures, failures),
            ..run
        }
    } else {
        run
    }
}

/// What the counters say of lookups after one more.
pub open spec fn lookup_counted(
    before: ArtifactCacheStats,
    hit: bool,
    failed: bool,
    elapsed: u64,
) -> ArtifactCacheStats {
    ArtifactCacheStats {
        hits: counted(before.hits, if hit { 1 } else { 0 }),
        misses: counted(before.misses, if hit { 0 } else { 1 }),
        restore_elapsed_us: counted(before.restore_elapsed_us, elapsed),
        restore_hit_elapsed_us: counted(
            before.restore_hit_elapsed_us,
            if hit { elapsed } else { 0 },
        ),
        restore_miss_elapsed_us: counted(
            before.restore_miss_elapsed_us,
            if hit { 0 } else { elapsed },
        ),
        restore_failures: counted(before.restore_failures, if failed { 1 } else { 0 }),
        ..before
    }
}

/// What the counters say after lookups, each given as whether it hit, whether
/// it failed, and its time.
pub open spec fn lookups_counted(
    before: ArtifactCacheStats,
    lookups: Seq<(bool, bool, u64)>,
) -> ArtifactCacheStats
    decreases lookups.len(),
{
    if lookups.len() == 0 {
        before
    } else {
        let last = lookups.last();
        lookup_counted(lookups_counted(before, lookups.drop_last()), last.0, last.1, last.2)
    }
}

/// Every lookup is counted once, as a hit or as a miss.
pub proof fn law_lookups_are_hits_or_misses(
    before: ArtifactCacheStats,
    lookups: Seq<(bool, bool, u64)>,
)
    requires
        before.hits + before.misses + lookups.len() <= u64::MAX,
    ensures
        lookups_counted(before, lookups).hits + lookups_counted(before, lookups).misses
            == before.hits + before.misses + lookups.len(),
        lookups_counted(before, lookups).eligible == before.eligible,
        lookups_counted(before, lookups).ineligible == before.ineligible,
    decreases lookups.len(),
{
    if lookups.len() > 0 {
        law_lookups_are_hits_or_misses(before, lookups.drop_last());
    }
}

/// The sum of the first `length` counts.
pub open spec fn sum_of(counts: Seq<u64>, length: int) -> int
    decreases length,
{
    if length <= 0 {
        0
    } else {
        sum_of(counts, length - 1) + counts[length - 1]
    }
}

/// Partial sums do not exceed the whole sum.
proof fn lemma_sum_monotone(counts: Seq<u64>, shorter: int, longer: int)
    requires
        0 <= shorter <= longer,
    ensures
        0 <= sum_of(counts, shorter) <= sum_of(counts, longer),
    decreases longer,
{
    if longer > 0 {
        if shorter < longer {
            lemma_sum_monotone(counts, shorter, longer - 1);
        } else {
            lemma_sum_monotone(counts, shorter - 1, longer - 1);
        }
    }
}

/// A counter after `value` more.
fn add(counter: u64, value: u64) -> (sum: u64)
    ensures
        sum == counted(counter, value),
{
    counter.wrapping_add(value)
}

/// Whole microseconds as a counter holds them.
pub fn micros(microseconds: u128) -> (value: u64)
    ensures
        value == clamped(microseconds),
{
    if microseconds <= u64::MAX as u128 {
        microseconds as u64
    } else {
        u64::MAX
    }
}

impl Default for ArtifactCacheStats {
    fn default() -> (stats: ArtifactCacheStats)
        ensures
            stats == no_counts(stats.ineligible, stats.restore_phase_elapsed_us),
            forall|i: int| 0 <= i < 13 ==> stats.ineligible@[i] == 0,
            forall|i: int| 0 <= i < 9 ==> stats.restore_phase_elapsed_us@[i] == 0,
    {
        ArtifactCacheStats {
            cache_configured: false,
            cargo_fresh: 0,
            preflight_attempted: 0,
            preflight_already_fresh: 0,
            preflight_blocked_by_dependency: 0,
            preflight_finalized: 0,
            preflight_bypassed: 0,
            preflight_elapsed_us: 0,
            eligible: 0,
            ineligible: [0; 13],
            hits: 0,
            misses: 0,
            restore_failures: 0,
            restore_elapsed_us: 0,
            restore_hit_elapsed_us: 0,
            restore_miss_elapsed_us: 0,
            restore_phase_elapsed_us: [0; 9],
            restored_files: 0,
            restored_bytes: 0,
            hardlinked_files: 0,
            hardlinked_bytes: 0,
            copied_files: 0,
            copied_bytes: 0,
            cross_device_copied_files: 0,
            cross_device_copied_bytes: 0,
            materialization_elapsed_us: 0,
            identity_calls: 0,
            identity_computations: 0,
            identity_reuses: 0,
            identity_files: 0,
            identity_bytes: 0,
            identity_wall_us: 0,
            identity_cpu_us: 0,
            identity_computation_wall_us: 0,
            identity_computation_cpu_us: 0,
            identity_reuse_wall_us: 0,
            identity_reuse_cpu_us: 0,
            action_hash_calls: 0,
            action_hash_failures: 0,
            action_hash_wall_us: 0,
            publication_attempts: 0,
            publication_stored: 0,
            publication_skipped: 0,
            publication_failures: 0,
            publication_files: 0,
            publication_bytes: 0,
            publication_elapsed_us: 0,
            rustc_executions: 0,
            rustc_failures: 0,
            rustc_elapsed_us: 0,
            build_script_executions: 0,
            build_script_failures: 0,
            build_script_elapsed_us: 0,
            snapshot_restore_files: 0,
            snapshot_restore_bytes: 0,
            snapshot_restore_existing_files: 0,
            snapshot_restore_existing_bytes: 0,
            snapshot_restore_failures: 0,
            snapshot_restore_elapsed_us: 0,
            snapshot_manifest_files: 0,
            snapshot_manifest_bytes: 0,
            snapshot_manifest_failures: 0,
            snapshot_manifest_elapsed_us: 0,
            primary_link_rustc_executions: 0,
            primary_link_rustc_failures: 0,
            primary_link_rustc_elapsed_us: 0,
        }
    }
}

/// The counters of a build that did nothing yet, apart from the two lists.
pub open spec fn no_counts(ineligible: [u64; 13], phases: [u64; 9]) -> ArtifactCacheStats {
    ArtifactCacheStats {
        cache_configured: false,
        cargo_fresh: 0,
        preflight_attempted: 0,
        preflight_already_fresh: 0,
        preflight_blocked_by_dependency: 0,
        preflight_finalized: 0,
        preflight_bypassed: 0,
        preflight_elapsed_us: 0,
        eligible: 0,
        ineligible,
        hits: 0,
        misses: 0,
        restore_failures: 0,
        restore_elapsed_us: 0,
        restore_hit_elapsed_us: 0,
        restore_miss_elapsed_us: 0,
        restore_phase_elapsed_us: phases,
        restored_files: 0,
        restored_bytes: 0,
        hardlinked_files: 0,
        hardlinked_bytes: 0,
        copied_files: 0,
        copied_bytes: 0,
        cross_device_copied_files: 0,
        cross_device_copied_bytes: 0,
        materialization_elapsed_us: 0,
        identity_calls: 0,
        identity_computations: 0,
        identity_reuses: 0,
        identity_files: 0,
        identity_bytes: 0,
        identity_wall_us: 0,
        identity_cpu_us: 0,
        identity_computation_wall_us: 0,
        identity_computation_cpu_us: 0,
        identity_reuse_wall_us: 0,
        identity_reuse_cpu_us: 0,
        action_hash_calls: 0,
        action_hash_failures: 0,
        action_hash_wall_us: 0,
        publication_attempts: 0,
        publication_stored: 0,
        publication_skipped: 0,
        publication_failures: 0,
        publication_files: 0,
        publication_bytes: 0,
        publication_elapsed_us: 0,
        rustc_executions: 0,
        rustc_failures: 0,
        rustc_elapsed_us: 0,
        build_script_executions: 0,
        build_script_failures: 0,
        build_script_elapsed_us: 0,
        snapshot_restore_files: 0,
        snapshot_restore_bytes: 0,
        snapshot_restore_existing_files: 0,
        snapshot_restore_existing_bytes: 0,
        snapshot_restore_failures: 0,
        snapshot_restore_elapsed_us: 0,
        snapshot_manifest_files: 0,
        snapshot_manifest_bytes: 0,
        snapshot_manifest_failures: 0,
        snapshot_manifest_elapsed_us: 0,
        primary_link_rustc_executions: 0,
        primary_link_rustc_failures: 0,
        primary_link_rustc_elapsed_us: 0,
    }
}

impl ArtifactCacheStats {
    /// Records that a cache is configured.
    pub fn configured(&mut self)
        ensures
            *final(self) == (ArtifactCacheStats { cache_configured: true, ..*old(self) }),
    {
        self.cache_configured = true;
    }

    /// Counts a unit that was fresh already.
    pub fn cargo_fresh(&mut self)
        ensures
            *final(self) == (ArtifactCacheStats {
                cargo_fresh: counted(old(self).cargo_fresh, 1),
                ..*old(self)
            }),
    {
        self.cargo_fresh = self::add(self.cargo_fresh, 1);
    }

    /// Counts a preflight restore attempt.
    pub fn preflight_attempted(&mut self)
        ensures
            *final(self) == (ArtifactCacheStats {
                preflight_attempted: counted(old(self).preflight_attempted, 1),
                ..*old(self)
            }),
    {
        self.preflight_attempted = self::add(self.preflight_attempted, 1);
    }

    /// Counts a preflight unit that was fresh already.
    pub fn preflight_already_fresh(&mut self)
        ensures
            *final(self) == (ArtifactCacheStats {
                preflight_already_fresh: counted(old(self).preflight_already_fresh, 1),
                ..*old(self)
            }),
    {
        self.preflight_already_fresh = self::add(self.preflight_already_fresh, 1);
    }

    /// Counts a preflight unit with a dependency that is not ready.
    pub fn preflight_blocked_by_dependency(&mut self)
        ensures
            *final(self) == (ArtifactCacheStats {
                preflight_blocked_by_dependency: counted(old(self).preflight_blocked_by_dependency, 1),
                ..*old(self)
            }),
    {
        self.preflight_blocked_by_dependency = self::add(self.preflight_blocked_by_dependency, 1);
    }

    /// Counts a preflight restore that made its unit fresh.
    pub fn preflight_finalized(&mut self)
        ensures
            *final(self) == (ArtifactCacheStats {
                preflight_finalized: counted(old(self).preflight_finalized, 1),
                ..*old(self)
            }),
    {
        self.preflight_finalized = self::add(self.preflight_finalized, 1);
    }

    /// Counts a preflight unit that went past the cache.
    pub fn preflight_bypassed(&mut self)
        ensures
            *final(self) == (ArtifactCacheStats {
                preflight_bypassed: counted(old(self).preflight_bypassed, 1),
                ..*old(self)
            }),
    {
        self.preflight_bypassed = self::add(self.preflight_bypassed, 1);
    }

    /// Adds the time of the preflight.
    pub fn preflight_finished(&mut self, elapsed: u128)
        ensures
            *final(self) == (ArtifactCacheStats {
                preflight_elapsed_us: counted(old(self).preflight_elapsed_us, clamped(elapsed)),
                ..*old(self)
            }),
    {
        self.preflight_elapsed_us = self::add(self.preflight_elapsed_us, micros(elapsed));
    }

    /// Counts a unit that is not eligible, by its reason.
    pub fn ineligible(&mut self, reason: IneligibleReason)
        ensures
            final(self).ineligible@ == old(self).ineligible@.update(
                reason.position(),
                counted(old(self).ineligible@[reason.position()], 1),
            ),
            *final(self) == (ArtifactCacheStats {
                ineligible: final(self).ineligible,
                ..*old(self)
            }),
    {
        let index: usize = reason.index();
        let count: u64 = self::add(self.ineligible[index], 1);
        self.ineligible[index] = count;
    }

    /// Counts a unit that is eligible.
    pub fn eligible(&mut self)
        ensures
            *final(self) == (ArtifactCacheStats {
                eligible: counted(old(self).eligible, 1),
                ..*old(self)
            }),
    {
        self.eligible = self::add(self.eligible, 1);
    }

    /// Counts a lookup that hit or missed, and its time.
    pub fn restore_finished(&mut self, hit: bool, failed: bool, elapsed: u128)
        ensures
            *final(self) == lookup_counted(*old(self), hit, failed, clamped(elapsed)),
    {
        let elapsed: u64 = micros(elapsed);
        self.restore_elapsed_us = self::add(self.restore_elapsed_us, elapsed);
        if hit {
            self.hits = self::add(self.hits, 1);
            self.restore_hit_elapsed_us = self::add(self.restore_hit_elapsed_us, elapsed);
        } else {
            self.misses = self::add(self.misses, 1);
            self.restore_miss_elapsed_us = self::add(self.restore_miss_elapsed_us, elapsed);
        }
        if failed {
            self.restore_failures = self::add(self.restore_failures, 1);
        }
    }

    /// Adds what one hit put in place.
    pub fn restored(&mut self, files: u64, bytes: u64, materialization: &MaterializationTotals)
        ensures
            *final(self) == (ArtifactCacheStats {
                restored_files: counted(old(self).restored_files, files),
                restored_bytes: counted(old(self).restored_bytes, bytes),
                hardlinked_files: counted(old(self).hardlinked_files, materialization.hardlinked_files),
                hardlinked_bytes: counted(old(self).hardlinked_bytes, materialization.hardlinked_bytes),
                copied_files: counted(old(self).copied_files, materialization.copied_files),
                copied_bytes: counted(old(self).copied_bytes, materialization.copied_bytes),
                cross_device_copied_files: counted(old(self).cross_device_copied_files, materialization.cross_device_copied_files),
                cross_device_copied_bytes: counted(old(self).cross_device_copied_bytes, materialization.cross_device_copied_bytes),
                ..*old(self)
            }),
    {
        self.restored_files = self::add(self.restored_files, files);
        self.restored_bytes = self::add(self.restored_bytes, bytes);
        self.hardlinked_files = self::add(self.hardlinked_files, materialization.hardlinked_files);
        self.hardlinked_bytes = self::add(self.hardlinked_bytes, materialization.hardlinked_bytes);
        self.copied_files = self::add(self.copied_files, materialization.copied_files);
        self.copied_bytes = self::add(self.copied_bytes, materialization.copied_bytes);
        self.cross_device_copied_files = self::add(self.cross_device_copied_files, materialization.cross_device_copied_files);
        self.cross_device_copied_bytes = self::add(self.cross_device_copied_bytes, materialization.cross_device_copied_bytes);
    }

    /// Adds the time of one phase of a restore.
    pub fn restore_phase(&mut self, phase: RestorePhase, elapsed: u128)
        ensures
            final(self).restore_phase_elapsed_us@ == old(self).restore_phase_elapsed_us@.update(
                phase.position(),
                counted(old(self).restore_phase_elapsed_us@[phase.position()], clamped(elapsed)),
            ),
            *final(self) == (ArtifactCacheStats {
                restore_phase_elapsed_us: final(self).restore_phase_elapsed_us,
                ..*old(self)
            }),
    {
        let index: usize = phase.index();
        let total: u64 = self::add(self.restore_phase_elapsed_us[index], micros(elapsed));
        self.restore_phase_elapsed_us[index] = total;
    }

    /// Adds the time of putting one file in place.
    pub fn materialization_finished(&mut self, elapsed: u128)
        ensures
            *final(self) == (ArtifactCacheStats {
                materialization_elapsed_us: counted(old(self).materialization_elapsed_us, clamped(elapsed)),
                ..*old(self)
            }),
    {
        self.materialization_elapsed_us = self::add(self.materialization_elapsed_us, micros(elapsed));
    }

    /// Counts one use of the compiler identity, computed or reused.
    pub fn compiler_identity(
        &mut self,
        computed: bool,
        files: u64,
        bytes: u64,
        wall: u128,
        cpu: u128,
    )
        ensures
            *final(self) == identity_counted(
                *old(self),
                computed,
                files,
                bytes,
                clamped(wall),
                clamped(cpu),
            ),
    {
        let wall: u64 = micros(wall);
        let cpu: u64 = micros(cpu);
        self.identity_calls = self::add(self.identity_calls, 1);
        if computed {
            self.identity_computations = self::add(self.identity_computations, 1);
            self.identity_files = self::add(self.identity_files, files);
            self.identity_bytes = self::add(self.identity_bytes, bytes);
            self.identity_computation_wall_us = self::add(self.identity_computation_wall_us, wall);
            self.identity_computation_cpu_us = self::add(self.identity_computation_cpu_us, cpu);
        } else {
            self.identity_reuses = self::add(self.identity_reuses, 1);
            self.identity_reuse_wall_us = self::add(self.identity_reuse_wall_us, wall);
            self.identity_reuse_cpu_us = self::add(self.identity_reuse_cpu_us, cpu);
        }
        self.identity_wall_us = self::add(self.identity_wall_us, wall);
        self.identity_cpu_us = self::add(self.identity_cpu_us, cpu);
    }

    /// Counts one hashing of action inputs.
    pub fn action_hash(&mut self, elapsed: u128, failed: bool)
        ensures
            *final(self) == (ArtifactCacheStats {
                action_hash_calls: counted(old(self).action_hash_calls, 1),
                action_hash_failures: counted(
                    old(self).action_hash_failures,
                    if failed { 1 } else { 0 },
                ),
                action_hash_wall_us: counted(old(self).action_hash_wall_us, clamped(elapsed)),
                ..*old(self)
            }),
    {
        self.action_hash_calls = self::add(self.action_hash_calls, 1);
        if failed {
            self.action_hash_failures = self::add(self.action_hash_failures, 1);
        }
        self.action_hash_wall_us = self::add(self.action_hash_wall_us, micros(elapsed));
    }

    /// Counts a publication attempt.
    pub fn publication_attempt(&mut self)
        ensures
            *final(self) == (ArtifactCacheStats {
                publication_attempts: counted(old(self).publication_attempts, 1),
                ..*old(self)
            }),
    {
        self.publication_attempts = self::add(self.publication_attempts, 1);
    }

    /// Counts a finished publication: stored, skipped or failed.
    pub fn publication_finished(&mut self, result: Result<bool, ()>, elapsed: u128)
        ensures
            *final(self) == (ArtifactCacheStats {
                publication_elapsed_us: counted(
                    old(self).publication_elapsed_us,
                    clamped(elapsed),
                ),
                publication_stored: counted(
                    old(self).publication_stored,
                    if result == Ok::<bool, ()>(true) { 1 } else { 0 },
                ),
                publication_skipped: counted(
                    old(self).publication_skipped,
                    if result == Ok::<bool, ()>(false) { 1 } else { 0 },
                ),
                publication_failures: counted(
                    old(self).publication_failures,
                    if result is Err { 1 } else { 0 },
                ),
                ..*old(self)
            }),
    {
        self.publication_elapsed_us = self::add(self.publication_elapsed_us, micros(elapsed));
        match result {
            Ok(true) => {
                self.publication_stored = self::add(self.publication_stored, 1);
            },
            Ok(false) => {
                self.publication_skipped = self::add(self.publication_skipped, 1);
            },
            Err(_) => {
                self.publication_failures = self::add(self.publication_failures, 1);
            },
        }
    }

    /// Adds the files and bytes of a stored entry.
    pub fn published(&mut self, files: u64, bytes: u64)
        ensures
            *final(self) == (ArtifactCacheStats {
                publication_files: counted(old(self).publication_files, files),
                publication_bytes: counted(old(self).publication_bytes, bytes),
                ..*old(self)
            }),
    {
        self.publication_files = self::add(self.publication_files, files);
        self.publication_bytes = self::add(self.publication_bytes, bytes);
    }

    /// Counts one execution of rustc.
    pub fn rustc_finished(&mut self, elapsed: u128, failed: bool, primary_link_rustc: bool)
        ensures
            *final(self) == rustc_counted(
                *old(self),
                clamped(elapsed),
                failed,
                primary_link_rustc,
            ),
    {
        self.rustc_executions = self::add(self.rustc_executions, 1);
        let elapsed: u64 = micros(elapsed);
        self.rustc_elapsed_us = self::add(self.rustc_elapsed_us, elapsed);
        if failed {
            self.rustc_failures = self::add(self.rustc_failures, 1);
        }
        if primary_link_rustc {
            self.primary_link_rustc_executions = self::add(self.primary_link_rustc_executions, 1);
            self.primary_link_rustc_elapsed_us =
                self::add(self.primary_link_rustc_elapsed_us, elapsed);
            if failed {
                self.primary_link_rustc_failures = self::add(self.primary_link_rustc_failures, 1);
            }
        }
    }

    /// Counts one execution of a build script.
    pub fn build_script_finished(&mut self, elapsed: u128, failed: bool)
        ensures
            *final(self) == (ArtifactCacheStats {
                build_script_executions: counted(old(self).build_script_executions, 1),
                build_script_elapsed_us: counted(
                    old(self).build_script_elapsed_us,
                    clamped(elapsed),
                ),
                build_script_failures: counted(
                    old(self).build_script_failures,
                    if failed { 1 } else { 0 },
                ),
                ..*old(self)
            }),
    {
        self.build_script_executions = self::add(self.build_script_executions, 1);
        self.build_script_elapsed_us = self::add(self.build_script_elapsed_us, micros(elapsed));
        if failed {
            self.build_script_failures = self::add(self.build_script_failures, 1);
        }
    }

    /// Counts a finished snapshot restore: its copied and existing files, or a
    /// failure.
    pub fn snapshot_restore_finished(
        &mut self,
        result: Result<(u64, u64, u64, u64), ()>,
        elapsed: u128,
    )
        ensures
            match result {
                Ok(counts) => *final(self) == (ArtifactCacheStats {
                    snapshot_restore_elapsed_us: counted(
                        old(self).snapshot_restore_elapsed_us,
                        clamped(elapsed),
                    ),
                    snapshot_restore_files: counted(old(self).snapshot_restore_files, counts.0),
                    snapshot_restore_bytes: counted(old(self).snapshot_restore_bytes, counts.1),
                    snapshot_restore_existing_files: counted(
                        old(self).snapshot_restore_existing_files,
                        counts.2,
                    ),
                    snapshot_restore_existing_bytes: counted(
                        old(self).snapshot_restore_existing_bytes,
                        counts.3,
                    ),
                    ..*old(self)
                }),
                Err(_) => *final(self) == (ArtifactCacheStats {
                    snapshot_restore_elapsed_us: counted(
                        old(self).snapshot_restore_elapsed_us,
                        clamped(elapsed),
                    ),
                    snapshot_restore_failures: counted(old(self).snapshot_restore_failures, 1),
                    ..*old(self)
                }),
            },
    {
        self.snapshot_restore_elapsed_us =
            self::add(self.snapshot_restore_elapsed_us, micros(elapsed));
        match result {
            Ok((files, bytes, existing_files, existing_bytes)) => {
                self.snapshot_restore_files = self::add(self.snapshot_restore_files, files);
                self.snapshot_restore_bytes = self::add(self.snapshot_restore_bytes, bytes);
                self.snapshot_restore_existing_files =
                    self::add(self.snapshot_restore_existing_files, existing_files);
                self.snapshot_restore_existing_bytes =
                    self::add(self.snapshot_restore_existing_bytes, existing_bytes);
            },
            Err(_) => {
                self.snapshot_restore_failures = self::add(self.snapshot_restore_failures, 1);
            },
        }
    }

    /// Counts a finished snapshot manifest: its files, or a failure.
    pub fn snapshot_manifest_finished(&mut self, result: Result<(u64, u64), ()>, elapsed: u128)
        ensures
            match result {
                Ok(counts) => *final(self) == (ArtifactCacheStats {
                    snapshot_manifest_elapsed_us: counted(
                        old(self).snapshot_manifest_elapsed_us,
                        clamped(elapsed),
                    ),
                    snapshot_manifest_files: counted(old(self).snapshot_manifest_files, counts.0),
                    snapshot_manifest_bytes: counted(old(self).snapshot_manifest_bytes, counts.1),
                    ..*old(self)
                }),
                Err(_) => *final(self) == (ArtifactCacheStats {
                    snapshot_manifest_elapsed_us: counted(
                        old(self).snapshot_manifest_elapsed_us,
                        clamped(elapsed),
                    ),
                    snapshot_manifest_failures: counted(old(self).snapshot_manifest_failures, 1),
                    ..*old(self)
                }),
            },
    {
        self.snapshot_manifest_elapsed_us =
            self::add(self.snapshot_manifest_elapsed_us, micros(elapsed));
        match result {
            Ok((files, bytes)) => {
                self.snapshot_manifest_files = self::add(self.snapshot_manifest_files, files);
                self.snapshot_manifest_bytes = self::add(self.snapshot_manifest_bytes, bytes);
            },
            Err(_) => {
                self.snapshot_manifest_failures = self::add(self.snapshot_manifest_failures, 1);
            },
        }
    }

    /// The number of units that were not eligible, for any reason.
    pub open spec fn ineligible_total(&self) -> int {
        sum_of(self.ineligible@, 13)
    }

    /// The rows of the report: a section, a name and a value each.
    pub open spec fn report_rows(&self) -> Seq<(Seq<char>, Seq<char>, u64)> {
        seq![
            ("units"@, "cargo_fresh"@, self.cargo_fresh),
            ("units"@, "eligible"@, self.eligible),
            ("units"@, "ineligible"@, self.ineligible_total() as u64),
            ("preflight"@, "attempted"@, self.preflight_attempted),
            ("preflight"@, "already_fresh"@, self.preflight_already_fresh),
            ("preflight"@, "blocked_by_dependency"@, self.preflight_blocked_by_dependency),
            ("preflight"@, "finalized"@, self.preflight_finalized),
            ("preflight"@, "bypassed"@, self.preflight_bypassed),
            ("preflight"@, "elapsed_us"@, self.preflight_elapsed_us),
            ("lookup"@, "hits"@, self.hits),
            ("lookup"@, "misses"@, self.misses),
            ("lookup"@, "restore_failures"@, self.restore_failures),
            ("lookup"@, "elapsed_us"@, self.restore_elapsed_us),
            ("lookup"@, "hit_elapsed_us"@, self.restore_hit_elapsed_us),
            ("lookup"@, "miss_elapsed_us"@, self.restore_miss_elapsed_us),
            ("restore"@, "files"@, self.restored_files),
            ("restore"@, "logical_bytes"@, self.restored_bytes),
            ("materialization"@, "hardlinked_files"@, self.hardlinked_files),
            ("materialization"@, "hardlinked_logical_bytes"@, self.hardlinked_bytes),
            ("materialization"@, "copied_files"@, self.copied_files),
            ("materialization"@, "copied_logical_bytes"@, self.copied_bytes),
            ("materialization"@, "cross_device_copied_files"@, self.cross_device_copied_files),
            ("materialization"@, "cross_device_copied_logical_bytes"@, self.cross_device_copied_bytes),
            ("materialization"@, "elapsed_us"@, self.materialization_elapsed_us),
            ("hashing.compiler_identity"@, "calls"@, self.identity_calls),
            ("hashing.compiler_identity"@, "computations"@, self.identity_computations),
            ("hashing.compiler_identity"@, "reuses"@, self.identity_reuses),
            ("hashing.compiler_identity"@, "files"@, self.identity_files),
            ("hashing.compiler_identity"@, "bytes"@, self.identity_bytes),
            ("hashing.compiler_identity"@, "wall_us"@, self.identity_wall_us),
            ("hashing.compiler_identity"@, "cpu_us"@, self.identity_cpu_us),
            ("hashing.compiler_identity"@, "computation_wall_us"@, self.identity_computation_wall_us),
            ("hashing.compiler_identity"@, "computation_cpu_us"@, self.identity_computation_cpu_us),
            ("hashing.compiler_identity"@, "reuse_wall_us"@, self.identity_reuse_wall_us),
            ("hashing.compiler_identity"@, "reuse_cpu_us"@, self.identity_reuse_cpu_us),
            ("hashing.action_inputs"@, "calls"@, self.action_hash_calls),
            ("hashing.action_inputs"@, "failures"@, self.action_hash_failures),
            ("hashing.action_inputs"@, "wall_us"@, self.action_hash_wall_us),
            ("publication"@, "attempts"@, self.publication_attempts),
            ("publication"@, "stored"@, self.publication_stored),
            ("publication"@, "skipped"@, self.publication_skipped),
            ("publication"@, "failures"@, self.publication_failures),
            ("publication"@, "files"@, self.publication_files),
            ("publication"@, "logical_bytes"@, self.publication_bytes),
            ("publication"@, "elapsed_us"@, self.publication_elapsed_us),
            ("rustc"@, "executions"@, self.rustc_executions),
            ("rustc"@, "failures"@, self.rustc_failures),
            ("rustc"@, "elapsed_us"@, self.rustc_elapsed_us),
            ("build_script"@, "executions"@, self.build_script_executions),
            ("build_script"@, "failures"@, self.build_script_failures),
            ("build_script"@, "elapsed_us"@, self.build_script_elapsed_us),
            ("snapshot.restore"@, "copied_files"@, self.snapshot_restore_files),
            ("snapshot.restore"@, "copied_logical_bytes"@, self.snapshot_restore_bytes),
            ("snapshot.restore"@, "existing_files"@, self.snapshot_restore_existing_files),
            ("snapshot.restore"@, "existing_logical_bytes"@, self.snapshot_restore_existing_bytes),
            ("snapshot.restore"@, "failures"@, self.snapshot_restore_failures),
            ("snapshot.restore"@, "elapsed_us"@, self.snapshot_restore_elapsed_us),
            ("snapshot.manifest"@, "files"@, self.snapshot_manifest_files),
            ("snapshot.manifest"@, "logical_bytes"@, self.snapshot_manifest_bytes),
            ("snapshot.manifest"@, "failures"@, self.snapshot_manifest_failures),
            ("snapshot.manifest"@, "elapsed_us"@, self.snapshot_manifest_elapsed_us),
            ("primary_link_rustc"@, "executions"@, self.primary_link_rustc_executions),
            ("primary_link_rustc"@, "failures"@, self.primary_link_rustc_failures),
            ("primary_link_rustc"@, "elapsed_us"@, self.primary_link_rustc_elapsed_us),
        ]
    }

    /// The report on the build: whether a cache is configured, the rows of
    /// single counters, the reasons in order and the restore phases in order.
    pub fn report(&self) -> (report: Report)
        requires
            self.ineligible_total() <= u64::MAX,
        ensures
            report.version == 1,
            report.configured == self.cache_configured,
            contents(report.rows@) == self.report_rows(),
            report.reasons@.len() == 13,
            forall|reason: IneligibleReason|
                (#[trigger] report.reasons@[reason.position()]).name@ == reason.label()
                    && report.reasons@[reason.position()].section@
                    == "units.ineligible_by_reason"@ && report.reasons@[reason.position()].value
                    == self.ineligible@[reason.position()],
            report.phases@.len() == 9,
            forall|phase: RestorePhase|
                (#[trigger] report.phases@[phase.position()]).name@ == phase.label()
                    && report.phases@[phase.position()].section@ == "lookup.phase_elapsed_us"@
                    && report.phases@[phase.position()].value
                    == self.restore_phase_elapsed_us@[phase.position()],
    {
        let mut reasons: Vec<ReportRow> = Vec::new();
        let mut total: u64 = 0;
        let all = IneligibleReason::all();
        let mut index: usize = 0;
        while index < 13
            invariant
                index <= 13,
                self.ineligible_total() <= u64::MAX,
                forall|i: int| 0 <= i < 13 ==> (#[trigger] all@[i]).position() == i,
                total == sum_of(self.ineligible@, index as int),
                reasons@.len() == index,
                forall|i: int|
                    0 <= i < index ==> (#[trigger] reasons@[i]).name@ == all@[i].label()
                        && reasons@[i].section@ == "units.ineligible_by_reason"@
                        && reasons@[i].value == self.ineligible@[i],
            decreases 13 - index,
        {
            let reason = all[index];
            let count: u64 = self.ineligible[reason.index()];
            proof {
                lemma_sum_monotone(self.ineligible@, index + 1, 13);
            }
            total = total + count;
            reasons.push(
                ReportRow {
                    section: "units.ineligible_by_reason",
                    name: reason.name(),
                    value: count,
                },
            );
            index = index + 1;
        }
        let mut phases: Vec<ReportRow> = Vec::new();
        let every = RestorePhase::all();
        index = 0;
        while index < 9
            invariant
                index <= 9,
                forall|i: int| 0 <= i < 9 ==> (#[trigger] every@[i]).position() == i,
                phases@.len() == index,
                forall|i: int|
                    0 <= i < index ==> (#[trigger] phases@[i]).name@ == every@[i].label()
                        && phases@[i].section@ == "lookup.phase_elapsed_us"@
                        && phases@[i].value == self.restore_phase_elapsed_us@[i],
            decreases 9 - index,
        {
            let phase = every[index];
            phases.push(
                ReportRow {
                    section: "lookup.phase_elapsed_us",
                    name: phase.name(),
                    value: self.restore_phase_elapsed_us[phase.index()],
                },
            );
            index = index + 1;
        }
        let rows = self.single_rows(total);
        proof {
            assert forall|reason: IneligibleReason|
                (#[trigger] reasons@[reason.position()]).name@ == reason.label()
                    && reasons@[reason.position()].section@ == "units.ineligible_by_reason"@
                    && reasons@[reason.position()].value == self.ineligible@[reason.position()] by {
                assert(all@[reason.position()] == reason);
            }
            assert forall|phase: RestorePhase|
                (#[trigger] phases@[phase.position()]).name@ == phase.label()
                    && phases@[phase.position()].section@ == "lookup.phase_elapsed_us"@
                    && phases@[phase.position()].value
                    == self.restore_phase_elapsed_us@[phase.position()] by {
                assert(every@[phase.position()] == phase);
            }
        }
        Report { version: 1, configured: self.cache_configured, rows, reasons, phases }
    }

    /// The rows of single counters, with `total` for the units that were not
    /// eligible.
    fn single_rows(&self, total: u64) -> (rows: Vec<ReportRow>)
        requires
            total == self.ineligible_total(),
        ensures
            contents(rows@) == self.report_rows(),
    {
        let mut rows: Vec<ReportRow> = Vec::new();
        rows.push(ReportRow { section: "units", name: "cargo_fresh", value: self.cargo_fresh });
        rows.push(ReportRow { section: "units", name: "eligible", value: self.eligible });
        rows.push(ReportRow { section: "units", name: "ineligible", value: total });
        rows.push(ReportRow { section: "preflight", name: "attempted", value: self.preflight_attempted });
        rows.push(ReportRow { section: "preflight", name: "already_fresh", value: self.preflight_already_fresh });
        rows.push(ReportRow { section: "preflight", name: "blocked_by_dependency", value: self.preflight_blocked_by_dependency });
        rows.push(ReportRow { section: "preflight", name: "finalized", value: self.preflight_finalized });
        rows.push(ReportRow { section: "preflight", name: "bypassed", value: self.preflight_bypassed });
        rows.push(ReportRow { section: "preflight", name: "elapsed_us", value: self.preflight_elapsed_us });
        rows.push(ReportRow { section: "lookup", name: "hits", value: self.hits });
        rows.push(ReportRow { section: "lookup", name: "misses", value: self.misses });
        rows.push(ReportRow { section: "lookup", name: "restore_failures", value: self.restore_failures });
        rows.push(ReportRow { section: "lookup", name: "elapsed_us", value: self.restore_elapsed_us });
        rows.push(ReportRow { section: "lookup", name: "hit_elapsed_us", value: self.restore_hit_elapsed_us });
        rows.push(ReportRow { section: "lookup", name: "miss_elapsed_us", value: self.restore_miss_elapsed_us });
        rows.push(ReportRow { section: "restore", name: "files", value: self.restored_files });
        rows.push(ReportRow { section: "restore", name: "logical_bytes", value: self.restored_bytes });
        rows.push(ReportRow { section: "materialization", name: "hardlinked_files", value: self.hardlinked_files });
        rows.push(ReportRow { section: "materialization", name: "hardlinked_logical_bytes", value: self.hardlinked_bytes });
        rows.push(ReportRow { section: "materialization", name: "copied_files", value: self.copied_files });
        rows.push(ReportRow { section: "materialization", name: "copied_logical_bytes", value: self.copied_bytes });
        rows.push(ReportRow { section: "materialization", name: "cross_device_copied_files", value: self.cross_device_copied_files });
        rows.push(ReportRow { section: "materialization", name: "cross_device_copied_logical_bytes", value: self.cross_device_copied_bytes });
        rows.push(ReportRow { section: "materialization", name: "elapsed_us", value: self.materialization_elapsed_us });
        rows.push(ReportRow { section: "hashing.compiler_identity", name: "calls", value: self.identity_calls });
        rows.push(ReportRow { section: "hashing.compiler_identity", name: "computations", value: self.identity_computations });
        rows.push(ReportRow { section: "hashing.compiler_identity", name: "reuses", value: self.identity_reuses });
        rows.push(ReportRow { section: "hashing.compiler_identity", name: "files", value: self.identity_files });
        rows.push(ReportRow { section: "hashing.compiler_identity", name: "bytes", value: self.identity_bytes });
        rows.push(ReportRow { section: "hashing.compiler_identity", name: "wall_us", value: self.identity_wall_us });
        rows.push(ReportRow { section: "hashing.compiler_identity", name: "cpu_us", value: self.identity_cpu_us });
        rows.push(ReportRow { section: "hashing.compiler_identity", name: "computation_wall_us", value: self.identity_computation_wall_us });
        rows.push(ReportRow { section: "hashing.compiler_identity", name: "computation_cpu_us", value: self.identity_computation_cpu_us });
        rows.push(ReportRow { section: "hashing.compiler_identity", name: "reuse_wall_us", value: self.identity_reuse_wall_us });
        rows.push(ReportRow { section: "hashing.compiler_identity", name: "reuse_cpu_us", value: self.identity_reuse_cpu_us });
        rows.push(ReportRow { section: "hashing.action_inputs", name: "calls", value: self.action_hash_calls });
        rows.push(ReportRow { section: "hashing.action_inputs", name: "failures", value: self.action_hash_failures });
        rows.push(ReportRow { section: "hashing.action_inputs", name: "wall_us", value: self.action_hash_wall_us });
        rows.push(ReportRow { section: "publication", name: "attempts", value: self.publication_attempts });
        rows.push(ReportRow { section: "publication", name: "stored", value: self.publication_stored });
        rows.push(ReportRow { section: "publication", name: "skipped", value: self.publication_skipped });
        rows.push(ReportRow { section: "publication", name: "failures", value: self.publication_failures });
        rows.push(ReportRow { section: "publication", name: "files", value: self.publication_files });
        rows.push(ReportRow { section: "publication", name: "logical_bytes", value: self.publication_bytes });
        rows.push(ReportRow { section: "publication", name: "elapsed_us", value: self.publication_elapsed_us });
        rows.push(ReportRow { section: "rustc", name: "executions", value: self.rustc_executions });
        rows.push(ReportRow { section: "rustc", name: "failures", value: self.rustc_failures });
        rows.push(ReportRow { section: "rustc", name: "elapsed_us", value: self.rustc_elapsed_us });
        rows.push(ReportRow { section: "build_script", name: "executions", value: self.build_script_executions });
        rows.push(ReportRow { section: "build_script", name: "failures", value: self.build_script_failures });
        rows.push(ReportRow { section: "build_script", name: "elapsed_us", value: self.build_script_elapsed_us });
        rows.push(ReportRow { section: "snapshot.restore", name: "copied_files", value: self.snapshot_restore_files });
        rows.push(ReportRow { section: "snapshot.restore", name: "copied_logical_bytes", value: self.snapshot_restore_bytes });
        rows.push(ReportRow { section: "snapshot.restore", name: "existing_files", value: self.snapshot_restore_existing_files });
        rows.push(ReportRow { section: "snapshot.restore", name: "existing_logical_bytes", value: self.snapshot_restore_existing_bytes });
        rows.push(ReportRow { section: "snapshot.restore", name: "failures", value: self.snapshot_restore_failures });
        rows.push(ReportRow { section: "snapshot.restore", name: "elapsed_us", value: self.snapshot_restore_elapsed_us });
        rows.push(ReportRow { section: "snapshot.manifest", name: "files", value: self.snapshot_manifest_files });
        rows.push(ReportRow { section: "snapshot.manifest", name: "logical_bytes", value: self.snapshot_manifest_bytes });
        rows.push(ReportRow { section: "snapshot.manifest", name: "failures", value: self.snapshot_manifest_failures });
        rows.push(ReportRow { section: "snapshot.manifest", name: "elapsed_us", value: self.snapshot_manifest_elapsed_us });
        rows.push(ReportRow { section: "primary_link_rustc", name: "executions", value: self.primary_link_rustc_executions });
        rows.push(ReportRow { section: "primary_link_rustc", name: "failures", value: self.primary_link_rustc_failures });
        rows.push(ReportRow { section: "primary_link_rustc", name: "elapsed_us", value: self.primary_link_rustc_elapsed_us });
        proof {
            assert(contents(rows@) =~= self.report_rows());
        }
        rows
    }
}

/// One row of the report. Nested sections are separated by a dot.
pub struct ReportRow {
    pub section: &'static str,
    pub name: &'static str,
    pub value: u64,
}

/// The report on one build.
pub struct Report {
    pub version: u64,
    pub configured: bool,
    pub rows: Vec<ReportRow>,
    pub reasons: Vec<ReportRow>,
    pub phases: Vec<ReportRow>,
}

/// Sections, names and values of rows.
pub open spec fn contents(rows: Seq<ReportRow>) -> Seq<(Seq<char>, Seq<char>, u64)> {
    Seq::new(rows.len(), |i: int| (rows[i].section@, rows[i].name@, rows[i].value))
}

/// A counter grows by what is counted, and starts over behind its largest value; a
/// time that is too long for a counter is the longest that fits.
pub proof fn law_counters_add_up(counter: u64, value: u64, microseconds: u128)
    ensures
        counted(counter, value) as int == (counter as int + value as int) % 0x1_0000_0000_0000_0000,
        clamped(microseconds) <= microseconds,
        clamped(microseconds) == microseconds || clamped(microseconds) == u64::MAX,
{
}

/// How much a counter grew.
pub open spec fn growth(before: u64, after: u64) -> int {
    after as int - before as int
}

/// A value where it counts, and nothing elsewhere.
pub open spec fn where_counted(value: u64, counts: bool) -> int {
    if counts {
        value as int
    } else {
        0
    }
}

/// Every call for the identity of a compiler is a computation or a reuse, and its
/// times are counted there and in all. Only a computation reads files.
pub proof fn law_identity_calls_are_computations_or_reuses(
    before: ArtifactCacheStats,
    computed: bool,
    files: u64,
    bytes: u64,
    wall: u64,
    cpu: u64,
)
    requires
        before.identity_calls < u64::MAX,
        before.identity_computations < u64::MAX,
        before.identity_reuses < u64::MAX,
        before.identity_files + files <= u64::MAX,
        before.identity_bytes + bytes <= u64::MAX,
        before.identity_wall_us + wall <= u64::MAX,
        before.identity_cpu_us + cpu <= u64::MAX,
        before.identity_computation_wall_us + wall <= u64::MAX,
        before.identity_computation_cpu_us + cpu <= u64::MAX,
        before.identity_reuse_wall_us + wall <= u64::MAX,
        before.identity_reuse_cpu_us + cpu <= u64::MAX,
    ensures
        ({
            let after = identity_counted(before, computed, files, bytes, wall, cpu);
            let computations = growth(before.identity_computations, after.identity_computations);
            let reuses = growth(before.identity_reuses, after.identity_reuses);
            &&& growth(before.identity_calls, after.identity_calls) == 1
            &&& computations + reuses == 1
            &&& computed <==> computations == 1
            &&& growth(before.identity_wall_us, after.identity_wall_us) == wall
            &&& growth(before.identity_cpu_us, after.identity_cpu_us) == cpu
            &&& growth(before.identity_computation_wall_us, after.identity_computation_wall_us)
                == where_counted(wall, computed)
            &&& growth(before.identity_computation_cpu_us, after.identity_computation_cpu_us) == where_counted(cpu, computed)
            &&& growth(before.identity_reuse_wall_us, after.identity_reuse_wall_us) == where_counted(wall, !computed)
            &&& growth(before.identity_reuse_cpu_us, after.identity_reuse_cpu_us) == where_counted(cpu, !computed)
            &&& growth(before.identity_files, after.identity_files) == where_counted(files, computed)
            &&& growth(before.identity_bytes, after.identity_bytes) == where_counted(bytes, computed)
        }),
{
}

/// Every run of the compiler is counted with its time, and as a failure where it
/// failed; one that links what was asked for is counted once more as such.
pub proof fn law_runs_are_counted(
    before: ArtifactCacheStats,
    elapsed: u64,
    failed: bool,
    primary_link_rustc: bool,
)
    requires
        before.rustc_executions < u64::MAX,
        before.rustc_failures < u64::MAX,
        before.rustc_elapsed_us + elapsed <= u64::MAX,
        before.primary_link_rustc_executions < u64::MAX,
        before.primary_link_rustc_failures < u64::MAX,
        before.primary_link_rustc_elapsed_us + elapsed <= u64::MAX,
    ensures
        ({
            let after = rustc_counted(before, elapsed, failed, primary_link_rustc);
            let links = growth(
                before.primary_link_rustc_executions,
                after.primary_link_rustc_executions,
            );
            &&& growth(before.rustc_executions, after.rustc_executions) == 1
            &&& growth(before.rustc_elapsed_us, after.rustc_elapsed_us) == elapsed
            &&& growth(before.rustc_failures, after.rustc_failures) == if failed {
                1int
            } else {
                0
            }
            &&& links == if primary_link_rustc {
                1int
            } else {
                0
            }
            &&& growth(
                before.primary_link_rustc_elapsed_us,
                after.primary_link_rustc_elapsed_us,
            ) == links * elapsed
            &&& growth(before.primary_link_rustc_failures, after.primary_link_rustc_failures)
                == links * growth(before.rustc_failures, after.rustc_failures)
        }),
{
}

/// A lookup is a hit or a miss, and its time is counted for what it was and in all.
pub proof fn law_lookup_times_add_up(
    before: ArtifactCacheStats,
    hit: bool,
    failed: bool,
    elapsed: u64,
)
    requires
        before.hits < u64::MAX,
        before.misses < u64::MAX,
        before.restore_failures < u64::MAX,
        before.restore_elapsed_us + elapsed <= u64::MAX,
        before.restore_hit_elapsed_us + elapsed <= u64::MAX,
        before.restore_miss_elapsed_us + elapsed <= u64::MAX,
    ensures
        ({
            let after = lookup_counted(before, hit, failed, elapsed);
            let hits = growth(before.hits, after.hits);
            let misses = growth(before.misses, after.misses);
            &&& hits + misses == 1
            &&& hit <==> hits == 1
            &&& growth(before.restore_elapsed_us, after.restore_elapsed_us) == elapsed
            &&& growth(before.restore_hit_elapsed_us, after.restore_hit_elapsed_us) == where_counted(elapsed, hit)
            &&& growth(before.restore_miss_elapsed_us, after.restore_miss_elapsed_us) == where_counted(elapsed, !hit)
            &&& failed <==> growth(before.restore_failures, after.restore_failures) == 1
        }),
{
}

} // verus!
