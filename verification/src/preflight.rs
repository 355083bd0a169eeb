//! Restoring whole dependency closures before anything is scheduled.
//!
//! Units are numbered by their positions in a list, and name the units that
//! they depend on by these numbers.

use vstd::prelude::*;

use crate::stats::counted;
use crate::stats::ArtifactCacheStats;
use crate::unit::CompileMode;

verus! {

/// What came of an attempt to restore a unit.
#[derive(Clone, Copy, Debug, PartialEq, Eq, Structural)]
pub enum RestoreOutcome {
    /// The attempt failed.
    Failed,
    /// The invocation cannot come from the cache.
    NoAction,
    /// The cache has no entry that can be used.
    Miss,
    /// The outputs were restored, and count as fresh.
    Committed,
    /// The outputs were restored, but do not count as fresh.
    NotCommitted,
}

/// What the steps of an attempt to restore a unit come to, as far as they are
/// taken.
#[derive(Clone, Copy, Debug, PartialEq, Eq, Structural)]
pub struct RestoreSteps {
    /// Whether the attempt could be prepared: the sources were checked, the mark
    /// of an earlier restore was taken back, and the start was recorded.
    pub prepared: bool,
    /// Whether there is a cached action. Absent where that failed.
    pub described: Option<bool>,
    /// Whether the outputs were restored.
    pub hit: bool,
    /// Whether the state of the unit was recorded.
    pub finished: bool,
    /// Whether the restored outputs count as fresh. Absent where that cannot be
    /// told.
    pub committed: Option<bool>,
}

/// What an attempt to restore a unit comes to.
pub fn artifact_cache_freshness_preflight_restore(steps: RestoreSteps) -> (outcome: RestoreOutcome)
    ensures
        outcome == if !steps.prepared || steps.described is None {
            RestoreOutcome::Failed
        } else if steps.described == Some(false) {
            RestoreOutcome::NoAction
        } else if !steps.hit {
            RestoreOutcome::Miss
        } else if !steps.finished || steps.committed is None {
            RestoreOutcome::Failed
        } else if steps.committed == Some(true) {
            RestoreOutcome::Committed
        } else {
            RestoreOutcome::NotCommitted
        },
{
    if !steps.prepared {
        return RestoreOutcome::Failed;
    }
    match steps.described {
        None => RestoreOutcome::Failed,
        Some(false) => RestoreOutcome::NoAction,
        Some(true) => {
            if !steps.hit {
                RestoreOutcome::Miss
            } else if !steps.finished {
                RestoreOutcome::Failed
            } else {
                match steps.committed {
                    None => RestoreOutcome::Failed,
                    Some(true) => RestoreOutcome::Committed,
                    Some(false) => RestoreOutcome::NotCommitted,
                }
            }
        },
    }
}

/// A unit, and what is found out about it when it is asked for.
pub struct PreflightUnit {
    pub dependencies: Vec<usize>,
    pub mode: CompileMode,
    pub is_bin: bool,
    pub is_lib: bool,
    pub is_proc_macro: bool,
    pub is_artifact: bool,
    pub skip_non_compile_time_dep: bool,
    pub has_custom_build: bool,
    /// Whether build scripts add to what is linked or loaded.
    pub has_build_script_inputs: bool,
    /// How many bills of materials are written. Absent where that cannot be
    /// told.
    pub sbom_files: Option<usize>,
    /// Whether the executor wants the unit rebuilt.
    pub force_rebuild: bool,
    /// Whether the outputs that are there are fresh. Absent where that cannot be
    /// told, or is not known yet.
    pub fresh: Option<bool>,
    /// What an attempt to restore the unit comes to. Failed, too, where none was
    /// made yet.
    pub restore: RestoreOutcome,
}

/// Something could not be told of a unit.
#[derive(Clone, Copy, Debug, PartialEq, Eq, Structural)]
pub struct PreflightFailure;

/// Whether units are looked at at all before scheduling.
pub fn artifact_cache_preflight_applies(
    cache_configured: bool,
    executor_compatible: bool,
    fine_grain_locking: bool,
    sld_requested: bool,
) -> (applies: bool)
    ensures
        applies == (cache_configured && executor_compatible && !fine_grain_locking
            && !sld_requested),
{
    cache_configured && executor_compatible && !fine_grain_locking && !sld_requested
}

/// Whether the outputs of a unit could come from the cache.
pub open spec fn is_candidate(unit: PreflightUnit) -> Result<bool, PreflightFailure> {
    if unit.skip_non_compile_time_dep || unit.is_artifact || unit.mode != CompileMode::Build
        || !unit.is_lib || unit.is_proc_macro || unit.has_custom_build
        || unit.has_build_script_inputs {
        Ok(false)
    } else {
        match unit.sbom_files {
            None => Err(PreflightFailure),
            Some(files) => Ok(files == 0),
        }
    }
}

/// Whether the outputs of a unit could come from the cache.
pub fn artifact_cache_freshness_preflight_candidate(unit: &PreflightUnit) -> (candidate: Result<
    bool,
    PreflightFailure,
>)
    ensures
        candidate == is_candidate(*unit),
{
    let built = match unit.mode {
        CompileMode::Build => true,
        _ => false,
    };
    if unit.skip_non_compile_time_dep || unit.is_artifact || !built || !unit.is_lib
        || unit.is_proc_macro || unit.has_custom_build || unit.has_build_script_inputs {
        return Ok(false);
    }
    match unit.sbom_files {
        None => Err(PreflightFailure),
        Some(files) => Ok(files == 0),
    }
}

/// Whether all dependencies are units of the list.
pub open spec fn is_graph(units: Seq<PreflightUnit>) -> bool {
    forall|u: int, i: int|
        0 <= u < units.len() && 0 <= i < units[u].dependencies@.len()
            ==> #[trigger] units[u].dependencies@[i] < units.len()
}

/// Whether all numbers are those of units.
pub open spec fn are_units(units: Seq<PreflightUnit>, list: Seq<usize>) -> bool {
    forall|i: int| 0 <= i < list.len() ==> #[trigger] list[i] < units.len()
}

/// How far a walk for candidates has come.
#[verifier::ext_equal]
pub struct Walk {
    /// The units that were entered.
    pub visited: Seq<bool>,
    /// The candidates, each behind the candidates that it depends on.
    pub found: Seq<usize>,
}

/// A walk that enters a unit: its dependencies first, then the unit itself,
/// where it was not entered before. `depth` bounds how deep it goes.
pub open spec fn walked(
    units: Seq<PreflightUnit>,
    unit: usize,
    walk: Walk,
    depth: nat,
) -> Option<Walk>
    decreases depth, 0nat,
{
    if depth == 0 || walk.visited[unit as int] {
        Some(walk)
    } else {
        let entered = Walk { visited: walk.visited.update(unit as int, true), ..walk };
        match walked_all(
            units,
            units[unit as int].dependencies@,
            entered,
            (depth - 1) as nat,
        ) {
            None => None,
            Some(below) => match is_candidate(units[unit as int]) {
                Err(_) => None,
                Ok(false) => Some(below),
                Ok(true) => Some(Walk { found: below.found.push(unit), ..below }),
            },
        }
    }
}

/// A walk that enters units in order.
pub open spec fn walked_all(
    units: Seq<PreflightUnit>,
    list: Seq<usize>,
    walk: Walk,
    depth: nat,
) -> Option<Walk>
    decreases depth, list.len(),
{
    if list.len() == 0 {
        Some(walk)
    } else {
        match walked_all(units, list.drop_last(), walk, depth) {
            None => None,
            Some(before) => walked(units, list.last(), before, depth),
        }
    }
}

/// A walk that fails among the first units fails.
proof fn lemma_walk_fails(
    units: Seq<PreflightUnit>,
    list: Seq<usize>,
    walk: Walk,
    depth: nat,
    count: int,
)
    requires
        0 <= count <= list.len(),
        walked_all(units, list.take(count), walk, depth) is None,
    ensures
        walked_all(units, list, walk, depth) is None,
    decreases list.len() - count,
{
    if count < list.len() {
        assert(list.take(count + 1).drop_last() =~= list.take(count));
        lemma_walk_fails(units, list, walk, depth, count + 1);
    } else {
        assert(list.take(count) =~= list);
    }
}

/// Enters a unit.
fn walk_unit(
    units: &Vec<PreflightUnit>,
    unit: usize,
    visited: &mut Vec<bool>,
    found: &mut Vec<usize>,
    depth: usize,
) -> (result: Result<(), PreflightFailure>)
    requires
        is_graph(units@),
        unit < units@.len(),
        old(visited)@.len() == units@.len(),
    ensures
        final(visited)@.len() == units@.len(),
        match result {
            Ok(_) => walked(
                units@,
                unit,
                (Walk { visited: old(visited)@, found: old(found)@ }),
                depth as nat,
            ) == Some((Walk { visited: final(visited)@, found: final(found)@ })),
            Err(_) => walked(
                units@,
                unit,
                (Walk { visited: old(visited)@, found: old(found)@ }),
                depth as nat,
            ) is None,
        },
    decreases depth,
{
    if depth == 0 || visited[unit] {
        return Ok(());
    }
    visited.set(unit, true);
    let ghost entered = Walk { visited: visited@, found: found@ };
    let ghost all = units@[unit as int].dependencies@;
    let ghost whole = walked(
        units@,
        unit,
        Walk { visited: old(visited)@, found: old(found)@ },
        depth as nat,
    );
    let mut index: usize = 0;
    proof {
        assert(all.take(0) =~= Seq::empty());
    }
    while index < units[unit].dependencies.len()
        invariant
            is_graph(units@),
            unit < units@.len(),
            depth > 0,
            all == units@[unit as int].dependencies@,
            index <= all.len(),
            visited@.len() == units@.len(),
            walked_all(units@, all.take(index as int), entered, (depth - 1) as nat) == Some(
                (Walk { visited: visited@, found: found@ }),
            ),
            walked_all(units@, all, entered, (depth - 1) as nat) is None ==> whole is None,
            whole == walked(
                units@,
                unit,
                (Walk { visited: old(visited)@, found: old(found)@ }),
                depth as nat,
            ),
        decreases all.len() - index,
    {
        proof {
            assert(all.take(index + 1).drop_last() =~= all.take(index as int));
            assert(all.take(index + 1).last() == all[index as int]);
        }
        match walk_unit(units, units[unit].dependencies[index], visited, found, depth - 1) {
            Ok(_) => {},
            Err(error) => {
                proof {
                    lemma_walk_fails(units@, all, entered, (depth - 1) as nat, index + 1);
                }
                return Err(error);
            },
        }
        index = index + 1;
    }
    proof {
        assert(all.take(index as int) =~= all);
    }
    match artifact_cache_freshness_preflight_candidate(&units[unit]) {
        Err(error) => Err(error),
        Ok(candidate) => {
            if candidate {
                found.push(unit);
            }
            Ok(())
        },
    }
}

/// A walk that has entered nothing.
pub open spec fn no_walk(units: Seq<PreflightUnit>) -> Walk {
    Walk { visited: Seq::new(units.len(), |i: int| false), found: Seq::empty() }
}

/// A flag for every unit, all clear.
fn clear_flags(count: usize) -> (flags: Vec<bool>)
    ensures
        flags@ == Seq::new(count as nat, |i: int| false),
{
    let mut flags: Vec<bool> = Vec::new();
    let mut index: usize = 0;
    while index < count
        invariant
            index <= count,
            flags@ =~= Seq::new(index as nat, |i: int| false),
        decreases count - index,
    {
        flags.push(false);
        index = index + 1;
    }
    flags
}

/// The candidates that roots lead to, each behind the candidates that it
/// depends on.
pub fn artifact_cache_freshness_preflight_candidates(
    units: &Vec<PreflightUnit>,
    roots: &Vec<usize>,
) -> (candidates: Result<Vec<usize>, PreflightFailure>)
    requires
        is_graph(units@),
        are_units(units@, roots@),
    ensures
        match (candidates, walked_all(units@, roots@, no_walk(units@), units@.len())) {
            (Ok(candidates), Some(walk)) => candidates@ == walk.found,
            (Err(_), None) => true,
            _ => false,
        },
{
    let mut visited = clear_flags(units.len());
    let mut found: Vec<usize> = Vec::new();
    let mut index: usize = 0;
    proof {
        assert(roots@.take(0) =~= Seq::empty());
        assert(Walk { visited: visited@, found: found@ } =~= no_walk(units@));
    }
    while index < roots.len()
        invariant
            is_graph(units@),
            are_units(units@, roots@),
            index <= roots@.len(),
            visited@.len() == units@.len(),
            walked_all(units@, roots@.take(index as int), no_walk(units@), units@.len()) == Some(
                (Walk { visited: visited@, found: found@ }),
            ),
        decreases roots@.len() - index,
    {
        proof {
            assert(roots@.take(index + 1).drop_last() =~= roots@.take(index as int));
            assert(roots@.take(index + 1).last() == roots@[index as int]);
        }
        match walk_unit(units, roots[index], &mut visited, &mut found, units.len()) {
            Ok(_) => {},
            Err(error) => {
                proof {
                    lemma_walk_fails(
                        units@,
                        roots@,
                        no_walk(units@),
                        units@.len(),
                        index + 1,
                    );
                }
                return Err(error);
            },
        }
        index = index + 1;
    }
    proof {
        assert(roots@.take(index as int) =~= roots@);
    }
    Ok(found)
}

/// What became of a unit.
#[derive(Clone, Copy, Debug, PartialEq, Eq, Structural)]
pub enum PreflightOutcome {
    /// The executor wants it rebuilt.
    Forced,
    /// A unit that it depends on is not in place.
    Blocked,
    /// Its outputs were fresh already.
    AlreadyFresh,
    /// Its outputs cannot come from the cache.
    NotCandidate,
    /// Its invocation cannot come from the cache.
    NoAction,
    /// The cache has no entry that can be used.
    Miss,
    /// Its outputs were restored, and are fresh.
    Restored,
    /// Its outputs were restored, but are not fresh.
    NotCommitted,
}

/// What scheduling learns of a unit.
#[derive(Clone, Copy, Debug, PartialEq, Eq, Structural)]
pub enum PreflightState {
    /// The cache was asked, and had nothing.
    Miss,
    /// The cache is not to be asked.
    Bypassed,
}

impl PreflightOutcome {
    /// Whether the outputs of the unit are in place.
    pub open spec fn in_place(self) -> bool {
        self == PreflightOutcome::AlreadyFresh || self == PreflightOutcome::Restored
    }

    /// Whether the outputs of the unit are in place.
    pub fn is_in_place(self) -> (in_place: bool)
        ensures
            in_place == self.in_place(),
    {
        match self {
            PreflightOutcome::AlreadyFresh | PreflightOutcome::Restored => true,
            _ => false,
        }
    }

    /// What scheduling learns of the unit.
    pub fn state(self) -> (state: Option<PreflightState>)
        ensures
            state == match self {
                PreflightOutcome::Forced | PreflightOutcome::NoAction => Some(
                    PreflightState::Bypassed,
                ),
                PreflightOutcome::Miss | PreflightOutcome::NotCommitted => Some(
                    PreflightState::Miss,
                ),
                _ => None,
            },
    {
        match self {
            PreflightOutcome::Forced | PreflightOutcome::NoAction => Some(PreflightState::Bypassed),
            PreflightOutcome::Miss | PreflightOutcome::NotCommitted => Some(PreflightState::Miss),
            _ => None,
        }
    }

    /// Counts what became of the unit.
    pub fn record(self, stats: &mut ArtifactCacheStats)
        ensures
            *final(stats) == (ArtifactCacheStats {
                preflight_attempted: counted(
                    old(stats).preflight_attempted,
                    if self.attempted() {
                        1
                    } else {
                        0
                    },
                ),
                preflight_already_fresh: counted(
                    old(stats).preflight_already_fresh,
                    if self == PreflightOutcome::AlreadyFresh {
                        1
                    } else {
                        0
                    },
                ),
                preflight_blocked_by_dependency: counted(
                    old(stats).preflight_blocked_by_dependency,
                    if self == PreflightOutcome::Blocked {
                        1
                    } else {
                        0
                    },
                ),
                preflight_finalized: counted(
                    old(stats).preflight_finalized,
                    if self == PreflightOutcome::Restored {
                        1
                    } else {
                        0
                    },
                ),
                preflight_bypassed: counted(
                    old(stats).preflight_bypassed,
                    if self.bypassed() {
                        1
                    } else {
                        0
                    },
                ),
                ..*old(stats)
            }),
    {
        match self {
            PreflightOutcome::Forced => {
                stats.preflight_bypassed();
            },
            PreflightOutcome::Blocked => {
                stats.preflight_blocked_by_dependency();
            },
            PreflightOutcome::AlreadyFresh => {
                stats.preflight_already_fresh();
            },
            PreflightOutcome::NotCandidate => {},
            PreflightOutcome::NoAction => {
                stats.preflight_attempted();
                stats.preflight_bypassed();
            },
            PreflightOutcome::Miss => {
                stats.preflight_attempted();
            },
            PreflightOutcome::Restored => {
                stats.preflight_attempted();
                stats.preflight_finalized();
            },
            PreflightOutcome::NotCommitted => {
                stats.preflight_attempted();
                stats.preflight_bypassed();
            },
        }
    }

    /// Whether an attempt to restore the unit was made.
    pub open spec fn attempted(self) -> bool {
        match self {
            PreflightOutcome::NoAction | PreflightOutcome::Miss | PreflightOutcome::Restored
            | PreflightOutcome::NotCommitted => true,
            _ => false,
        }
    }

    /// Whether the cache was passed by.
    pub open spec fn bypassed(self) -> bool {
        match self {
            PreflightOutcome::Forced | PreflightOutcome::NoAction
            | PreflightOutcome::NotCommitted => true,
            _ => false,
        }
    }
}

/// What becomes of a unit, given whether the units that it depends on are in
/// place.
pub open spec fn settled(unit: PreflightUnit, ready: bool) -> Option<PreflightOutcome> {
    if unit.mode != CompileMode::RunCustomBuild && unit.mode != CompileMode::Doctest
        && unit.force_rebuild {
        Some(PreflightOutcome::Forced)
    } else if !ready {
        Some(PreflightOutcome::Blocked)
    } else if unit.mode != CompileMode::Doctest && unit.fresh is None {
        None
    } else if unit.mode != CompileMode::Doctest && unit.fresh == Some(true) {
        Some(PreflightOutcome::AlreadyFresh)
    } else {
        match is_candidate(unit) {
            Err(_) => None,
            Ok(false) => Some(PreflightOutcome::NotCandidate),
            Ok(true) => match unit.restore {
                RestoreOutcome::Failed => None,
                RestoreOutcome::NoAction => Some(PreflightOutcome::NoAction),
                RestoreOutcome::Miss => Some(PreflightOutcome::Miss),
                RestoreOutcome::Committed => Some(PreflightOutcome::Restored),
                RestoreOutcome::NotCommitted => Some(PreflightOutcome::NotCommitted),
            },
        }
    }
}

/// What becomes of a unit.
pub fn artifact_cache_freshness_preflight_unit(unit: &PreflightUnit, ready: bool) -> (outcome: Option<PreflightOutcome>)
    ensures
        outcome == settled(*unit, ready),
{
    let doctest = match unit.mode {
        CompileMode::Doctest => true,
        _ => false,
    };
    let script = match unit.mode {
        CompileMode::RunCustomBuild => true,
        _ => false,
    };
    if !script && !doctest && unit.force_rebuild {
        return Some(PreflightOutcome::Forced);
    }
    if !ready {
        return Some(PreflightOutcome::Blocked);
    }
    if !doctest {
        match unit.fresh {
            None => {
                return None;
            },
            Some(fresh) => {
                if fresh {
                    return Some(PreflightOutcome::AlreadyFresh);
                }
            },
        }
    }
    match artifact_cache_freshness_preflight_candidate(unit) {
        Err(_) => None,
        Ok(false) => Some(PreflightOutcome::NotCandidate),
        Ok(true) => match unit.restore {
            RestoreOutcome::Failed => None,
            RestoreOutcome::NoAction => Some(PreflightOutcome::NoAction),
            RestoreOutcome::Miss => Some(PreflightOutcome::Miss),
            RestoreOutcome::Committed => Some(PreflightOutcome::Restored),
            RestoreOutcome::NotCommitted => Some(PreflightOutcome::NotCommitted),
        },
    }
}

/// How far restoring has come.
#[verifier::ext_equal]
pub struct Restoring {
    /// The units that were entered.
    pub visited: Seq<bool>,
    /// What became of them.
    pub outcomes: Seq<Option<PreflightOutcome>>,
}

/// Whether the outputs of a unit are in place.
pub open spec fn in_place(outcomes: Seq<Option<PreflightOutcome>>, unit: int) -> bool {
    outcomes[unit] is Some && outcomes[unit]->Some_0.in_place()
}

/// Whether a dependency counts: programs do not, unless they are artifacts.
pub open spec fn counts(unit: PreflightUnit) -> bool {
    !unit.is_bin || unit.is_artifact
}

/// A unit whose outcome could not be told, because something of it is not known.
#[derive(Clone, Copy, Debug, PartialEq, Eq, Structural)]
pub struct Unsettled {
    pub unit: usize,
}

/// Restoring a unit: its dependencies first, then the unit itself, where it was
/// not entered before. Tells whether its outputs are in place.
pub open spec fn restored(
    units: Seq<PreflightUnit>,
    unit: usize,
    state: Restoring,
    depth: nat,
) -> Result<(Restoring, bool), Unsettled>
    decreases depth, 0nat,
{
    if depth == 0 {
        Ok((state, false))
    } else if state.visited[unit as int] {
        Ok((state, in_place(state.outcomes, unit as int)))
    } else {
        let entered = Restoring { visited: state.visited.update(unit as int, true), ..state };
        match restored_all(
            units,
            units[unit as int].dependencies@,
            entered,
            (depth - 1) as nat,
        ) {
            Err(unsettled) => Err(unsettled),
            Ok((below, ready)) => match settled(units[unit as int], ready) {
                None => Err(Unsettled { unit }),
                Some(outcome) => Ok(
                    (
                        Restoring {
                            outcomes: below.outcomes.update(unit as int, Some(outcome)),
                            ..below
                        },
                        outcome.in_place(),
                    ),
                ),
            },
        }
    }
}

/// Restoring the units of a list that count. Tells whether the outputs of all of
/// them are in place.
pub open spec fn restored_all(
    units: Seq<PreflightUnit>,
    list: Seq<usize>,
    state: Restoring,
    depth: nat,
) -> Result<(Restoring, bool), Unsettled>
    decreases depth, list.len(),
{
    if list.len() == 0 {
        Ok((state, true))
    } else {
        match restored_all(units, list.drop_last(), state, depth) {
            Err(unsettled) => Err(unsettled),
            Ok((before, ready)) => if !counts(units[list.last() as int]) {
                Ok((before, ready))
            } else {
                match restored(units, list.last(), before, depth) {
                    Err(unsettled) => Err(unsettled),
                    Ok((after, in_place)) => Ok((after, ready && in_place)),
                }
            },
        }
    }
}

/// What fails among the first units fails.
proof fn lemma_restoring_fails(
    units: Seq<PreflightUnit>,
    list: Seq<usize>,
    state: Restoring,
    depth: nat,
    count: int,
)
    requires
        0 <= count <= list.len(),
        restored_all(units, list.take(count), state, depth) is Err,
    ensures
        restored_all(units, list, state, depth) == restored_all(
            units,
            list.take(count),
            state,
            depth,
        ),
    decreases list.len() - count,
{
    if count < list.len() {
        assert(list.take(count + 1).drop_last() =~= list.take(count));
        lemma_restoring_fails(units, list, state, depth, count + 1);
    } else {
        assert(list.take(count) =~= list);
    }
}

/// Restores a unit.
fn restore_unit(
    units: &Vec<PreflightUnit>,
    unit: usize,
    visited: &mut Vec<bool>,
    outcomes: &mut Vec<Option<PreflightOutcome>>,
    depth: usize,
) -> (result: Result<bool, Unsettled>)
    requires
        is_graph(units@),
        unit < units@.len(),
        old(visited)@.len() == units@.len(),
        old(outcomes)@.len() == units@.len(),
    ensures
        final(visited)@.len() == units@.len(),
        final(outcomes)@.len() == units@.len(),
        match result {
            Ok(placed) => restored(
                units@,
                unit,
                (Restoring { visited: old(visited)@, outcomes: old(outcomes)@ }),
                depth as nat,
            ) == Ok::<(Restoring, bool), Unsettled>(
                ((Restoring { visited: final(visited)@, outcomes: final(outcomes)@ }), placed),
            ),
            Err(unsettled) => restored(
                units@,
                unit,
                (Restoring { visited: old(visited)@, outcomes: old(outcomes)@ }),
                depth as nat,
            ) == Err::<(Restoring, bool), Unsettled>(unsettled),
        },
    decreases depth,
{
    if depth == 0 {
        return Ok(false);
    }
    if visited[unit] {
        return match outcomes[unit] {
            Some(outcome) => Ok(outcome.is_in_place()),
            None => Ok(false),
        };
    }
    visited.set(unit, true);
    let ghost entered = Restoring { visited: visited@, outcomes: outcomes@ };
    let ghost all = units@[unit as int].dependencies@;
    let ghost whole = restored(
        units@,
        unit,
        Restoring { visited: old(visited)@, outcomes: old(outcomes)@ },
        depth as nat,
    );
    let mut ready = true;
    let mut index: usize = 0;
    proof {
        assert(all.take(0) =~= Seq::empty());
    }
    while index < units[unit].dependencies.len()
        invariant
            is_graph(units@),
            unit < units@.len(),
            depth > 0,
            all == units@[unit as int].dependencies@,
            index <= all.len(),
            visited@.len() == units@.len(),
            outcomes@.len() == units@.len(),
            restored_all(units@, all.take(index as int), entered, (depth - 1) as nat) == Ok::<
                (Restoring, bool),
                Unsettled,
            >(
                ((Restoring { visited: visited@, outcomes: outcomes@ }), ready),
            ),
            match restored_all(units@, all, entered, (depth - 1) as nat) {
                Err(unsettled) => whole == Err::<(Restoring, bool), Unsettled>(unsettled),
                Ok(_) => true,
            },
            whole == restored(
                units@,
                unit,
                (Restoring { visited: old(visited)@, outcomes: old(outcomes)@ }),
                depth as nat,
            ),
        decreases all.len() - index,
    {
        proof {
            assert(all.take(index + 1).drop_last() =~= all.take(index as int));
            assert(all.take(index + 1).last() == all[index as int]);
        }
        let dependency: usize = units[unit].dependencies[index];
        if !units[dependency].is_bin || units[dependency].is_artifact {
            match restore_unit(units, dependency, visited, outcomes, depth - 1) {
                Ok(placed) => {
                    ready = ready && placed;
                },
                Err(error) => {
                    proof {
                        lemma_restoring_fails(units@, all, entered, (depth - 1) as nat, index + 1);
                    }
                    return Err(error);
                },
            }
        }
        index = index + 1;
    }
    proof {
        assert(all.take(index as int) =~= all);
    }
    match artifact_cache_freshness_preflight_unit(&units[unit], ready) {
        None => Err(Unsettled { unit }),
        Some(outcome) => {
            outcomes.set(unit, Some(outcome));
            Ok(outcome.is_in_place())
        },
    }
}

/// Restoring that has entered nothing.
pub open spec fn no_restoring(units: Seq<PreflightUnit>) -> Restoring {
    Restoring {
        visited: Seq::new(units.len(), |i: int| false),
        outcomes: Seq::new(units.len(), |i: int| None),
    }
}

/// Restoring candidates in order, whatever became of those before.
pub open spec fn restored_candidates(
    units: Seq<PreflightUnit>,
    candidates: Seq<usize>,
) -> Result<Restoring, Unsettled>
    decreases candidates.len(),
{
    if candidates.len() == 0 {
        Ok(no_restoring(units))
    } else {
        match restored_candidates(units, candidates.drop_last()) {
            Err(unsettled) => Err(unsettled),
            Ok(state) => match restored(units, candidates.last(), state, units.len()) {
                Err(unsettled) => Err(unsettled),
                Ok((after, _)) => Ok(after),
            },
        }
    }
}

/// What fails among the first candidates fails.
proof fn lemma_candidates_fail(units: Seq<PreflightUnit>, candidates: Seq<usize>, count: int)
    requires
        0 <= count <= candidates.len(),
        restored_candidates(units, candidates.take(count)) is Err,
    ensures
        restored_candidates(units, candidates) == restored_candidates(
            units,
            candidates.take(count),
        ),
    decreases candidates.len() - count,
{
    if count < candidates.len() {
        assert(candidates.take(count + 1).drop_last() =~= candidates.take(count));
        lemma_candidates_fail(units, candidates, count + 1);
    } else {
        assert(candidates.take(count) =~= candidates);
    }
}

/// No outcome for any unit.
fn no_outcomes(count: usize) -> (outcomes: Vec<Option<PreflightOutcome>>)
    ensures
        outcomes@ == Seq::new(count as nat, |i: int| None::<PreflightOutcome>),
{
    let mut outcomes: Vec<Option<PreflightOutcome>> = Vec::new();
    let mut index: usize = 0;
    while index < count
        invariant
            index <= count,
            outcomes@ =~= Seq::new(index as nat, |i: int| None::<PreflightOutcome>),
        decreases count - index,
    {
        outcomes.push(None);
        index = index + 1;
    }
    outcomes
}

/// What becomes of the units that candidates lead to, taken in order, or the
/// first of them whose outcome could not be told.
pub fn artifact_cache_freshness_preflight(
    units: &Vec<PreflightUnit>,
    candidates: &Vec<usize>,
) -> (outcomes: Result<Vec<Option<PreflightOutcome>>, Unsettled>)
    requires
        is_graph(units@),
        are_units(units@, candidates@),
    ensures
        match (outcomes, restored_candidates(units@, candidates@)) {
            (Ok(outcomes), Ok(state)) => outcomes@ == state.outcomes,
            (Err(unsettled), Err(expected)) => unsettled == expected,
            _ => false,
        },
{
    let mut visited = clear_flags(units.len());
    let mut outcomes = no_outcomes(units.len());
    let mut index: usize = 0;
    proof {
        assert(candidates@.take(0) =~= Seq::empty());
        assert(Restoring { visited: visited@, outcomes: outcomes@ } =~= no_restoring(units@));
    }
    while index < candidates.len()
        invariant
            is_graph(units@),
            are_units(units@, candidates@),
            index <= candidates@.len(),
            visited@.len() == units@.len(),
            outcomes@.len() == units@.len(),
            restored_candidates(units@, candidates@.take(index as int)) == Ok::<
                Restoring,
                Unsettled,
            >(
                (Restoring { visited: visited@, outcomes: outcomes@ }),
            ),
        decreases candidates@.len() - index,
    {
        proof {
            assert(candidates@.take(index + 1).drop_last() =~= candidates@.take(index as int));
            assert(candidates@.take(index + 1).last() == candidates@[index as int]);
        }
        match restore_unit(units, candidates[index], &mut visited, &mut outcomes, units.len()) {
            Ok(_) => {},
            Err(error) => {
                proof {
                    lemma_candidates_fail(units@, candidates@, index + 1);
                }
                return Err(error);
            },
        }
        index = index + 1;
    }
    proof {
        assert(candidates@.take(index as int) =~= candidates@);
    }
    Ok(outcomes)
}

/// How many flags are clear.
pub open spec fn clear_count(flags: Seq<bool>) -> nat
    decreases flags.len(),
{
    if flags.len() == 0 {
        0
    } else {
        clear_count(flags.drop_last()) + if flags.last() {
            0nat
        } else {
            1
        }
    }
}

/// Setting a clear flag leaves one less.
pub proof fn lemma_clear_count_update(flags: Seq<bool>, at: int)
    requires
        0 <= at < flags.len(),
        !flags[at],
    ensures
        clear_count(flags.update(at, true)) + 1 == clear_count(flags),
    decreases flags.len(),
{
    let after = flags.update(at, true);
    if at == flags.len() - 1 {
        assert(after.drop_last() =~= flags.drop_last());
    } else {
        lemma_clear_count_update(flags.drop_last(), at);
        assert(after.drop_last() =~= flags.drop_last().update(at, true));
    }
}

/// All flags are clear.
pub proof fn lemma_clear_count_all(count: nat)
    ensures
        clear_count(Seq::new(count, |i: int| false)) == count,
    decreases count,
{
    let flags = Seq::new(count, |i: int| false);
    if count > 0 {
        lemma_clear_count_all((count - 1) as nat);
        assert(flags.drop_last() =~= Seq::new((count - 1) as nat, |i: int| false));
    }
}

/// Whether `to` can be reached from `from` in so many steps from a unit to one
/// that it depends on.
pub open spec fn leads(units: Seq<PreflightUnit>, from: int, to: int, steps: nat) -> bool
    decreases steps,
{
    if steps == 0 {
        from == to
    } else {
        exists|i: int|
            0 <= i < units[from].dependencies@.len() && leads(
                units,
                (#[trigger] units[from].dependencies@[i]) as int,
                to,
                (steps - 1) as nat,
            )
    }
}

/// Whether one of `list` leads to a unit.
pub open spec fn any_leads(units: Seq<PreflightUnit>, list: Seq<usize>, to: int) -> bool {
    exists|i: int, steps: nat|
        0 <= i < list.len() && #[trigger] leads(units, list[i] as int, to, steps)
}

/// Whether a unit was entered between two walks.
pub open spec fn is_new(before: Walk, after: Walk, unit: int) -> bool {
    !before.visited[unit] && after.visited[unit]
}

/// What a walk did.
pub open spec fn extends_walk(units: Seq<PreflightUnit>, before: Walk, after: Walk) -> bool {
    &&& after.visited.len() == units.len()
    &&& clear_count(after.visited) <= clear_count(before.visited)
    &&& forall|u: int| 0 <= u < units.len() && before.visited[u] ==> #[trigger] after.visited[u]
    &&& forall|u: int, i: int|
        0 <= u < units.len() && is_new(before, after, u) && 0 <= i
            < units[u].dependencies@.len() ==> after.visited[(
        #[trigger] units[u].dependencies@[i]) as int]
    &&& after.found.no_duplicates()
    &&& forall|u: usize|
        #[trigger] after.found.contains(u) <==> before.found.contains(u) || (u < units.len()
            && is_new(before, after, u as int) && is_candidate(units[u as int]) == Ok::<
            bool,
            PreflightFailure,
        >(true))
}

/// A walk is in order: what it found it has entered.
pub open spec fn is_walk(units: Seq<PreflightUnit>, walk: Walk) -> bool {
    &&& walk.visited.len() == units.len()
    &&& walk.found.no_duplicates()
    &&& forall|u: usize|
        #[trigger] walk.found.contains(u) ==> u < units.len() && walk.visited[u as int]
}

/// Nothing new keeps a walk in order.
proof fn lemma_walk_stays(units: Seq<PreflightUnit>, walk: Walk)
    requires
        is_walk(units, walk),
    ensures
        extends_walk(units, walk, walk),
{
}

/// Two walks one after the other.
proof fn lemma_walks_compose(
    units: Seq<PreflightUnit>,
    first: Walk,
    second: Walk,
    third: Walk,
)
    requires
        is_graph(units),
        is_walk(units, first),
        extends_walk(units, first, second),
        extends_walk(units, second, third),
    ensures
        extends_walk(units, first, third),
        is_walk(units, second),
{
    assert forall|u: int, i: int|
        0 <= u < units.len() && is_new(first, third, u) && 0 <= i
            < units[u].dependencies@.len() implies third.visited[(
    #[trigger] units[u].dependencies@[i]) as int] by {
        let d = units[u].dependencies@[i] as int;
        if second.visited[u] {
            assert(is_new(first, second, u));
            assert(second.visited[d]);
        } else {
            assert(is_new(second, third, u));
        }
    }
    assert forall|u: usize| #[trigger] third.found.contains(u) <==> first.found.contains(u) || (u
        < units.len() && is_new(first, third, u as int) && is_candidate(units[u as int]) == Ok::<
        bool,
        PreflightFailure,
    >(true)) by {
        assert(third.found.contains(u) <==> second.found.contains(u) || (u < units.len() && is_new(
            second,
            third,
            u as int,
        ) && is_candidate(units[u as int]) == Ok::<bool, PreflightFailure>(true)));
        assert(second.found.contains(u) <==> first.found.contains(u) || (u < units.len() && is_new(
            first,
            second,
            u as int,
        ) && is_candidate(units[u as int]) == Ok::<bool, PreflightFailure>(true)));
        if u < units.len() {
            if second.visited[u as int] {
                assert(third.visited[u as int]);
            }
        }
    }
    assert forall|u: usize| #[trigger] second.found.contains(u) implies u < units.len()
        && second.visited[u as int] by {
        if first.found.contains(u) {
            assert(first.visited[u as int]);
        }
    }
}

/// What entering a unit does.
proof fn lemma_walked(units: Seq<PreflightUnit>, unit: usize, walk: Walk, depth: nat)
    requires
        is_graph(units),
        unit < units.len(),
        is_walk(units, walk),
        clear_count(walk.visited) <= depth,
        walked(units, unit, walk, depth) is Some,
    ensures
        extends_walk(units, walk, walked(units, unit, walk, depth)->Some_0),
        walked(units, unit, walk, depth)->Some_0.visited[unit as int],
    decreases depth, 0nat,
{
    if walk.visited[unit as int] {
        lemma_walk_stays(units, walk);
    } else {
        lemma_clear_count_update(walk.visited, unit as int);
        let entered = Walk { visited: walk.visited.update(unit as int, true), ..walk };
        let list = units[unit as int].dependencies@;
        assert(are_units(units, list));
        lemma_walked_all(units, list, entered, (depth - 1) as nat);
        let below = walked_all(units, list, entered, (depth - 1) as nat)->Some_0;
        let after = walked(units, unit, walk, depth)->Some_0;
        assert(after.visited == below.visited);
        assert(entered.visited[unit as int]);
        assert(!below.found.contains(unit)) by {
            if below.found.contains(unit) {
                if walk.found.contains(unit) {
                    assert(walk.visited[unit as int]);
                }
            }
        }
        assert forall|u: int, i: int|
            0 <= u < units.len() && is_new(walk, after, u) && 0 <= i
                < units[u].dependencies@.len() implies after.visited[(
        #[trigger] units[u].dependencies@[i]) as int] by {
            if u != unit {
                assert(is_new(entered, below, u));
            } else {
                assert(list[i] == units[u].dependencies@[i]);
                assert(below.visited[list[i] as int]);
            }
        }
        assert forall|u: int| 0 <= u < units.len() && walk.visited[u] implies
            #[trigger] after.visited[u] by {
            assert(entered.visited[u]);
        }
        assert forall|u: usize| #[trigger] after.found.contains(u) <==> walk.found.contains(u) || (u
            < units.len() && is_new(walk, after, u as int) && is_candidate(units[u as int]) == Ok::<
            bool,
            PreflightFailure,
        >(true)) by {
            crate::recorder::lemma_contains_push(below.found, unit, u);
            assert(below.found.contains(u) <==> entered.found.contains(u) || (u < units.len()
                && is_new(entered, below, u as int) && is_candidate(units[u as int]) == Ok::<
                bool,
                PreflightFailure,
            >(true)));
            if u != unit && u < units.len() {
                assert(entered.visited[u as int] == walk.visited[u as int]);
            }
        }
        if is_candidate(units[unit as int]) == Ok::<bool, PreflightFailure>(true) {
            assert(after.found == below.found.push(unit));
            assert forall|i: int, j: int|
                0 <= i < after.found.len() && 0 <= j < after.found.len() && i
                    != j implies after.found[i] != after.found[j] by {
                if i == below.found.len() {
                    assert(below.found.contains(below.found[j]));
                } else if j == below.found.len() {
                    assert(below.found.contains(below.found[i]));
                }
            }
        }
    }
}

/// What entering units in order does.
proof fn lemma_walked_all(
    units: Seq<PreflightUnit>,
    list: Seq<usize>,
    walk: Walk,
    depth: nat,
)
    requires
        is_graph(units),
        are_units(units, list),
        is_walk(units, walk),
        clear_count(walk.visited) <= depth,
        walked_all(units, list, walk, depth) is Some,
    ensures
        extends_walk(units, walk, walked_all(units, list, walk, depth)->Some_0),
        forall|i: int|
            0 <= i < list.len() ==> walked_all(units, list, walk, depth)->Some_0.visited[(
            #[trigger] list[i]) as int],
    decreases depth, list.len(),
{
    if list.len() == 0 {
        lemma_walk_stays(units, walk);
    } else {
        let front = list.drop_last();
        assert forall|i: int| 0 <= i < front.len() implies #[trigger] front[i] < units.len() by {
            assert(front[i] == list[i]);
        }
        lemma_walked_all(units, front, walk, depth);
        let before = walked_all(units, front, walk, depth)->Some_0;
        let after = walked_all(units, list, walk, depth)->Some_0;
        assert(list.last() == list[list.len() - 1]);
        assert(list.last() < units.len());
        assert(is_walk(units, before)) by {
            assert forall|u: usize| #[trigger] before.found.contains(u) implies u < units.len()
                && before.visited[u as int] by {
                if walk.found.contains(u) {
                    assert(walk.visited[u as int]);
                }
            }
        }
        lemma_walked(units, list.last(), before, depth);
        lemma_walks_compose(units, walk, before, after);
        assert forall|i: int| 0 <= i < list.len() implies after.visited[(
        #[trigger] list[i]) as int] by {
            if i < front.len() {
                assert(front[i] == list[i]);
                assert(before.visited[list[i] as int]);
            }
        }
    }
}

/// What a walk enters, the unit leads to.
proof fn lemma_walk_leads(units: Seq<PreflightUnit>, unit: usize, walk: Walk, depth: nat)
    requires
        is_graph(units),
        unit < units.len(),
        walk.visited.len() == units.len(),
        walked(units, unit, walk, depth) is Some,
    ensures
        walked(units, unit, walk, depth)->Some_0.visited.len() == units.len(),
        forall|u: int|
            0 <= u < units.len() && #[trigger] is_new(
                walk,
                walked(units, unit, walk, depth)->Some_0,
                u,
            ) ==> exists|steps: nat| #[trigger] leads(units, unit as int, u, steps),
    decreases depth, 0nat,
{
    if depth > 0 && !walk.visited[unit as int] {
        let entered = Walk { visited: walk.visited.update(unit as int, true), ..walk };
        let list = units[unit as int].dependencies@;
        assert(are_units(units, list));
        lemma_walk_all_leads(units, list, entered, (depth - 1) as nat);
        let below = walked_all(units, list, entered, (depth - 1) as nat)->Some_0;
        let after = walked(units, unit, walk, depth)->Some_0;
        assert forall|u: int| 0 <= u < units.len() && #[trigger] is_new(
            walk,
            after,
            u,
        ) implies exists|steps: nat| #[trigger] leads(units, unit as int, u, steps) by {
            if u == unit {
                assert(leads(units, unit as int, u, 0));
            } else {
                assert(is_new(entered, below, u));
                let (i, steps) = choose|i: int, steps: nat|
                    0 <= i < list.len() && #[trigger] leads(units, list[i] as int, u, steps);
                assert(units[unit as int].dependencies@[i] == list[i]);
                assert(leads(units, unit as int, u, steps + 1));
            }
        }
    }
}

/// What a walk enters, one of the units leads to.
proof fn lemma_walk_all_leads(
    units: Seq<PreflightUnit>,
    list: Seq<usize>,
    walk: Walk,
    depth: nat,
)
    requires
        is_graph(units),
        are_units(units, list),
        walk.visited.len() == units.len(),
        walked_all(units, list, walk, depth) is Some,
    ensures
        walked_all(units, list, walk, depth)->Some_0.visited.len() == units.len(),
        forall|u: int|
            0 <= u < units.len() && #[trigger] is_new(
                walk,
                walked_all(units, list, walk, depth)->Some_0,
                u,
            ) ==> any_leads(units, list, u),
    decreases depth, list.len(),
{
    if list.len() > 0 {
        let front = list.drop_last();
        assert forall|i: int| 0 <= i < front.len() implies #[trigger] front[i] < units.len() by {
            assert(front[i] == list[i]);
        }
        lemma_walk_all_leads(units, front, walk, depth);
        let before = walked_all(units, front, walk, depth)->Some_0;
        let after = walked_all(units, list, walk, depth)->Some_0;
        assert(list.last() == list[list.len() - 1]);
        lemma_walk_leads(units, list.last(), before, depth);
        assert forall|u: int| 0 <= u < units.len() && #[trigger] is_new(
            walk,
            after,
            u,
        ) implies any_leads(units, list, u) by {
            if before.visited[u] {
                assert(is_new(walk, before, u));
                let (i, steps) = choose|i: int, steps: nat|
                    0 <= i < front.len() && #[trigger] leads(units, front[i] as int, u, steps);
                assert(leads(units, list[i] as int, u, steps));
            } else {
                assert(is_new(before, after, u));
                let steps = choose|steps: nat| #[trigger]
                    leads(units, list.last() as int, u, steps);
                assert(leads(units, list[list.len() - 1] as int, u, steps));
            }
        }
    }
}

/// A set of units that holds what its units depend on holds what they lead to.
proof fn lemma_closed_under_leads(
    units: Seq<PreflightUnit>,
    visited: Seq<bool>,
    from: int,
    to: int,
    steps: nat,
)
    requires
        is_graph(units),
        visited.len() == units.len(),
        forall|u: int, i: int|
            0 <= u < units.len() && visited[u] && 0 <= i < units[u].dependencies@.len()
                ==> visited[(#[trigger] units[u].dependencies@[i]) as int],
        0 <= from < units.len(),
        visited[from],
        leads(units, from, to, steps),
    ensures
        0 <= to < units.len(),
        visited[to],
    decreases steps,
{
    if steps > 0 {
        let i = choose|i: int|
            0 <= i < units[from].dependencies@.len() && leads(
                units,
                (#[trigger] units[from].dependencies@[i]) as int,
                to,
                (steps - 1) as nat,
            );
        let next = units[from].dependencies@[i] as int;
        assert(visited[units[from].dependencies@[i] as int]);
        lemma_closed_under_leads(units, visited, next, to, (steps - 1) as nat);
    }
}

/// The candidates are those that the roots lead to, each once.
pub proof fn law_candidates_are_reachable(units: Seq<PreflightUnit>, roots: Seq<usize>)
    requires
        is_graph(units),
        are_units(units, roots),
        walked_all(units, roots, no_walk(units), units.len()) is Some,
    ensures
        ({
            let found = walked_all(units, roots, no_walk(units), units.len())->Some_0.found;
            &&& found.no_duplicates()
            &&& forall|u: usize|
                #[trigger] found.contains(u) <==> u < units.len() && is_candidate(units[u as int])
                    == Ok::<bool, PreflightFailure>(true) && any_leads(units, roots, u as int)
        }),
{
    let start = no_walk(units);
    lemma_clear_count_all(units.len());
    assert(start.visited =~= Seq::new(units.len(), |i: int| false));
    assert(is_walk(units, start));
    lemma_walked_all(units, roots, start, units.len());
    lemma_walk_all_leads(units, roots, start, units.len());
    let end = walked_all(units, roots, start, units.len())->Some_0;
    assert forall|u: int, i: int|
        0 <= u < units.len() && end.visited[u] && 0 <= i
            < units[u].dependencies@.len() implies end.visited[(
    #[trigger] units[u].dependencies@[i]) as int] by {
        assert(is_new(start, end, u));
    }
    assert forall|u: usize| #[trigger] end.found.contains(u) <==> u < units.len() && is_candidate(
        units[u as int],
    ) == Ok::<bool, PreflightFailure>(true) && any_leads(units, roots, u as int) by {
        assert(end.found.contains(u) <==> start.found.contains(u) || (u < units.len() && is_new(
            start,
            end,
            u as int,
        ) && is_candidate(units[u as int]) == Ok::<bool, PreflightFailure>(true)));
        if u < units.len() {
            if any_leads(units, roots, u as int) {
                let (i, steps) = choose|i: int, steps: nat|
                    0 <= i < roots.len() && #[trigger] leads(units, roots[i] as int, u as int, steps);
                assert(end.visited[roots[i] as int]);
                lemma_closed_under_leads(units, end.visited, roots[i] as int, u as int, steps);
            } else if end.visited[u as int] {
                assert(is_new(start, end, u as int));
            }
        }
    }
}

/// Whether ranks fall from every unit to those that it depends on: no unit
/// depends on itself, directly or not.
pub open spec fn is_ranked(units: Seq<PreflightUnit>, rank: Seq<nat>) -> bool {
    &&& rank.len() == units.len()
    &&& forall|u: int, i: int|
        0 <= u < units.len() && 0 <= i < units[u].dependencies@.len() ==> rank[(
        #[trigger] units[u].dependencies@[i]) as int] < rank[u]
}

/// Whether every candidate that was found stands behind those that it depends
/// on.
pub open spec fn in_dependency_order(units: Seq<PreflightUnit>, found: Seq<usize>) -> bool {
    forall|k: int, i: int|
        0 <= k < found.len() && 0 <= i < units[found[k] as int].dependencies@.len()
            && is_candidate(
            units[(#[trigger] units[found[k] as int].dependencies@[i]) as int],
        ) == Ok::<bool, PreflightFailure>(true) ==> found.take(k).contains(
            units[found[k] as int].dependencies@[i],
        )
}

/// Whether the candidates below a rank that were entered were also found.
pub open spec fn found_below(
    units: Seq<PreflightUnit>,
    rank: Seq<nat>,
    walk: Walk,
    bound: nat,
) -> bool {
    forall|u: int|
        0 <= u < units.len() && #[trigger] walk.visited[u] && rank[u] < bound && is_candidate(
            units[u],
        ) == Ok::<bool, PreflightFailure>(true) ==> walk.found.contains(u as usize)
}

/// Entering a unit below a rank keeps the order.
proof fn lemma_walk_order(
    units: Seq<PreflightUnit>,
    rank: Seq<nat>,
    unit: usize,
    walk: Walk,
    depth: nat,
    bound: nat,
)
    requires
        is_graph(units),
        is_ranked(units, rank),
        units.len() <= usize::MAX,
        unit < units.len(),
        rank[unit as int] < bound,
        is_walk(units, walk),
        clear_count(walk.visited) <= depth,
        in_dependency_order(units, walk.found),
        found_below(units, rank, walk, bound),
        walked(units, unit, walk, depth) is Some,
    ensures
        in_dependency_order(units, walked(units, unit, walk, depth)->Some_0.found),
        found_below(units, rank, walked(units, unit, walk, depth)->Some_0, bound),
    decreases depth, 0nat,
{
    if depth > 0 && !walk.visited[unit as int] {
        lemma_clear_count_update(walk.visited, unit as int);
        let entered = Walk { visited: walk.visited.update(unit as int, true), ..walk };
        let list = units[unit as int].dependencies@;
        assert(are_units(units, list));
        let inner = rank[unit as int];
        assert(found_below(units, rank, entered, inner)) by {
            assert forall|u: int|
                0 <= u < units.len() && #[trigger] entered.visited[u] && rank[u] < inner
                    && is_candidate(units[u]) == Ok::<bool, PreflightFailure>(
                    true,
                ) implies entered.found.contains(u as usize) by {
                assert(walk.visited[u]);
            }
        }
        assert forall|i: int| 0 <= i < list.len() implies rank[(#[trigger] list[i]) as int]
            < inner by {
            assert(units[unit as int].dependencies@[i] == list[i]);
        }
        lemma_walk_all_order(units, rank, list, entered, (depth - 1) as nat, inner);
        lemma_walked_all(units, list, entered, (depth - 1) as nat);
        let below = walked_all(units, list, entered, (depth - 1) as nat)->Some_0;
        let after = walked(units, unit, walk, depth)->Some_0;
        if is_candidate(units[unit as int]) == Ok::<bool, PreflightFailure>(true) {
            let found = after.found;
            assert(found == below.found.push(unit));
            assert forall|k: int, i: int|
                0 <= k < found.len() && 0 <= i < units[found[k] as int].dependencies@.len()
                    && is_candidate(
                    units[(#[trigger] units[found[k] as int].dependencies@[i]) as int],
                ) == Ok::<bool, PreflightFailure>(true) implies found.take(k).contains(
                units[found[k] as int].dependencies@[i],
            ) by {
                let d = units[found[k] as int].dependencies@[i];
                if k < below.found.len() {
                    assert(found[k] == below.found[k]);
                    assert(below.found.take(k).contains(
                        units[below.found[k] as int].dependencies@[i],
                    ));
                    assert(found.take(k) =~= below.found.take(k));
                } else {
                    assert(found[k] == unit);
                    assert(list[i] == d);
                    assert(below.visited[d as int]);
                    assert(rank[d as int] < inner);
                    assert(below.found.contains(d));
                    assert(found.take(k) =~= below.found);
                }
            }
        }
        assert forall|u: int|
            0 <= u < units.len() && #[trigger] after.visited[u] && rank[u] < bound && is_candidate(
                units[u],
            ) == Ok::<bool, PreflightFailure>(true) implies after.found.contains(u as usize) by {
            crate::recorder::lemma_contains_push(below.found, unit, u as usize);
            if u != unit {
                if walk.visited[u] {
                    assert(walk.found.contains(u as usize));
                    assert(entered.found.contains(u as usize));
                } else {
                    assert(is_new(entered, below, u));
                }
                assert(below.found.contains(u as usize));
            }
        }
    }
}

/// Entering units below a rank keeps the order.
proof fn lemma_walk_all_order(
    units: Seq<PreflightUnit>,
    rank: Seq<nat>,
    list: Seq<usize>,
    walk: Walk,
    depth: nat,
    bound: nat,
)
    requires
        is_graph(units),
        is_ranked(units, rank),
        units.len() <= usize::MAX,
        are_units(units, list),
        forall|i: int| 0 <= i < list.len() ==> rank[(#[trigger] list[i]) as int] < bound,
        is_walk(units, walk),
        clear_count(walk.visited) <= depth,
        in_dependency_order(units, walk.found),
        found_below(units, rank, walk, bound),
        walked_all(units, list, walk, depth) is Some,
    ensures
        in_dependency_order(units, walked_all(units, list, walk, depth)->Some_0.found),
        found_below(units, rank, walked_all(units, list, walk, depth)->Some_0, bound),
    decreases depth, list.len(),
{
    if list.len() > 0 {
        let front = list.drop_last();
        assert forall|i: int| 0 <= i < front.len() implies #[trigger] front[i] < units.len()
            && rank[front[i] as int] < bound by {
            assert(front[i] == list[i]);
        }
        lemma_walk_all_order(units, rank, front, walk, depth, bound);
        lemma_walked_all(units, front, walk, depth);
        let before = walked_all(units, front, walk, depth)->Some_0;
        assert(list.last() == list[list.len() - 1]);
        assert(is_walk(units, before)) by {
            assert forall|u: usize| #[trigger] before.found.contains(u) implies u < units.len()
                && before.visited[u as int] by {
                if walk.found.contains(u) {
                    assert(walk.visited[u as int]);
                }
            }
        }
        lemma_walk_order(units, rank, list.last(), before, depth, bound);
    }
}

/// Where no unit depends on itself, every candidate stands behind the
/// candidates that it depends on.
pub proof fn law_candidates_follow_their_dependencies(
    units: Seq<PreflightUnit>,
    roots: Seq<usize>,
    rank: Seq<nat>,
)
    requires
        is_graph(units),
        units.len() <= usize::MAX,
        are_units(units, roots),
        is_ranked(units, rank),
        walked_all(units, roots, no_walk(units), units.len()) is Some,
    ensures
        in_dependency_order(
            units,
            walked_all(units, roots, no_walk(units), units.len())->Some_0.found,
        ),
{
    let start = no_walk(units);
    lemma_clear_count_all(units.len());
    assert(start.visited =~= Seq::new(units.len(), |i: int| false));
    let bound = rank_bound(rank);
    lemma_rank_bound(rank);
    assert forall|i: int| 0 <= i < roots.len() implies rank[(#[trigger] roots[i]) as int]
        < bound by {}
    lemma_walk_all_order(units, rank, roots, start, units.len(), bound);
}

/// A number above all ranks.
spec fn rank_bound(rank: Seq<nat>) -> nat
    decreases rank.len(),
{
    if rank.len() == 0 {
        0
    } else {
        rank_bound(rank.drop_last()) + rank.last() + 1
    }
}

/// Ranks are below their bound.
proof fn lemma_rank_bound(rank: Seq<nat>)
    ensures
        forall|i: int| 0 <= i < rank.len() ==> #[trigger] rank[i] < rank_bound(rank),
    decreases rank.len(),
{
    if rank.len() > 0 {
        lemma_rank_bound(rank.drop_last());
        assert forall|i: int| 0 <= i < rank.len() implies #[trigger] rank[i] < rank_bound(rank) by {
            if i < rank.len() - 1 {
                assert(rank.drop_last()[i] == rank[i]);
            }
        }
    }
}

/// Whether every unit in place has its dependencies in place, as far as they
/// count, and was not to be rebuilt.
pub open spec fn is_closed(
    units: Seq<PreflightUnit>,
    outcomes: Seq<Option<PreflightOutcome>>,
) -> bool {
    &&& outcomes.len() == units.len()
    &&& forall|u: int, i: int|
        0 <= u < units.len() && in_place(outcomes, u) && 0 <= i < units[u].dependencies@.len()
            && counts(units[(#[trigger] units[u].dependencies@[i]) as int]) ==> in_place(
            outcomes,
            units[u].dependencies@[i] as int,
        )
}

/// Whether later outcomes keep earlier ones. What was not entered before has
/// none yet.
pub open spec fn keeps_outcomes(
    units: Seq<PreflightUnit>,
    before: Restoring,
    after: Restoring,
) -> bool {
    &&& after.visited.len() == units.len()
    &&& after.outcomes.len() == units.len()
    &&& forall|u: int|
        0 <= u < units.len() && before.visited[u] ==> #[trigger] after.visited[u]
            && after.outcomes[u] == before.outcomes[u]
    &&& forall|u: int|
        0 <= u < units.len() && !after.visited[u] ==> (#[trigger] after.outcomes[u]) is None
}

/// Whether restoring is in order.
pub open spec fn is_restoring(units: Seq<PreflightUnit>, state: Restoring) -> bool {
    &&& state.visited.len() == units.len()
    &&& is_closed(units, state.outcomes)
    &&& forall|u: int|
        0 <= u < units.len() && !state.visited[u] ==> (#[trigger] state.outcomes[u]) is None
}

/// What restoring a unit keeps.
proof fn lemma_restored(units: Seq<PreflightUnit>, unit: usize, state: Restoring, depth: nat)
    requires
        is_graph(units),
        unit < units.len(),
        is_restoring(units, state),
        restored(units, unit, state, depth) is Ok,
    ensures
        ({
            let (after, placed) = restored(units, unit, state, depth)->Ok_0;
            &&& is_restoring(units, after)
            &&& keeps_outcomes(units, state, after)
            &&& placed ==> in_place(after.outcomes, unit as int)
        }),
    decreases depth, 0nat,
{
    if depth > 0 && !state.visited[unit as int] {
        let entered = Restoring { visited: state.visited.update(unit as int, true), ..state };
        let list = units[unit as int].dependencies@;
        assert(are_units(units, list));
        assert(is_restoring(units, entered));
        lemma_restored_all(units, list, entered, (depth - 1) as nat);
        let (below, ready) = restored_all(units, list, entered, (depth - 1) as nat)->Ok_0;
        let (after, placed) = restored(units, unit, state, depth)->Ok_0;
        assert(entered.visited[unit as int]);
        assert(state.outcomes[unit as int] is None);
        assert(below.outcomes[unit as int] is None);
        assert forall|u: int| 0 <= u < units.len() && state.visited[u] implies
            #[trigger] after.visited[u] && after.outcomes[u] == state.outcomes[u] by {
            assert(entered.visited[u]);
            assert(below.visited[u]);
        }
        assert forall|u: int| 0 <= u < units.len() && !after.visited[u] implies (
        #[trigger] after.outcomes[u]) is None by {
            assert(below.outcomes[u] is None);
        }
        assert(is_closed(units, after.outcomes)) by {
            assert forall|u: int, i: int|
                0 <= u < units.len() && in_place(after.outcomes, u) && 0 <= i
                    < units[u].dependencies@.len() && counts(
                    units[(#[trigger] units[u].dependencies@[i]) as int],
                ) implies in_place(after.outcomes, units[u].dependencies@[i] as int) by {
                let d = units[u].dependencies@[i] as int;
                if u == unit {
                    assert(ready);
                    assert(list[i] == units[u].dependencies@[i]);
                    assert(in_place(below.outcomes, list[i] as int));
                } else {
                    assert(in_place(below.outcomes, u));
                    assert(in_place(below.outcomes, d));
                }
                assert(d != unit);
            }
        }
    }
}

/// What restoring units in order keeps.
proof fn lemma_restored_all(
    units: Seq<PreflightUnit>,
    list: Seq<usize>,
    state: Restoring,
    depth: nat,
)
    requires
        is_graph(units),
        are_units(units, list),
        is_restoring(units, state),
        restored_all(units, list, state, depth) is Ok,
    ensures
        ({
            let (after, ready) = restored_all(units, list, state, depth)->Ok_0;
            &&& is_restoring(units, after)
            &&& keeps_outcomes(units, state, after)
            &&& ready ==> forall|i: int|
                0 <= i < list.len() && counts(units[(#[trigger] list[i]) as int]) ==> in_place(
                    after.outcomes,
                    list[i] as int,
                )
        }),
    decreases depth, list.len(),
{
    if list.len() > 0 {
        let front = list.drop_last();
        assert forall|i: int| 0 <= i < front.len() implies #[trigger] front[i] < units.len() by {
            assert(front[i] == list[i]);
        }
        lemma_restored_all(units, front, state, depth);
        let (before, was_ready) = restored_all(units, front, state, depth)->Ok_0;
        let (after, ready) = restored_all(units, list, state, depth)->Ok_0;
        assert(list.last() == list[list.len() - 1]);
        if counts(units[list.last() as int]) {
            lemma_restored(units, list.last(), before, depth);
        }
        assert forall|u: int| 0 <= u < units.len() && state.visited[u] implies
            #[trigger] after.visited[u] && after.outcomes[u] == state.outcomes[u] by {
            assert(before.visited[u]);
        }
        if ready {
            assert forall|i: int| 0 <= i < list.len() && counts(
                units[(#[trigger] list[i]) as int],
            ) implies in_place(after.outcomes, list[i] as int) by {
                if i < front.len() {
                    let u = front[i] as int;
                    assert(front[i] == list[i]);
                    assert(in_place(before.outcomes, u));
                    assert(before.outcomes[u] is Some);
                    assert(before.visited[u]);
                    assert(after.visited[u]);
                    assert(after.outcomes[u] == before.outcomes[u]);
                } else {
                    assert(list[i] == list.last());
                }
            }
        }
    }
}

/// A unit is in place only together with the units that it depends on, as far
/// as they count.
pub proof fn law_restored_closures_are_complete(units: Seq<PreflightUnit>, candidates: Seq<usize>)
    requires
        is_graph(units),
        are_units(units, candidates),
        restored_candidates(units, candidates) is Ok,
    ensures
        is_closed(units, restored_candidates(units, candidates)->Ok_0.outcomes),
{
    lemma_restored_candidates(units, candidates);
}

/// Restoring candidates is in order.
proof fn lemma_restored_candidates(units: Seq<PreflightUnit>, candidates: Seq<usize>)
    requires
        is_graph(units),
        are_units(units, candidates),
        restored_candidates(units, candidates) is Ok,
    ensures
        is_restoring(units, restored_candidates(units, candidates)->Ok_0),
    decreases candidates.len(),
{
    if candidates.len() > 0 {
        let front = candidates.drop_last();
        assert forall|i: int| 0 <= i < front.len() implies #[trigger] front[i] < units.len() by {
            assert(front[i] == candidates[i]);
        }
        lemma_restored_candidates(units, front);
        let before = restored_candidates(units, front)->Ok_0;
        assert(candidates.last() == candidates[candidates.len() - 1]);
        lemma_restored(units, candidates.last(), before, units.len());
    }
}

/// Nothing that the executor wants rebuilt is in place.
pub proof fn law_forced_units_are_not_restored(unit: PreflightUnit, ready: bool)
    requires
        unit.force_rebuild,
        unit.mode != CompileMode::RunCustomBuild,
        unit.mode != CompileMode::Doctest,
    ensures
        settled(unit, ready) == Some(PreflightOutcome::Forced),
        !PreflightOutcome::Forced.in_place(),
{
}

/// A unit that is named as not settled is one of the list.
proof fn lemma_unsettled(
    units: Seq<PreflightUnit>,
    unit: usize,
    state: Restoring,
    depth: nat,
    unsettled: Unsettled,
)
    requires
        is_graph(units),
        unit < units.len(),
        restored(units, unit, state, depth) == Err::<(Restoring, bool), Unsettled>(unsettled),
    ensures
        unsettled.unit < units.len(),
        settled(units[unsettled.unit as int], true) is None,
    decreases depth, 0nat,
{
    let entered = Restoring { visited: state.visited.update(unit as int, true), ..state };
    let list = units[unit as int].dependencies@;
    assert(are_units(units, list));
    match restored_all(units, list, entered, (depth - 1) as nat) {
        Err(_) => {
            lemma_unsettled_among(units, list, entered, (depth - 1) as nat, unsettled);
        },
        Ok(_) => {},
    }
}

/// A unit that is named as not settled is one of the list.
proof fn lemma_unsettled_among(
    units: Seq<PreflightUnit>,
    list: Seq<usize>,
    state: Restoring,
    depth: nat,
    unsettled: Unsettled,
)
    requires
        is_graph(units),
        are_units(units, list),
        restored_all(units, list, state, depth) == Err::<(Restoring, bool), Unsettled>(unsettled),
    ensures
        unsettled.unit < units.len(),
        settled(units[unsettled.unit as int], true) is None,
    decreases depth, list.len(),
{
    if list.len() > 0 {
        let front = list.drop_last();
        assert forall|i: int| 0 <= i < front.len() implies #[trigger] front[i] < units.len() by {
            assert(front[i] == list[i]);
        }
        assert(list.last() == list[list.len() - 1]);
        match restored_all(units, front, state, depth) {
            Err(_) => {
                lemma_unsettled_among(units, front, state, depth, unsettled);
            },
            Ok((before, ready)) => {
                lemma_unsettled(units, list.last(), before, depth, unsettled);
            },
        }
    }
}

/// A unit that is named as not settled is one of the list, and something of it
/// is not known that decides what becomes of it: whether it is fresh, whether it
/// is a candidate, or what an attempt to restore it comes to.
pub proof fn law_unsettled_units_lack_something(
    units: Seq<PreflightUnit>,
    candidates: Seq<usize>,
    unsettled: Unsettled,
)
    requires
        is_graph(units),
        are_units(units, candidates),
        restored_candidates(units, candidates) == Err::<Restoring, Unsettled>(unsettled),
    ensures
        unsettled.unit < units.len(),
        ({
            let unit = units[unsettled.unit as int];
            ||| unit.mode != CompileMode::Doctest && unit.fresh is None
            ||| is_candidate(unit) is Err
            ||| is_candidate(unit) == Ok::<bool, PreflightFailure>(true) && unit.restore
                == RestoreOutcome::Failed
        }),
    decreases candidates.len(),
{
    let front = candidates.drop_last();
    assert forall|i: int| 0 <= i < front.len() implies #[trigger] front[i] < units.len() by {
        assert(front[i] == candidates[i]);
    }
    assert(candidates.last() == candidates[candidates.len() - 1]);
    match restored_candidates(units, front) {
        Err(_) => {
            law_unsettled_units_lack_something(units, front, unsettled);
        },
        Ok(state) => {
            lemma_unsettled(units, candidates.last(), state, units.len(), unsettled);
        },
    }
}

} // verus!
