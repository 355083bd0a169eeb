//! Units of work: what is compiled, and how.

use vstd::prelude::*;

verus! {

/// What is done with a target.
#[derive(Clone, Copy, Debug, PartialEq, Eq, Structural)]
pub enum CompileMode {
    /// It is compiled as a test harness.
    Test,
    /// It is compiled.
    Build,
    /// It is checked, as a test harness or as it is.
    Check { test: bool },
    /// It is documented.
    Doc,
    /// Its documentation tests are run.
    Doctest,
    /// Examples are gathered from it.
    Docscrape,
    /// Its build script is run.
    RunCustomBuild,
}

impl CompileMode {
    /// Whether a target is only checked.
    pub open spec fn checks(self) -> bool {
        self is Check
    }

    /// Whether a test harness is compiled.
    pub open spec fn tests(self) -> bool {
        self == CompileMode::Test || self == (CompileMode::Check { test: true })
    }

    /// Whether a target is only checked.
    pub fn is_check(self) -> (check: bool)
        ensures
            check == self.checks(),
    {
        match self {
            CompileMode::Check { test: _ } => true,
            _ => false,
        }
    }

    /// Whether a test harness is compiled.
    pub fn is_rustc_test(self) -> (test: bool)
        ensures
            test == self.tests(),
    {
        match self {
            CompileMode::Test => true,
            CompileMode::Check { test } => test,
            _ => false,
        }
    }

    /// Whether the outcome is a test of any kind.
    pub fn is_any_test(self) -> (test: bool)
        ensures
            test == (self.tests() || self == CompileMode::Doctest),
    {
        match self {
            CompileMode::Doctest => true,
            _ => self.is_rustc_test(),
        }
    }
}

/// Whether outputs of a mode can come from the artifact cache.
pub open spec fn cacheable_mode(mode: CompileMode) -> bool {
    mode == CompileMode::Build || mode == (CompileMode::Check { test: false })
}

/// Whether outputs of a mode can come from the artifact cache.
pub fn artifact_cache_compile_mode_is_supported(mode: CompileMode) -> (supported: bool)
    ensures
        supported == cacheable_mode(mode),
{
    match mode {
        CompileMode::Build => true,
        CompileMode::Check { test } => !test,
        _ => false,
    }
}

/// Runs compiler invocations. Clients can put their own in place of the one
/// that just runs them.
pub trait Executor {
    /// Whether a verified artifact can take the place of an invocation. An
    /// executor has to say so itself.
    fn artifact_cache_compatible(&self) -> bool;
}

/// Runs compiler invocations and does nothing else.
#[derive(Clone, Copy, Debug)]
pub struct DefaultExecutor;

impl Executor for DefaultExecutor {
    fn artifact_cache_compatible(&self) -> (compatible: bool)
        ensures
            compatible,
    {
        true
    }
}

} // verus!
