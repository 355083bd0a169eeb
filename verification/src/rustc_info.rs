//! What is known of a compiler: its version, its invocations, and the cached
//! outputs of what it was asked.

use std::collections::HashMap;
use vstd::prelude::*;
use vstd::string::*;
use vstd::utf8::*;

use crate::bytes::copy_bytes;
use crate::bytes::optional;
use crate::bytes::optional_text;
use crate::bytes::utf8;
use crate::command::Command;
use crate::text::after_prefix;
use crate::text::lines;
use crate::text::lines_of;
use crate::text::texts;
use crate::text::without_prefix;
use crate::unix_path::byte_strings;
use crate::unix_path::join_path;
use crate::unix_path::joined;

verus! {

broadcast use vstd::std_specs::hash::group_hash_axioms;

/// A version number.
#[derive(Debug)]
pub struct Version {
    pub major: u64,
    pub minor: u64,
    pub patch: u64,
    pub pre: String,
    pub build: String,
}

/// A version number as plain values.
pub type Numbers = (u64, u64, u64, Seq<char>, Seq<char>);

impl Version {
    /// The version number as plain values.
    pub open spec fn numbers(&self) -> Numbers {
        (self.major, self.minor, self.patch, self.pre@, self.build@)
    }
}

/// The version number that `semver::Version::parse` reads in a text. `None`
/// where the text is none.
pub uninterp spec fn semantic_version(text: Seq<char>) -> Option<
    (u64, u64, u64, Seq<char>, Seq<char>),
>;

/// Calls `semver::Version::parse`, whose result depends on the text alone.
#[verifier::external_body]
fn parse_semantic_version(text: &str) -> (version: Option<Version>)
    ensures
        match version {
            Some(version) => semantic_version(text@) == Some(version.numbers()),
            None => semantic_version(text@) is None,
        },
{
    semver::Version::parse(text).ok().map(
        |version|
            Version {
                major: version.major,
                minor: version.minor,
                patch: version.patch,
                pre: version.pre.as_str().to_owned(),
                build: version.build.as_str().to_owned(),
            },
    )
}

/// What follows `field` in the first of `list` that begins with it.
pub open spec fn field_in(list: Seq<Seq<char>>, field: Seq<char>) -> Option<Seq<char>>
    decreases list.len(),
{
    if list.len() == 0 {
        None
    } else {
        match after_prefix(list[0], field) {
            Some(value) => Some(value),
            None => field_in(list.drop_first(), field),
        }
    }
}

/// What follows `field` in the first line that begins with it.
pub fn version_field(verbose_version: &str, field: &str) -> (value: Option<String>)
    ensures
        optional_text(value) == field_in(lines_of(verbose_version@), field@),
{
    let list = lines(verbose_version);
    let ghost all = texts(list@);
    let mut index: usize = 0;
    proof {
        assert(all.skip(0) =~= all);
    }
    while index < list.len()
        invariant
            index <= list@.len(),
            all == texts(list@),
            all == lines_of(verbose_version@),
            field_in(all, field@) == field_in(all.skip(index as int), field@),
        decreases list@.len() - index,
    {
        proof {
            assert(all.skip(index as int)[0] == list@[index as int]@);
            assert(all.skip(index as int).drop_first() =~= all.skip(index + 1));
        }
        match without_prefix(list[index].as_str(), field) {
            Some(value) => {
                return Some(value);
            },
            None => {},
        }
        index = index + 1;
    }
    proof {
        assert(all.skip(index as int).len() == 0);
    }
    None
}

/// What a compiler says of its version.
pub struct VersionInfo {
    pub host: String,
    pub version: Version,
    pub commit_hash: Option<String>,
}

/// Why the answer of a compiler is of no use.
#[derive(Clone, Copy, Debug, PartialEq, Eq, Structural)]
pub enum VersionError {
    NoHost,
    NoRelease,
    InvalidRelease,
}

/// What a compiler says of its version, as plain values.
pub type Info = (Seq<char>, Numbers, Option<Seq<char>>);

/// What the answer of a compiler says, given what its release line is as a
/// version number.
pub open spec fn version_info(answer: Seq<char>, release: Option<Numbers>) -> Result<
    Info,
    VersionError,
> {
    let list = lines_of(answer);
    match field_in(list, "host: "@) {
        None => Err(VersionError::NoHost),
        Some(host) => match field_in(list, "release: "@) {
            None => Err(VersionError::NoRelease),
            Some(_) => match release {
                None => Err(VersionError::InvalidRelease),
                Some(numbers) => Ok((host, numbers, field_in(list, "commit-hash: "@))),
            },
        },
    }
}

/// The version number in the release line of an answer.
pub open spec fn release_number(answer: Seq<char>) -> Option<Numbers> {
    match field_in(lines_of(answer), "release: "@) {
        Some(release) => semantic_version(release),
        None => None,
    }
}

/// What the answer of a compiler says, given its release line as a version
/// number.
pub fn version_info_with(verbose_version: &str, release: Option<Version>) -> (info: Result<
    VersionInfo,
    VersionError,
>)
    ensures
        ({
            let numbers = match release {
                Some(version) => Some(version.numbers()),
                None => None,
            };
            match (info, version_info(verbose_version@, numbers)) {
                (Ok(info), Ok(expected)) => (
                    info.host@,
                    info.version.numbers(),
                    optional_text(info.commit_hash),
                ) == expected,
                (Err(error), Err(expected)) => error == expected,
                _ => false,
            }
        }),
{
    let host = match version_field(verbose_version, "host: ") {
        Some(host) => host,
        None => {
            return Err(VersionError::NoHost);
        },
    };
    if version_field(verbose_version, "release: ").is_none() {
        return Err(VersionError::NoRelease);
    }
    match release {
        None => Err(VersionError::InvalidRelease),
        Some(version) => Ok(
            VersionInfo {
                host,
                version,
                commit_hash: version_field(verbose_version, "commit-hash: "),
            },
        ),
    }
}

/// What the answer of a compiler to `-vV` says.
pub fn parse_verbose_version(verbose_version: &str) -> (info: Result<VersionInfo, VersionError>)
    ensures
        match (info, version_info(verbose_version@, release_number(verbose_version@))) {
            (Ok(info), Ok(expected)) => (
                info.host@,
                info.version.numbers(),
                optional_text(info.commit_hash),
            ) == expected,
            (Err(error), Err(expected)) => error == expected,
            _ => false,
        },
{
    let release = match version_field(verbose_version, "release: ") {
        Some(release) => parse_semantic_version(release.as_str()),
        None => None,
    };
    version_info_with(verbose_version, release)
}

/// The compiler of a toolchain below the home of the toolchain manager.
pub open spec fn toolchain_compiler(home: Seq<u8>, toolchain: Seq<u8>) -> Seq<u8> {
    joined(
        joined(joined(joined(home, utf8("toolchains"@)), toolchain), utf8("bin"@)),
        utf8("rustc"@),
    )
}

/// The compiler of a toolchain below the home of the toolchain manager.
pub fn toolchain_compiler_path(home: &[u8], toolchain: &[u8]) -> (path: Vec<u8>)
    ensures
        path@ == toolchain_compiler(home@, toolchain@),
{
    let toolchains = join_path(home, "toolchains".as_bytes());
    let root = join_path(toolchains.as_slice(), toolchain);
    let bin = join_path(root.as_slice(), "bin".as_bytes());
    join_path(bin.as_slice(), "rustc".as_bytes())
}

/// Which program identifies a compiler.
pub enum IdentityProgram {
    /// None: the compiler can delegate to what is not modeled.
    Unmodeled,
    /// A program that was found.
    Program(Vec<u8>),
    /// The program at a path, if there is one.
    Resolve(Vec<u8>),
}

/// Which program identifies a compiler. `program` is where the compiler was
/// found, and `is_rustup_proxy` whether that is a proxy of the toolchain
/// manager, which has to name the toolchain then.
pub fn artifact_cache_identity_program(
    modeled: bool,
    program: &Option<Vec<u8>>,
    is_rustup_proxy: bool,
    rustup_home: &Option<Vec<u8>>,
    rustup_toolchain: &Option<Vec<u8>>,
) -> (identity: IdentityProgram)
    ensures
        match identity {
            IdentityProgram::Program(path) => modeled && !is_rustup_proxy && optional(*program)
                == Some(path@),
            IdentityProgram::Resolve(path) => modeled && program is Some && is_rustup_proxy
                && rustup_home is Some && rustup_toolchain is Some && path@ == toolchain_compiler(
                rustup_home->Some_0@,
                rustup_toolchain->Some_0@,
            ),
            IdentityProgram::Unmodeled => !modeled || program is None || (is_rustup_proxy && (
            rustup_home is None || rustup_toolchain is None)),
        },
{
    if !modeled {
        return IdentityProgram::Unmodeled;
    }
    match program {
        None => IdentityProgram::Unmodeled,
        Some(program) => {
            if !is_rustup_proxy {
                return IdentityProgram::Program(copy_bytes(program.as_slice()));
            }
            match (rustup_home, rustup_toolchain) {
                (Some(home), Some(toolchain)) => IdentityProgram::Resolve(
                    toolchain_compiler_path(home.as_slice(), toolchain.as_slice()),
                ),
                _ => IdentityProgram::Unmodeled,
            }
        },
    }
}

/// A compiler and the programs that wrap it.
pub struct Rustc {
    pub path: Vec<u8>,
    pub wrapper: Option<Vec<u8>>,
    pub workspace_wrapper: Option<Vec<u8>>,
    pub verbose_version: String,
    pub info: VersionInfo,
}

/// One path or none. An empty path is none.
pub open spec fn one_or_none(path: Option<Vec<u8>>) -> Seq<Seq<u8>> {
    match path {
        Some(path) => if path@.len() > 0 {
            seq![path@]
        } else {
            Seq::empty()
        },
        None => Seq::empty(),
    }
}

impl Rustc {
    /// An invocation of the compiler in its wrapper.
    pub fn process(&self) -> (command: Command)
        ensures
            command.program@ == self.path@,
            byte_strings(command.wrappers@) == one_or_none(self.wrapper),
            command.arguments@.len() == 0,
            command.environment@.len() == 0,
            command.directory is None,
            command.inherited@.len() == 0,
            command.retry_with_argfile,
            command.well_formed(),
    {
        let mut command = Command::for_path(self.path.as_slice());
        proof {
            assert(byte_strings(command.wrappers@) =~= Seq::<Seq<u8>>::empty());
        }
        command.wrapped(&self.wrapper);
        command.retry_with_argfile = true;
        proof {
            assert(byte_strings(command.wrappers@) =~= one_or_none(self.wrapper));
        }
        command
    }

    /// An invocation of the compiler for a member of the workspace: its own
    /// wrapper stands inside the general one.
    pub fn workspace_process(&self) -> (command: Command)
        ensures
            command.program@ == self.path@,
            byte_strings(command.wrappers@) == one_or_none(self.workspace_wrapper) + one_or_none(
                self.wrapper,
            ),
            command.arguments@.len() == 0,
            command.environment@.len() == 0,
            command.directory is None,
            command.inherited@.len() == 0,
            command.retry_with_argfile,
            command.well_formed(),
    {
        let mut command = Command::for_path(self.path.as_slice());
        proof {
            assert(byte_strings(command.wrappers@) =~= Seq::<Seq<u8>>::empty());
        }
        command.wrapped(&self.workspace_wrapper);
        command.wrapped(&self.wrapper);
        command.retry_with_argfile = true;
        proof {
            assert(byte_strings(command.wrappers@) =~= one_or_none(self.workspace_wrapper)
                + one_or_none(self.wrapper));
        }
        command
    }

    /// An invocation of the compiler without wrappers.
    pub fn process_no_wrapper(&self) -> (command: Command)
        ensures
            command.program@ == self.path@,
            command.wrappers@.len() == 0,
            command.arguments@.len() == 0,
            command.environment@.len() == 0,
            command.directory is None,
            command.inherited@.len() == 0,
            command.retry_with_argfile,
            command.well_formed(),
    {
        let mut command = Command::for_path(self.path.as_slice());
        command.retry_with_argfile = true;
        command
    }
}

/// What a process printed, and how it ended.
#[derive(Debug)]
pub struct Output {
    pub success: bool,
    pub status: String,
    pub code: Option<i32>,
    pub stdout: String,
    pub stderr: String,
}

/// The outputs that are cached for one compiler.
pub struct CacheData {
    pub rustc_fingerprint: u64,
    pub outputs: HashMap<u64, Output>,
    pub successes: HashMap<u64, bool>,
}

/// A cache of outputs.
pub struct Cache {
    /// Where it is kept, if it is.
    pub cache_location: Option<Vec<u8>>,
    /// Whether it holds something that was not kept yet.
    pub dirty: bool,
    pub data: CacheData,
}

impl Cache {
    /// The cache for a compiler. What was kept counts only for the compiler that
    /// it was kept for; without a place or a fingerprint nothing is kept.
    pub fn load(
        cache_location: Option<Vec<u8>>,
        fingerprint: Option<u64>,
        stored: Option<CacheData>,
    ) -> (cache: Cache)
        ensures
            match (cache_location, fingerprint) {
                (Some(location), Some(fingerprint)) => cache.cache_location == Some(location)
                    && match stored {
                    Some(data) if data.rustc_fingerprint == fingerprint => !cache.dirty
                        && cache.data == data,
                    _ => cache.dirty && cache.data.rustc_fingerprint == fingerprint
                        && cache.data.outputs@ == Map::<u64, Output>::empty()
                        && cache.data.successes@ == Map::<u64, bool>::empty(),
                },
                _ => cache.cache_location is None && !cache.dirty && cache.data.rustc_fingerprint
                    == 0 && cache.data.outputs@ == Map::<u64, Output>::empty()
                    && cache.data.successes@ == Map::<u64, bool>::empty(),
            },
    {
        match (cache_location, fingerprint) {
            (Some(location), Some(fingerprint)) => {
                match stored {
                    Some(data) => {
                        if data.rustc_fingerprint == fingerprint {
                            return Cache { cache_location: Some(location), dirty: false, data };
                        }
                    },
                    None => {},
                }
                Cache {
                    cache_location: Some(location),
                    dirty: true,
                    data: CacheData {
                        rustc_fingerprint: fingerprint,
                        outputs: HashMap::new(),
                        successes: HashMap::new(),
                    },
                }
            },
            _ => Cache {
                cache_location: None,
                dirty: false,
                data: CacheData {
                    rustc_fingerprint: 0,
                    outputs: HashMap::new(),
                    successes: HashMap::new(),
                },
            },
        }
    }

    /// Whether the output for a key has to be asked for.
    pub fn misses(&self, key: u64) -> (missing: bool)
        ensures
            missing == !self.data.outputs@.contains_key(key),
    {
        !self.data.outputs.contains_key(&key)
    }

    /// Keeps the output for a key that was asked for. The status is kept only of
    /// a process that failed.
    pub fn keep(
        &mut self,
        key: u64,
        success: bool,
        status: String,
        code: Option<i32>,
        stdout: String,
        stderr: String,
    )
        requires
            !old(self).data.outputs@.contains_key(key),
        ensures
            final(self).dirty,
            final(self).cache_location == old(self).cache_location,
            final(self).data.rustc_fingerprint == old(self).data.rustc_fingerprint,
            final(self).data.successes == old(self).data.successes,
            final(self).data.outputs@.dom() == old(self).data.outputs@.dom().insert(key),
            forall|other: u64|
                other != key && old(self).data.outputs@.contains_key(other)
                    ==> #[trigger] final(self).data.outputs@[other] == old(self).data.outputs@[other],
            ({
                let output = final(self).data.outputs@[key];
                &&& output.success == success
                &&& output.status@ == if success {
                    Seq::<char>::empty()
                } else {
                    status@
                }
                &&& output.code == code
                &&& output.stdout == stdout
                &&& output.stderr == stderr
            }),
    {
        let kept_status = if success {
            String::new()
        } else {
            status
        };
        self.data.outputs.insert(
            key,
            Output { success, status: kept_status, code, stdout, stderr },
        );
        self.dirty = true;
    }

    /// The output for a key: what the process printed where it succeeded, and
    /// how it failed else. `None` where the output has to be asked for.
    pub fn cached_output(&self, key: u64) -> (output: Option<Result<(String, String), ProcessFailure>>)
        ensures
            match output {
                None => !self.data.outputs@.contains_key(key),
                Some(result) => self.data.outputs@.contains_key(key) && ({
                    let kept = self.data.outputs@[key];
                    match result {
                        Ok((stdout, stderr)) => kept.success && stdout@ == kept.stdout@ && stderr@
                            == kept.stderr@,
                        Err(failure) => !kept.success && failure.code == kept.code
                            && failure.status@ == kept.status@ && failure.stdout@ == kept.stdout@
                            && failure.stderr@ == kept.stderr@,
                    }
                }),
            },
    {
        match self.data.outputs.get(&key) {
            None => None,
            Some(kept) => {
                let stdout = kept.stdout.as_str().to_owned();
                let stderr = kept.stderr.as_str().to_owned();
                if kept.success {
                    Some(Ok((stdout, stderr)))
                } else {
                    Some(
                        Err(
                            ProcessFailure {
                                code: kept.code,
                                status: kept.status.as_str().to_owned(),
                                stdout,
                                stderr,
                            },
                        ),
                    )
                }
            },
        }
    }

    /// Where the cache is written to when it is given up, if it is.
    pub fn write_location(&self) -> (location: Option<Vec<u8>>)
        ensures
            optional(location) == if self.dirty {
                optional(self.cache_location)
            } else {
                None
            },
    {
        if !self.dirty {
            return None;
        }
        match &self.cache_location {
            Some(path) => Some(copy_bytes(path.as_slice())),
            None => None,
        }
    }
}

/// How a process failed.
#[derive(Debug)]
pub struct ProcessFailure {
    pub code: Option<i32>,
    pub status: String,
    pub stdout: String,
    pub stderr: String,
}

/// What the toolchain manager adds to the fingerprint of a compiler.
pub enum RustupFingerprint {
    /// The toolchain, the home, and when the compiler at a path was changed.
    Toolchain { real_rustc: Vec<u8> },
    /// Nothing.
    Nothing,
    /// The compiler is a proxy, and its toolchain is not known.
    Unknown,
}

/// What the toolchain manager adds to the fingerprint of a compiler.
pub fn rustup_fingerprint(
    maybe_rustup: bool,
    home: &Option<String>,
    toolchain: &Option<String>,
) -> (fingerprint: RustupFingerprint)
    ensures
        match fingerprint {
            RustupFingerprint::Toolchain { real_rustc } => home is Some && toolchain is Some
                && real_rustc@ == toolchain_compiler(
                utf8(home->Some_0@),
                utf8(toolchain->Some_0@),
            ),
            RustupFingerprint::Unknown => maybe_rustup && (home is None || toolchain is None),
            RustupFingerprint::Nothing => !maybe_rustup && (home is None || toolchain is None),
        },
{
    match (home, toolchain) {
        (Some(home), Some(toolchain)) => RustupFingerprint::Toolchain {
            real_rustc: toolchain_compiler_path(
                home.as_str().as_bytes(),
                toolchain.as_str().as_bytes(),
            ),
        },
        _ => if maybe_rustup {
            RustupFingerprint::Unknown
        } else {
            RustupFingerprint::Nothing
        },
    }
}

} // verus!
