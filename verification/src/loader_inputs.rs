//! The dynamic-library search paths that the compiler is loaded with.

use vstd::prelude::*;
use vstd::string::*;
use vstd::utf8::*;

use crate::bytes::bytes_contain;
use crate::bytes::copy_bytes;
use crate::bytes::optional;
use crate::bytes::utf8;
use crate::command::Command;
use crate::digest::text_from_utf8;
use crate::disk::Disk;
use crate::text::has_prefix;
use crate::text::text_is;
use crate::unix_path::byte_strings;
use crate::unix_path::is_absolute;
use crate::unix_path::join_path;
use crate::unix_path::joined;
use crate::unix_path::parent;
use crate::unix_path::parent_or_self;
use crate::unix_path::path_below;
use crate::unix_path::path_is_absolute;
use crate::unix_path::path_parent;
use crate::unix_path::path_parent_or_self;
use crate::unix_path::split_all;
use crate::unix_path::split_path_list;
use crate::unix_path::strip_path_prefix;
use crate::unix_path::PATH_LIST_SEPARATOR;

verus! {

/// The host that the compiler runs on. `loader_variable` is the variable that
/// its loader searches for dynamic libraries first.
pub struct Host {
    pub linux: bool,
    pub macos: bool,
    pub unix: bool,
    pub loader_variable: String,
}

/// Whether the cache works on a host.
pub fn artifact_cache_host_is_supported(host: &Host) -> (supported: bool)
    ensures
        supported == (host.linux || host.macos),
{
    host.linux || host.macos
}

/// Whether the loader of a host expands something in `value`.
pub open spec fn has_expansion(host: Host, value: Seq<u8>) -> bool {
    (host.linux && value.contains(0x24)) || (host.macos && (value.contains(0x40) || value.contains(
        0x24,
    )))
}

/// Whether a variable leaves the loader with inputs that the cache key covers.
pub open spec fn is_modeled_variable(host: Host, key: Seq<char>, value: Seq<u8>) -> bool {
    ||| value.len() == 0
    ||| key == host.loader_variable@ && !has_expansion(host, value)
    ||| host.macos && (key == "DYLD_LIBRARY_PATH"@ || key == "LD_LIBRARY_PATH"@) && !has_expansion(
        host,
        value,
    )
    ||| !(host.unix && "LD_"@.is_prefix_of(key)) && !(host.linux && key == "GLIBC_TUNABLES"@) && !(
    host.macos && "DYLD_"@.is_prefix_of(key))
}

/// Whether a variable leaves the loader with inputs that the cache key covers.
pub fn artifact_cache_loader_variable_is_modeled(host: &Host, key: &str, value: &[u8]) -> (modeled:
    bool)
    ensures
        modeled == is_modeled_variable(*host, key@, value@),
{
    let dollar = bytes_contain(value, 0x24);
    let expansion = (host.linux && dollar) || (host.macos && (bytes_contain(value, 0x40)
        || dollar));
    if value.len() == 0 || (text_is(key, host.loader_variable.as_str()) && !expansion) || (
    host.macos && (text_is(key, "DYLD_LIBRARY_PATH") || text_is(key, "LD_LIBRARY_PATH"))
        && !expansion) {
        return true;
    }
    !(host.unix && has_prefix(key, "LD_")) && !(host.linux && text_is(key, "GLIBC_TUNABLES")) && !(
    host.macos && has_prefix(key, "DYLD_"))
}

/// Whether every variable that an invocation sets is modeled.
pub open spec fn settings_are_modeled(host: Host, rustc: &Command) -> bool {
    forall|i: int|
        0 <= i < rustc.setting_list().len() ==> ((#[trigger] rustc.setting_list()[i]).1 is Some
            ==> is_modeled_variable(
            host,
            rustc.setting_list()[i].0,
            rustc.setting_list()[i].1->0,
        ))
}

/// Whether every variable that an invocation sets is modeled.
pub fn artifact_cache_rustc_loader_environment_is_modeled(host: &Host, rustc: &Command) -> (modeled:
    bool)
    ensures
        modeled == settings_are_modeled(*host, rustc),
{
    let mut index: usize = 0;
    while index < rustc.environment.len()
        invariant
            index <= rustc.environment@.len(),
            forall|i: int|
                0 <= i < index ==> ((#[trigger] rustc.setting_list()[i]).1 is Some
                    ==> is_modeled_variable(
                    *host,
                    rustc.setting_list()[i].0,
                    rustc.setting_list()[i].1->0,
                )),
        decreases rustc.environment@.len() - index,
    {
        let variable = &rustc.environment[index];
        if let Some(value) = &variable.value {
            proof {
                assert(rustc.setting_list()[index as int] == (
                    variable.name@,
                    Some::<Seq<u8>>(value@),
                ));
            }
            if !artifact_cache_loader_variable_is_modeled(
                host,
                variable.name.as_str(),
                value.as_slice(),
            ) {
                return false;
            }
        }
        index = index + 1;
    }
    true
}

/// Whether every inherited variable has a name in UTF-8 and is modeled.
pub open spec fn inherited_is_modeled(host: Host, rustc: &Command) -> bool {
    forall|i: int|
        0 <= i < rustc.inherited@.len() ==> valid_utf8((#[trigger] rustc.inherited@[i]).name@)
            && is_modeled_variable(
            host,
            decode_utf8(rustc.inherited@[i].name@),
            rustc.inherited@[i].value@,
        )
}

/// A variable of the configuration.
pub struct ConfiguredVariable {
    pub name: String,
    pub value: String,
}

/// Whether every variable of the configuration is modeled.
pub open spec fn configured_is_modeled(host: Host, configured: Seq<ConfiguredVariable>) -> bool {
    forall|i: int|
        0 <= i < configured.len() ==> is_modeled_variable(
            host,
            (#[trigger] configured[i]).name@,
            utf8(configured[i].value@),
        )
}

/// Whether the environment leaves the loader with inputs that the cache key
/// covers: what is inherited, what is configured and what the invocation sets.
pub fn artifact_cache_loader_environment_is_modeled(
    host: &Host,
    configured: &Vec<ConfiguredVariable>,
    rustc: &Command,
) -> (modeled: bool)
    ensures
        modeled == (inherited_is_modeled(*host, rustc) && configured_is_modeled(*host, configured@)
            && settings_are_modeled(*host, rustc)),
{
    let mut index: usize = 0;
    while index < rustc.inherited.len()
        invariant
            index <= rustc.inherited@.len(),
            forall|i: int|
                0 <= i < index ==> valid_utf8((#[trigger] rustc.inherited@[i]).name@)
                    && is_modeled_variable(
                    *host,
                    decode_utf8(rustc.inherited@[i].name@),
                    rustc.inherited@[i].value@,
                ),
        decreases rustc.inherited@.len() - index,
    {
        let variable = &rustc.inherited[index];
        let modeled = match text_from_utf8(variable.name.as_slice()) {
            Some(name) => {
                proof {
                    encode_utf8_decode_utf8(name@);
                }
                artifact_cache_loader_variable_is_modeled(host, name, variable.value.as_slice())
            },
            None => false,
        };
        if !modeled {
            return false;
        }
        index = index + 1;
    }
    let mut at: usize = 0;
    while at < configured.len()
        invariant
            at <= configured@.len(),
            inherited_is_modeled(*host, rustc),
            forall|i: int|
                0 <= i < at ==> is_modeled_variable(
                    *host,
                    (#[trigger] configured@[i]).name@,
                    utf8(configured@[i].value@),
                ),
        decreases configured@.len() - at,
    {
        if !artifact_cache_loader_variable_is_modeled(
            host,
            configured[at].name.as_str(),
            configured[at].value.as_str().as_bytes(),
        ) {
            return false;
        }
        at = at + 1;
    }
    artifact_cache_rustc_loader_environment_is_modeled(host, rustc)
}

/// Where a search path stands: below a root that the cache key names in a
/// portable way, or nowhere such.
pub enum CompilerLoaderInputLocation {
    Absolute,
    CompilerSysroot { root: Vec<u8>, relative: Vec<u8> },
    TargetProfile { root: Vec<u8>, relative: Vec<u8> },
    BuildDir { root: Vec<u8>, relative: Vec<u8> },
    RustcCwd { root: Vec<u8>, relative: Vec<u8> },
}

/// A directory that the loader searches: the variable that names it, the path
/// as it is written, the path it stands for, and where that is.
pub struct CompilerLoaderInput {
    pub source: String,
    pub raw_path: Vec<u8>,
    pub path: Vec<u8>,
    pub location: CompilerLoaderInputLocation,
}

/// The roots that a location can stand below.
#[derive(Clone, Copy, Debug, PartialEq, Eq, Structural)]
pub enum Root {
    CompilerSysroot,
    TargetProfile,
    BuildDir,
    RustcCwd,
}

/// A location: a root, its path, and the path below it.
pub type Place = Option<(Root, Seq<u8>, Seq<u8>)>;

impl CompilerLoaderInputLocation {
    /// The root, its path and the path below it; nothing where absolute.
    pub open spec fn place(self) -> Place {
        match self {
            CompilerLoaderInputLocation::Absolute => None,
            CompilerLoaderInputLocation::CompilerSysroot { root, relative } => Some(
                (Root::CompilerSysroot, root@, relative@),
            ),
            CompilerLoaderInputLocation::TargetProfile { root, relative } => Some(
                (Root::TargetProfile, root@, relative@),
            ),
            CompilerLoaderInputLocation::BuildDir { root, relative } => Some(
                (Root::BuildDir, root@, relative@),
            ),
            CompilerLoaderInputLocation::RustcCwd { root, relative } => Some(
                (Root::RustcCwd, root@, relative@),
            ),
        }
    }
}

/// A search path as plain values: source, written path, path and place.
pub type LoaderInput = (Seq<char>, Seq<u8>, Seq<u8>, Place);

impl CompilerLoaderInput {
    /// The search path as plain values.
    pub open spec fn input(self) -> LoaderInput {
        (self.source@, self.raw_path@, self.path@, self.location.place())
    }
}

/// Search paths as plain values.
pub open spec fn loader_inputs(list: Seq<CompilerLoaderInput>) -> Seq<LoaderInput> {
    list.map_values(|input: CompilerLoaderInput| input.input())
}

/// The path of `path` below `root`, both taken in canonical form.
pub open spec fn relative_to(disk: Disk, path: Seq<u8>, root: Seq<u8>) -> Option<Seq<u8>> {
    match (disk.canonical(path), disk.canonical(root)) {
        (Some(path), Some(root)) => path_below(path, root),
        _ => None,
    }
}

/// The path of `path` below `root`, both taken in canonical form.
pub fn canonical_relative(disk: &Disk, path: &[u8], root: &[u8]) -> (relative: Option<Vec<u8>>)
    ensures
        optional(relative) == relative_to(*disk, path@, root@),
{
    match (disk.canonicalize(path), disk.canonicalize(root)) {
        (Some(path), Some(root)) => strip_path_prefix(path.as_slice(), root.as_slice()),
        _ => None,
    }
}

/// The roots that search paths are placed below.
pub struct Roots {
    pub compiler_sysroot: Option<Vec<u8>>,
    pub target_profile: Vec<u8>,
    pub build_dir: Vec<u8>,
    pub rustc_cwd: Vec<u8>,
}

/// Where a path stands. A relative one is looked for below the directory of
/// the invocation first; then the sysroot, the target profile and the build
/// directory are tried in this order.
pub open spec fn place_of(disk: Disk, raw_path: Seq<u8>, path: Seq<u8>, roots: Roots) -> Place {
    if !is_absolute(raw_path) && relative_to(disk, path, roots.rustc_cwd@) is Some {
        Some((Root::RustcCwd, roots.rustc_cwd@, relative_to(disk, path, roots.rustc_cwd@)->0))
    } else if roots.compiler_sysroot is Some && relative_to(
        disk,
        path,
        roots.compiler_sysroot->0@,
    ) is Some {
        Some(
            (
                Root::CompilerSysroot,
                roots.compiler_sysroot->0@,
                relative_to(disk, path, roots.compiler_sysroot->0@)->0,
            ),
        )
    } else if relative_to(disk, path, roots.target_profile@) is Some {
        Some(
            (
                Root::TargetProfile,
                roots.target_profile@,
                relative_to(disk, path, roots.target_profile@)->0,
            ),
        )
    } else if relative_to(disk, path, roots.build_dir@) is Some {
        Some((Root::BuildDir, roots.build_dir@, relative_to(disk, path, roots.build_dir@)->0))
    } else {
        None
    }
}

/// A search path with its place.
pub fn compiler_loader_input(
    disk: &Disk,
    source: &str,
    raw_path: Vec<u8>,
    path: Vec<u8>,
    roots: &Roots,
) -> (input: CompilerLoaderInput)
    ensures
        input.input() == (source@, raw_path@, path@, place_of(*disk, raw_path@, path@, *roots)),
{
    let source = source.to_owned();
    if !path_is_absolute(raw_path.as_slice()) {
        if let Some(relative) = canonical_relative(
            disk,
            path.as_slice(),
            roots.rustc_cwd.as_slice(),
        ) {
            let root = copy_bytes(roots.rustc_cwd.as_slice());
            let location = CompilerLoaderInputLocation::RustcCwd { root, relative };
            return CompilerLoaderInput { source, raw_path, path, location };
        }
    }
    if let Some(sysroot) = &roots.compiler_sysroot {
        if let Some(relative) = canonical_relative(disk, path.as_slice(), sysroot.as_slice()) {
            let root = copy_bytes(sysroot.as_slice());
            let location = CompilerLoaderInputLocation::CompilerSysroot { root, relative };
            return CompilerLoaderInput { source, raw_path, path, location };
        }
    }
    if let Some(relative) = canonical_relative(
        disk,
        path.as_slice(),
        roots.target_profile.as_slice(),
    ) {
        let root = copy_bytes(roots.target_profile.as_slice());
        let location = CompilerLoaderInputLocation::TargetProfile { root, relative };
        return CompilerLoaderInput { source, raw_path, path, location };
    }
    if let Some(relative) = canonical_relative(disk, path.as_slice(), roots.build_dir.as_slice()) {
        let root = copy_bytes(roots.build_dir.as_slice());
        let location = CompilerLoaderInputLocation::BuildDir { root, relative };
        return CompilerLoaderInput { source, raw_path, path, location };
    }
    CompilerLoaderInput { source, raw_path, path, location: CompilerLoaderInputLocation::Absolute }
}

/// What a written search path stands for: an empty one is the directory of the
/// invocation, a relative one stands below it.
pub open spec fn resolved(path: Seq<u8>, rustc_cwd: Seq<u8>) -> Seq<u8> {
    if path.len() == 0 {
        rustc_cwd
    } else {
        joined(rustc_cwd, path)
    }
}

/// What a written search path stands for.
fn resolve_path(path: &[u8], rustc_cwd: &[u8]) -> (result: Vec<u8>)
    ensures
        result@ == resolved(path@, rustc_cwd@),
{
    if path.len() == 0 {
        copy_bytes(rustc_cwd)
    } else {
        join_path(rustc_cwd, path)
    }
}

/// One written search path as an input.
pub open spec fn input_of(disk: Disk, source: Seq<char>, raw: Seq<u8>, roots: Roots) -> LoaderInput {
    let path = resolved(raw, roots.rustc_cwd@);
    (source, raw, path, place_of(disk, raw, path, roots))
}

/// The inputs of a list of written search paths.
pub open spec fn inputs_of(
    disk: Disk,
    source: Seq<char>,
    raws: Seq<Seq<u8>>,
    roots: Roots,
) -> Seq<LoaderInput> {
    Seq::new(raws.len(), |i: int| input_of(disk, source, raws[i], roots))
}

/// The inputs that a variable names: none where it is unset or empty.
pub open spec fn variable_inputs(
    disk: Disk,
    rustc: &Command,
    variable: Seq<char>,
    roots: Roots,
) -> Seq<LoaderInput> {
    match rustc.effective(variable) {
        Some(value) => if value.len() == 0 {
            Seq::empty()
        } else {
            inputs_of(disk, variable, split_all(value, PATH_LIST_SEPARATOR), roots)
        },
        None => Seq::empty(),
    }
}

/// Whether a variable is set to something.
pub open spec fn names_inputs(rustc: &Command, variable: Seq<char>) -> bool {
    rustc.effective(variable) is Some && rustc.effective(variable)->0.len() > 0
}

/// The directories that the macOS loader searches by default.
pub open spec fn default_inputs(
    disk: Disk,
    home: Option<Seq<u8>>,
    variable: Seq<char>,
    roots: Roots,
) -> Seq<LoaderInput> {
    let system = seq![
        (
            variable,
            utf8("/usr/local/lib"@),
            utf8("/usr/local/lib"@),
            place_of(disk, utf8("/usr/local/lib"@), utf8("/usr/local/lib"@), roots),
        ),
        (
            variable,
            utf8("/usr/lib"@),
            utf8("/usr/lib"@),
            place_of(disk, utf8("/usr/lib"@), utf8("/usr/lib"@), roots),
        ),
    ];
    match home {
        Some(home) => seq![input_of(disk, variable, joined(home, utf8("lib"@)), roots)] + system,
        None => system,
    }
}

/// The directories that the loader searches, in order.
pub open spec fn searched_inputs(
    host: Host,
    disk: Disk,
    home: Option<Seq<u8>>,
    rustc: &Command,
    roots: Roots,
) -> Seq<LoaderInput> {
    let primary = host.loader_variable@;
    let first = if names_inputs(rustc, primary) {
        variable_inputs(disk, rustc, primary, roots)
    } else if host.macos {
        default_inputs(disk, home, primary, roots)
    } else {
        Seq::empty()
    };
    if host.macos {
        first + variable_inputs(disk, rustc, "DYLD_LIBRARY_PATH"@, roots) + variable_inputs(
            disk,
            rustc,
            "LD_LIBRARY_PATH"@,
            roots,
        ) + seq![
            (
                primary,
                Seq::<u8>::empty(),
                roots.rustc_cwd@,
                Some((Root::RustcCwd, roots.rustc_cwd@, Seq::<u8>::empty())),
            ),
        ]
    } else {
        first
    }
}

/// Appends an input to a list.
fn push_input(list: &mut Vec<CompilerLoaderInput>, input: CompilerLoaderInput)
    ensures
        loader_inputs(final(list)@) == loader_inputs(old(list)@).push(input.input()),
{
    let ghost before = list@;
    list.push(input);
    proof {
        assert(loader_inputs(list@) =~= loader_inputs(before).push(input.input()));
    }
}

/// Appends the inputs that a variable names. Tells whether it is set to
/// something.
fn extend_paths(
    inputs: &mut Vec<CompilerLoaderInput>,
    disk: &Disk,
    rustc: &Command,
    variable: &str,
    roots: &Roots,
) -> (named: bool)
    ensures
        named == names_inputs(rustc, variable@),
        loader_inputs(final(inputs)@) == loader_inputs(old(inputs)@) + variable_inputs(
            *disk,
            rustc,
            variable@,
            *roots,
        ),
{
    let ghost start = loader_inputs(inputs@);
    proof {
        assert(start + Seq::<LoaderInput>::empty() =~= start);
    }
    let value = match rustc.get_env(variable) {
        Some(value) => value,
        None => {
            return false;
        },
    };
    if value.len() == 0 {
        return false;
    }
    let raws = split_path_list(value.as_slice());
    let ghost wanted = inputs_of(*disk, variable@, byte_strings(raws@), *roots);
    let mut index: usize = 0;
    proof {
        assert(wanted.take(0) =~= Seq::empty());
        assert(wanted.len() == raws@.len());
    }
    while index < raws.len()
        invariant
            index <= raws@.len(),
            wanted == inputs_of(*disk, variable@, byte_strings(raws@), *roots),
            wanted.len() == raws@.len(),
            loader_inputs(inputs@) == start + wanted.take(index as int),
        decreases raws@.len() - index,
    {
        let raw = copy_bytes(raws[index].as_slice());
        let path = resolve_path(raw.as_slice(), roots.rustc_cwd.as_slice());
        let input = compiler_loader_input(disk, variable, raw, path, roots);
        proof {
            assert(byte_strings(raws@)[index as int] == raws@[index as int]@);
            assert(wanted[index as int] == input.input());
            assert(start + wanted.take(index + 1) =~= (start + wanted.take(index as int)).push(
                wanted[index as int],
            ));
        }
        push_input(inputs, input);
        index = index + 1;
    }
    proof {
        assert(wanted.take(index as int) =~= wanted);
    }
    true
}

/// The roots of an invocation.
pub open spec fn are_roots(
    roots: Roots,
    compiler_program: Seq<u8>,
    build_dir: Seq<u8>,
    output_root: Seq<u8>,
    rustc_cwd: Seq<u8>,
) -> bool {
    &&& optional(roots.compiler_sysroot) == sysroot_of(compiler_program)
    &&& roots.target_profile@ == parent_or_self(output_root)
    &&& roots.build_dir@ == build_dir
    &&& roots.rustc_cwd@ == rustc_cwd
}

/// The directory two levels above the compiler.
pub open spec fn sysroot_of(compiler_program: Seq<u8>) -> Option<Seq<u8>> {
    match parent(compiler_program) {
        Some(above) => parent(above),
        None => None,
    }
}

/// The directory two levels above the compiler.
pub fn compiler_sysroot(compiler_program: &[u8]) -> (sysroot: Option<Vec<u8>>)
    ensures
        optional(sysroot) == sysroot_of(compiler_program@),
{
    match path_parent(compiler_program) {
        Some(above) => path_parent(above.as_slice()),
        None => None,
    }
}

impl Roots {
    /// The roots of an invocation.
    pub fn new(
        compiler_program: &[u8],
        build_dir: &[u8],
        output_root: &[u8],
        rustc_cwd: &[u8],
    ) -> (roots: Roots)
        ensures
            are_roots(roots, compiler_program@, build_dir@, output_root@, rustc_cwd@),
    {
        Roots {
            compiler_sysroot: compiler_sysroot(compiler_program),
            target_profile: path_parent_or_self(output_root),
            build_dir: copy_bytes(build_dir),
            rustc_cwd: copy_bytes(rustc_cwd),
        }
    }
}

/// The home directory as plain bytes.
pub open spec fn optional_slice(value: Option<&[u8]>) -> Option<Seq<u8>> {
    match value {
        Some(value) => Some(value@),
        None => None,
    }
}

/// The directories that the loader searches, in order.
pub fn compiler_loader_input_paths(
    host: &Host,
    disk: &Disk,
    home: Option<&[u8]>,
    rustc: &Command,
    roots: &Roots,
) -> (inputs: Vec<CompilerLoaderInput>)
    ensures
        loader_inputs(inputs@) == searched_inputs(*host, *disk, optional_slice(home), rustc, *roots),
{
    let mut inputs: Vec<CompilerLoaderInput> = Vec::new();
    let primary = host.loader_variable.as_str();
    proof {
        assert(loader_inputs(inputs@) =~= Seq::empty());
        assert(Seq::<LoaderInput>::empty() + variable_inputs(*disk, rustc, primary@, *roots)
            =~= variable_inputs(*disk, rustc, primary@, *roots));
    }
    let named = extend_paths(&mut inputs, disk, rustc, primary, roots);
    if !named && host.macos {
        proof {
            assert(loader_inputs(inputs@) =~= Seq::empty());
        }
        if let Some(home) = home {
            let home_lib = join_path(home, "lib".as_bytes());
            let path = resolve_path(home_lib.as_slice(), roots.rustc_cwd.as_slice());
            let input = compiler_loader_input(disk, primary, home_lib, path, roots);
            push_input(&mut inputs, input);
        }
        let local = compiler_loader_input(
            disk,
            primary,
            copy_bytes("/usr/local/lib".as_bytes()),
            copy_bytes("/usr/local/lib".as_bytes()),
            roots,
        );
        push_input(&mut inputs, local);
        let system = compiler_loader_input(
            disk,
            primary,
            copy_bytes("/usr/lib".as_bytes()),
            copy_bytes("/usr/lib".as_bytes()),
            roots,
        );
        push_input(&mut inputs, system);
        proof {
            assert(loader_inputs(inputs@) =~= default_inputs(
                *disk,
                optional_slice(home),
                primary@,
                *roots,
            ));
        }
    }
    if host.macos {
        extend_paths(&mut inputs, disk, rustc, "DYLD_LIBRARY_PATH", roots);
        extend_paths(&mut inputs, disk, rustc, "LD_LIBRARY_PATH", roots);
        let raw_path: Vec<u8> = Vec::new();
        let relative: Vec<u8> = Vec::new();
        proof {
            assert(raw_path@ =~= Seq::empty());
            assert(relative@ =~= Seq::empty());
        }
        let input = CompilerLoaderInput {
            source: host.loader_variable.clone(),
            raw_path,
            path: copy_bytes(roots.rustc_cwd.as_slice()),
            location: CompilerLoaderInputLocation::RustcCwd {
                root: copy_bytes(roots.rustc_cwd.as_slice()),
                relative,
            },
        };
        push_input(&mut inputs, input);
        proof {
            assert(loader_inputs(inputs@) =~= searched_inputs(
                *host,
                *disk,
                optional_slice(home),
                rustc,
                *roots,
            ));
        }
    }
    inputs
}

} // verus!
