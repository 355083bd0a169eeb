//! The key of a compilation: what is hashed to find its cache entry.

use vstd::prelude::*;
use vstd::string::*;
use vstd::utf8::*;

use crate::action_inputs::ActionInputError;
use crate::action_inputs::ArtifactCacheActionInputWitness;
use crate::action_tree::action_gathered;
use crate::action_tree::action_text;
use crate::action_tree::artifact_cache_action_inputs_snapshot;
use crate::action_tree::is_generated_variable;
use crate::action_tree::is_snapshot_of;
use crate::action_tree::names_generated;
use crate::action_tree::ActionInputs;
use crate::action_tree::ArtifactCacheActionInputSnapshot;
use crate::admission::is_crate_search;
use crate::admission::list_holds;
use crate::admission::searches_crates;
use crate::bytes::bytes_equal;
use crate::bytes::copy_bytes;
use crate::bytes::optional;
use crate::bytes::push_bytes;
use crate::bytes::push_text;
use crate::bytes::utf8;
use crate::command::Command;
use crate::command::Variable;
use crate::compiler_identity::ArtifactCacheIdentityWitness;
use crate::digest::blake3_digest;
use crate::digest::blake3_hex;
use crate::digest::blake3_of;
use crate::digest::hex_digest;
use crate::digest::lossy_text;
use crate::digest::text_from_utf8;
use crate::digest::text_from_utf8_lossy;
use crate::disk::Directory;
use crate::disk::Disk;
use crate::loader_digest::compiler_loader_inputs_digest;
use crate::loader_digest::loader_text;
use crate::loader_digest::optional_witness;
use crate::loader_digest::portable_root_name;
use crate::loader_digest::root_name;
use crate::loader_digest::LoaderInputsError;
use crate::loader_inputs::compiler_sysroot;
use crate::loader_inputs::loader_inputs;
use crate::loader_inputs::sysroot_of;
use crate::loader_inputs::CompilerLoaderInput;
use crate::loader_inputs::CompilerLoaderInputLocation;
use crate::loader_inputs::Host;
use crate::loader_inputs::LoaderInput;
use crate::loader_inputs::Place;
use crate::loader_inputs::Root;
use crate::text::after_prefix;
use crate::text::cut_last;
use crate::text::has_prefix;
use crate::text::replace;
use crate::text::replaced;
use crate::text::rsplit_once;
use crate::text::text_is;
use crate::text::without_prefix;
use crate::unix_path::byte_strings;
use crate::unix_path::join_path;
use crate::unix_path::join_path_list;
use crate::unix_path::joined;
use crate::unix_path::parent_or_self;
use crate::unix_path::path_list;
use crate::unix_path::path_parent_or_self;
use crate::unix_path::paths_equal;
use crate::unix_path::same_path;
use crate::unix_path::split_all;
use crate::unix_path::split_path_list;
use crate::unix_path::PATH_LIST_SEPARATOR;

verus! {

/// A path-remapping argument and the form that is hashed in its place.
pub struct PortableRemap {
    pub original: Vec<u8>,
    pub normalized: Vec<u8>,
}

/// The form of a path-remapping argument with `source` as the path that is
/// remapped. `None` where the argument is none.
pub open spec fn portable_remap(argument: Seq<u8>, source: Seq<char>) -> Option<Seq<char>> {
    if !valid_utf8(argument) {
        None
    } else {
        match after_prefix(decode_utf8(argument), "--remap-path-prefix="@) {
            None => None,
            Some(value) => match cut_last(value, '=') {
                None => None,
                Some((path, destination)) => Some(
                    "--remap-path-prefix="@ + source + "="@ + destination,
                ),
            },
        }
    }
}

/// A path-remapping argument with the form that is hashed in its place.
pub fn artifact_cache_portable_remap(argument: Vec<u8>, replacement_source: &str) -> (remap: Option<
    PortableRemap,
>)
    ensures
        match remap {
            Some(remap) => portable_remap(argument@, replacement_source@) is Some && remap.original@
                == argument@ && remap.normalized@ == utf8(
                portable_remap(argument@, replacement_source@)->0,
            ),
            None => portable_remap(argument@, replacement_source@) is None,
        },
{
    let normalized: String = match text_from_utf8(argument.as_slice()) {
        None => {
            return None;
        },
        Some(text) => {
            proof {
                encode_utf8_decode_utf8(text@);
            }
            match without_prefix(text, "--remap-path-prefix=") {
                None => {
                    return None;
                },
                Some(value) => match rsplit_once(value.as_str(), '=') {
                    None => {
                        return None;
                    },
                    Some((_, destination)) => {
                        let mut normalized = "--remap-path-prefix=".to_owned();
                        normalized.append(replacement_source);
                        normalized.append("=");
                        normalized.append(destination.as_str());
                        normalized
                    },
                },
            }
        },
    };
    let normalized = copy_bytes(normalized.as_str().as_bytes());
    Some(PortableRemap { original: argument, normalized })
}

/// The paths that are named in a portable way: as the texts that are replaced.
pub struct PortablePaths {
    pub target_profile: String,
    pub build_dir: String,
    pub compiler_sysroot: Option<String>,
}

/// The portable paths as plain values.
pub type PathTexts = (Seq<char>, Seq<char>, Option<Seq<char>>);

impl PortablePaths {
    /// The portable paths as plain values.
    pub open spec fn plain(self) -> PathTexts {
        (
            self.target_profile@,
            self.build_dir@,
            crate::bytes::optional_text(self.compiler_sysroot),
        )
    }
}

/// The paths of an invocation that are named in a portable way.
pub open spec fn path_texts(
    build_dir: Seq<u8>,
    output_root: Seq<u8>,
    compiler_program: Seq<u8>,
) -> PathTexts {
    (
        lossy_text(parent_or_self(output_root)),
        lossy_text(build_dir),
        match sysroot_of(compiler_program) {
            Some(sysroot) => Some(lossy_text(sysroot)),
            None => None,
        },
    )
}

/// `value` with the portable paths replaced by the names that stand for them.
pub open spec fn normalized(paths: PathTexts, value: Seq<char>) -> Seq<char> {
    let first = replaced(
        replaced(value, paths.0, "/__cargo_artifact_cache_target_profile"@),
        paths.1,
        "/__cargo_artifact_cache_build_dir"@,
    );
    match paths.2 {
        Some(sysroot) => replaced(first, sysroot, "/__cargo_artifact_cache_compiler_sysroot"@),
        None => first,
    }
}

impl PortablePaths {
    /// The paths of an invocation that are named in a portable way.
    pub fn new(build_dir: &[u8], output_root: &[u8], compiler_program: &[u8]) -> (paths: Self)
        ensures
            paths.plain() == path_texts(build_dir@, output_root@, compiler_program@),
    {
        let sysroot = match compiler_sysroot(compiler_program) {
            Some(sysroot) => Some(text_from_utf8_lossy(sysroot.as_slice())),
            None => None,
        };
        PortablePaths {
            target_profile: text_from_utf8_lossy(path_parent_or_self(output_root).as_slice()),
            build_dir: text_from_utf8_lossy(build_dir),
            compiler_sysroot: sysroot,
        }
    }

    /// `value` with the portable paths replaced by the names that stand for
    /// them.
    pub fn normalize(&self, value: &str) -> (result: String)
        ensures
            result@ == normalized(self.plain(), value@),
    {
        let profile = replace(
            value,
            self.target_profile.as_str(),
            "/__cargo_artifact_cache_target_profile",
        );
        let build = replace(
            profile.as_str(),
            self.build_dir.as_str(),
            "/__cargo_artifact_cache_build_dir",
        );
        match &self.compiler_sysroot {
            Some(sysroot) => replace(
                build.as_str(),
                sysroot.as_str(),
                "/__cargo_artifact_cache_compiler_sysroot",
            ),
            None => build,
        }
    }
}

/// The place of the first input of the loader variable written as `path`.
/// `None` where there is no such input.
pub open spec fn place_written(
    inputs: Seq<LoaderInput>,
    variable: Seq<char>,
    path: Seq<u8>,
) -> Option<Place>
    decreases inputs.len(),
{
    if inputs.len() == 0 {
        None
    } else if inputs[0].0 == variable && same_path(inputs[0].1, path) {
        Some(inputs[0].3)
    } else {
        place_written(inputs.drop_first(), variable, path)
    }
}

/// A path of the loader variable as it is hashed: by its place below a
/// portable root, or with the portable paths replaced.
pub open spec fn hashed_loader_path(
    paths: PathTexts,
    inputs: Seq<LoaderInput>,
    variable: Seq<char>,
    path: Seq<u8>,
) -> Seq<u8> {
    match place_written(inputs, variable, path) {
        Some(Some((root, base, relative))) => joined(utf8(root_name(root)), relative),
        _ => utf8(normalized(paths, lossy_text(path))),
    }
}

/// The loader variable as it is hashed. `None` where a path cannot stand in a
/// search path.
pub open spec fn hashed_loader_value(
    paths: PathTexts,
    inputs: Seq<LoaderInput>,
    variable: Seq<char>,
    value: Seq<u8>,
) -> Option<Seq<u8>> {
    let list = split_all(value, PATH_LIST_SEPARATOR);
    path_list(
        Seq::new(list.len(), |i: int| hashed_loader_path(paths, inputs, variable, list[i])),
    )
}

/// A path of the loader variable as it is hashed.
fn hash_loader_path(
    paths: &PortablePaths,
    inputs: &Vec<CompilerLoaderInput>,
    variable: &str,
    path: &[u8],
) -> (result: Vec<u8>)
    ensures
        result@ == hashed_loader_path(
            paths.plain(),
            loader_inputs(inputs@),
            variable@,
            path@,
        ),
{
    let ghost list = loader_inputs(inputs@);
    let mut index: usize = 0;
    proof {
        assert(list.skip(0) =~= list);
    }
    while index < inputs.len()
        invariant
            index <= inputs@.len(),
            list == loader_inputs(inputs@),
            place_written(list, variable@, path@) == place_written(
                list.skip(index as int),
                variable@,
                path@,
            ),
        decreases inputs@.len() - index,
    {
        let input = &inputs[index];
        proof {
            assert(list.skip(index as int)[0] == input.input());
            assert(list.skip(index as int).drop_first() =~= list.skip(index + 1));
        }
        if text_is(input.source.as_str(), variable) && paths_equal(
            input.raw_path.as_slice(),
            path,
        ) {
            let placed: Option<(Root, &Vec<u8>)> = match &input.location {
                CompilerLoaderInputLocation::Absolute => None,
                CompilerLoaderInputLocation::CompilerSysroot { root, relative } => Some(
                    (Root::CompilerSysroot, relative),
                ),
                CompilerLoaderInputLocation::TargetProfile { root, relative } => Some(
                    (Root::TargetProfile, relative),
                ),
                CompilerLoaderInputLocation::BuildDir { root, relative } => Some(
                    (Root::BuildDir, relative),
                ),
                CompilerLoaderInputLocation::RustcCwd { root, relative } => Some(
                    (Root::RustcCwd, relative),
                ),
            };
            return match placed {
                Some((root, relative)) => join_path(
                    portable_root_name(root).as_bytes(),
                    relative.as_slice(),
                ),
                None => copy_bytes(
                    paths.normalize(text_from_utf8_lossy(path).as_str()).as_str().as_bytes(),
                ),
            };
        }
        index = index + 1;
    }
    proof {
        assert(list.skip(index as int).len() == 0);
    }
    copy_bytes(paths.normalize(text_from_utf8_lossy(path).as_str()).as_str().as_bytes())
}

/// The loader variable as it is hashed.
fn hash_loader_value(
    paths: &PortablePaths,
    inputs: &Vec<CompilerLoaderInput>,
    variable: &str,
    value: &[u8],
) -> (result: Option<Vec<u8>>)
    ensures
        optional(result) == hashed_loader_value(
            paths.plain(),
            loader_inputs(inputs@),
            variable@,
            value@,
        ),
{
    let list = split_path_list(value);
    let mut hashed: Vec<Vec<u8>> = Vec::new();
    let mut index: usize = 0;
    while index < list.len()
        invariant
            index <= list@.len(),
            hashed@.len() == index,
            forall|i: int|
                0 <= i < index ==> (#[trigger] hashed@[i])@ == hashed_loader_path(
                    paths.plain(),
                    loader_inputs(inputs@),
                    variable@,
                    list@[i]@,
                ),
        decreases list@.len() - index,
    {
        hashed.push(hash_loader_path(paths, inputs, variable, list[index].as_slice()));
        index = index + 1;
    }
    proof {
        let all = split_all(value@, PATH_LIST_SEPARATOR);
        assert(all.len() == list@.len());
        assert(byte_strings(hashed@) =~= Seq::new(
            all.len(),
            |i: int|
                hashed_loader_path(
                    paths.plain(),
                    loader_inputs(inputs@),
                    variable@,
                    all[i],
                ),
        )) by {
            assert forall|i: int| 0 <= i < all.len() implies (#[trigger] all[i]) == list@[i]@ by {
                assert(byte_strings(list@)[i] == list@[i]@);
            }
        }
    }
    join_path_list(&hashed)
}

/// The hashed form of the first remap of `argument`.
pub open spec fn remapped(remaps: Seq<PortableRemap>, argument: Seq<u8>) -> Option<Seq<u8>>
    decreases remaps.len(),
{
    if remaps.len() == 0 {
        None
    } else if remaps[0].original@ == argument {
        Some(remaps[0].normalized@)
    } else {
        remapped(remaps.drop_first(), argument)
    }
}

/// The hashed form of the first remap of `argument`.
fn find_remap(remaps: &Vec<PortableRemap>, argument: &[u8]) -> (found: Option<Vec<u8>>)
    ensures
        optional(found) == remapped(remaps@, argument@),
{
    let mut index: usize = 0;
    proof {
        assert(remaps@.skip(0) =~= remaps@);
    }
    while index < remaps.len()
        invariant
            index <= remaps@.len(),
            remapped(remaps@, argument@) == remapped(remaps@.skip(index as int), argument@),
        decreases remaps@.len() - index,
    {
        proof {
            assert(remaps@.skip(index as int)[0] == remaps@[index as int]);
            assert(remaps@.skip(index as int).drop_first() =~= remaps@.skip(index + 1));
        }
        if bytes_equal(remaps[index].original.as_slice(), argument) {
            return Some(copy_bytes(remaps[index].normalized.as_slice()));
        }
        index = index + 1;
    }
    proof {
        assert(remaps@.skip(index as int).len() == 0);
    }
    None
}

/// Whether the argument behind `flag` is a path that is named in a portable
/// way.
pub open spec fn is_path_operand(
    flag: Seq<u8>,
    value: Seq<char>,
    modeled_search_paths: Seq<Seq<u8>>,
) -> bool {
    ||| flag == utf8("--out-dir"@)
    ||| flag == utf8("--extern"@)
    ||| flag == utf8("-L"@) && (!is_crate_search(value) || modeled_search_paths.contains(
        utf8(value),
    ))
    ||| flag == utf8("-C"@) && "incremental="@.is_prefix_of(value)
}

/// Whether the argument behind `flag` is a path that is named in a portable
/// way.
fn takes_path(flag: &[u8], value: &str, modeled_search_paths: &Vec<Vec<u8>>) -> (found: bool)
    ensures
        found == is_path_operand(flag@, value@, byte_strings(modeled_search_paths@)),
{
    bytes_equal(flag, "--out-dir".as_bytes()) || bytes_equal(flag, "--extern".as_bytes()) || (
    bytes_equal(flag, "-L".as_bytes()) && (!searches_crates(value) || list_holds(
        modeled_search_paths,
        value.as_bytes(),
    ))) || (bytes_equal(flag, "-C".as_bytes()) && has_prefix(value, "incremental="))
}

/// What is hashed for the argument at `index`.
pub open spec fn hashed_argument(
    paths: PathTexts,
    arguments: Seq<Seq<u8>>,
    index: int,
    modeled_search_paths: Seq<Seq<u8>>,
    remaps: Seq<PortableRemap>,
) -> Seq<u8> {
    let value = lossy_text(arguments[index]);
    match remapped(remaps, arguments[index]) {
        Some(remap) => remap,
        None => if (index > 0 && is_path_operand(
            arguments[index - 1],
            value,
            modeled_search_paths,
        )) || "-Cincremental="@.is_prefix_of(value) {
            utf8(normalized(paths, value))
        } else {
            utf8(value)
        },
    }
}

/// What is hashed for the first `count` arguments.
pub open spec fn hashed_arguments(
    paths: PathTexts,
    arguments: Seq<Seq<u8>>,
    count: int,
    modeled_search_paths: Seq<Seq<u8>>,
    remaps: Seq<PortableRemap>,
) -> Seq<u8>
    decreases count,
{
    if count <= 0 {
        Seq::empty()
    } else {
        hashed_arguments(paths, arguments, count - 1, modeled_search_paths, remaps)
            + hashed_argument(paths, arguments, count - 1, modeled_search_paths, remaps) + utf8(
            "\0"@,
        )
    }
}

/// What is hashed for the value of a variable. `None` where the loader
/// variable has no hashed form.
pub open spec fn hashed_value(
    host: Host,
    paths: PathTexts,
    inputs: Seq<LoaderInput>,
    key: Seq<char>,
    value: Seq<u8>,
) -> Option<Seq<u8>> {
    if names_generated(key) {
        Some(utf8(normalized(paths, lossy_text(value))))
    } else if key == host.loader_variable@ {
        match hashed_loader_value(paths, inputs, key, value) {
            Some(list) => Some(utf8(lossy_text(list))),
            None => None,
        }
    } else if key == "CARGO_MANIFEST_DIR"@ {
        Some(utf8("/__cargo_artifact_cache_manifest_dir"@))
    } else if key == "CARGO_MANIFEST_PATH"@ {
        Some(utf8("/__cargo_artifact_cache_manifest_path"@))
    } else if key == "CARGO"@ {
        Some(utf8("/__cargo_artifact_cache_cargo"@))
    } else {
        Some(utf8(lossy_text(value)))
    }
}

/// What is hashed for one setting.
pub open spec fn hashed_setting(
    host: Host,
    paths: PathTexts,
    inputs: Seq<LoaderInput>,
    setting: (Seq<char>, Option<Seq<u8>>),
) -> Option<Seq<u8>> {
    match setting.1 {
        None => Some(utf8(setting.0) + utf8("="@) + utf8("\0"@)),
        Some(value) => match hashed_value(host, paths, inputs, setting.0, value) {
            Some(hashed) => Some(utf8(setting.0) + utf8("="@) + hashed + utf8("\0"@)),
            None => None,
        },
    }
}

/// What is hashed for settings, in order.
pub open spec fn hashed_settings(
    host: Host,
    paths: PathTexts,
    inputs: Seq<LoaderInput>,
    list: Seq<(Seq<char>, Option<Seq<u8>>)>,
) -> Option<Seq<u8>>
    decreases list.len(),
{
    if list.len() == 0 {
        Some(Seq::empty())
    } else {
        match (
            hashed_settings(host, paths, inputs, list.drop_last()),
            hashed_setting(host, paths, inputs, list.last()),
        ) {
            (Some(before), Some(last)) => Some(before + last),
            _ => None,
        }
    }
}

/// The variables that select the deployment target on Apple platforms.
pub open spec fn deployment_variables() -> Seq<Seq<char>> {
    seq![
        "MACOSX_DEPLOYMENT_TARGET"@,
        "IPHONEOS_DEPLOYMENT_TARGET"@,
        "WATCHOS_DEPLOYMENT_TARGET"@,
        "TVOS_DEPLOYMENT_TARGET"@,
        "XROS_DEPLOYMENT_TARGET"@,
    ]
}

/// What is hashed for the first `count` deployment variables.
pub open spec fn hashed_deployment(rustc: &Command, count: int) -> Seq<u8>
    decreases count,
{
    if count <= 0 {
        Seq::empty()
    } else {
        let key = deployment_variables()[count - 1];
        hashed_deployment(rustc, count - 1) + utf8(key) + utf8("="@) + match rustc.effective(key) {
            Some(value) => value,
            None => Seq::empty(),
        } + utf8("\0"@)
    }
}

/// Appends what is hashed for the arguments.
fn hash_arguments(
    hasher: &mut Vec<u8>,
    paths: &PortablePaths,
    rustc: &Command,
    modeled_search_paths: &Vec<Vec<u8>>,
    remaps: &Vec<PortableRemap>,
)
    ensures
        final(hasher)@ == old(hasher)@ + hashed_arguments(
            paths.plain(),
            rustc.argument_list(),
            rustc.argument_list().len() as int,
            byte_strings(modeled_search_paths@),
            remaps@,
        ),
{
    let arguments = rustc.get_args();
    let ghost list = rustc.argument_list();
    let ghost modeled = byte_strings(modeled_search_paths@);
    let ghost start = hasher@;
    let ghost plain = paths.plain();
    let mut index: usize = 0;
    proof {
        assert(list.len() == arguments@.len());
        assert(start + Seq::<u8>::empty() =~= start);
    }
    while index < arguments.len()
        invariant
            index <= arguments@.len(),
            list == byte_strings(arguments@),
            modeled == byte_strings(modeled_search_paths@),
            plain == paths.plain(),
            hasher@ == start + hashed_arguments(plain, list, index as int, modeled, remaps@),
        decreases arguments@.len() - index,
    {
        let ghost before = hasher@;
        let argument = arguments[index].as_slice();
        let value = text_from_utf8_lossy(argument);
        proof {
            assert(list[index as int] == argument@);
            if index > 0 {
                assert(list[index - 1] == arguments@[index - 1]@);
            }
        }
        let is_path = index > 0 && takes_path(
            arguments[index - 1].as_slice(),
            value.as_str(),
            modeled_search_paths,
        );
        match find_remap(remaps, argument) {
            Some(remap) => {
                push_bytes(hasher, remap.as_slice());
            },
            None => {
                if is_path || has_prefix(value.as_str(), "-Cincremental=") {
                    push_text(hasher, paths.normalize(value.as_str()).as_str());
                } else {
                    push_text(hasher, value.as_str());
                }
            },
        }
        push_text(hasher, "\0");
        proof {
            assert(hasher@ =~= before + (hashed_argument(
                plain,
                list,
                index as int,
                modeled,
                remaps@,
            ) + utf8("\0"@)));
            assert(hasher@ =~= start + hashed_arguments(
                plain,
                list,
                index + 1,
                modeled,
                remaps@,
            ));
        }
        index = index + 1;
    }
}

/// Settings without a hashed form among the first have none together.
proof fn lemma_hashed_settings_none(
    host: Host,
    paths: PathTexts,
    inputs: Seq<LoaderInput>,
    list: Seq<(Seq<char>, Option<Seq<u8>>)>,
    count: int,
)
    requires
        0 <= count <= list.len(),
        hashed_settings(host, paths, inputs, list.take(count)) is None,
    ensures
        hashed_settings(host, paths, inputs, list) is None,
    decreases list.len() - count,
{
    if count < list.len() {
        assert(list.take(count + 1).drop_last() =~= list.take(count));
        lemma_hashed_settings_none(host, paths, inputs, list, count + 1);
    } else {
        assert(list.take(count) =~= list);
    }
}

/// Appends what is hashed for one setting. Tells whether there is such.
fn hash_setting(
    hasher: &mut Vec<u8>,
    host: &Host,
    paths: &PortablePaths,
    inputs: &Vec<CompilerLoaderInput>,
    variable: &Variable,
) -> (hashed: bool)
    ensures
        match hashed_setting(
            *host,
            paths.plain(),
            loader_inputs(inputs@),
            (variable.name@, optional(variable.value)),
        ) {
            Some(bytes) => hashed && final(hasher)@ == old(hasher)@ + bytes,
            None => !hashed,
        },
{
    let ghost start = hasher@;
    let key = variable.name.as_str();
    push_text(hasher, key);
    push_text(hasher, "=");
    if let Some(value) = &variable.value {
        let value = value.as_slice();
        if is_generated_variable(key) {
            push_text(
                hasher,
                paths.normalize(text_from_utf8_lossy(value).as_str()).as_str(),
            );
        } else if text_is(key, host.loader_variable.as_str()) {
            match hash_loader_value(paths, inputs, key, value) {
                Some(list) => {
                    push_text(hasher, text_from_utf8_lossy(list.as_slice()).as_str());
                },
                None => {
                    return false;
                },
            }
        } else if text_is(key, "CARGO_MANIFEST_DIR") {
            push_text(hasher, "/__cargo_artifact_cache_manifest_dir");
        } else if text_is(key, "CARGO_MANIFEST_PATH") {
            push_text(hasher, "/__cargo_artifact_cache_manifest_path");
        } else if text_is(key, "CARGO") {
            push_text(hasher, "/__cargo_artifact_cache_cargo");
        } else {
            push_text(hasher, text_from_utf8_lossy(value).as_str());
        }
    }
    push_text(hasher, "\0");
    proof {
        let bytes = hashed_setting(
            *host,
            paths.plain(),
            loader_inputs(inputs@),
            (variable.name@, optional(variable.value)),
        )->0;
        assert(hasher@ =~= start + bytes);
    }
    true
}

/// Appends what is hashed for the settings. Tells whether there is such.
fn hash_settings(
    hasher: &mut Vec<u8>,
    host: &Host,
    paths: &PortablePaths,
    inputs: &Vec<CompilerLoaderInput>,
    rustc: &Command,
) -> (hashed: bool)
    ensures
        match hashed_settings(
            *host,
            paths.plain(),
            loader_inputs(inputs@),
            rustc.setting_list(),
        ) {
            Some(bytes) => hashed && final(hasher)@ == old(hasher)@ + bytes,
            None => !hashed,
        },
{
    let ghost start = hasher@;
    let ghost list = rustc.setting_list();
    let ghost plain = paths.plain();
    let ghost places = loader_inputs(inputs@);
    let mut index: usize = 0;
    proof {
        assert(list.take(0) =~= Seq::empty());
        assert(start + Seq::<u8>::empty() =~= start);
    }
    while index < rustc.environment.len()
        invariant
            index <= rustc.environment@.len(),
            list == rustc.setting_list(),
            plain == paths.plain(),
            places == loader_inputs(inputs@),
            hashed_settings(*host, plain, places, list.take(index as int)) is Some,
            hasher@ == start + hashed_settings(*host, plain, places, list.take(index as int))->0,
        decreases rustc.environment@.len() - index,
    {
        let ghost before = hasher@;
        proof {
            assert(list.take(index + 1).drop_last() =~= list.take(index as int));
            assert(list.take(index + 1).last() == list[index as int]);
            assert(list[index as int] == (
                rustc.environment@[index as int].name@,
                optional(rustc.environment@[index as int].value),
            ));
        }
        if !hash_setting(hasher, host, paths, inputs, &rustc.environment[index]) {
            proof {
                lemma_hashed_settings_none(*host, plain, places, list, index + 1);
            }
            return false;
        }
        proof {
            let one = hashed_setting(*host, plain, places, list[index as int])->0;
            assert(hasher@ =~= start + (hashed_settings(
                *host,
                plain,
                places,
                list.take(index as int),
            )->0 + one));
        }
        index = index + 1;
    }
    proof {
        assert(list.take(index as int) =~= list);
    }
    true
}

/// Appends what is hashed for the deployment variables.
fn hash_deployment(hasher: &mut Vec<u8>, rustc: &Command)
    ensures
        final(hasher)@ == old(hasher)@ + hashed_deployment(rustc, 5),
{
    let names: [&str; 5] = [
        "MACOSX_DEPLOYMENT_TARGET",
        "IPHONEOS_DEPLOYMENT_TARGET",
        "WATCHOS_DEPLOYMENT_TARGET",
        "TVOS_DEPLOYMENT_TARGET",
        "XROS_DEPLOYMENT_TARGET",
    ];
    let ghost start = hasher@;
    let mut index: usize = 0;
    proof {
        assert(start + Seq::<u8>::empty() =~= start);
        assert(Seq::new(5, |i: int| names@[i]@) =~= deployment_variables());
        assert forall|i: int| 0 <= i < 5 implies names@[i]@
            == #[trigger] deployment_variables()[i] by {
            assert(Seq::new(5, |i: int| names@[i]@)[i] == names@[i]@);
        }
    }
    while index < 5
        invariant
            index <= 5,
            forall|i: int| 0 <= i < 5 ==> names@[i]@ == #[trigger] deployment_variables()[i],
            hasher@ == start + hashed_deployment(rustc, index as int),
        decreases 5 - index,
    {
        let ghost before = hasher@;
        let name = names[index];
        proof {
            assert(name@ == deployment_variables()[index as int]);
        }
        push_text(hasher, name);
        push_text(hasher, "=");
        if let Some(value) = rustc.get_env(name) {
            push_bytes(hasher, value.as_slice());
        }
        push_text(hasher, "\0");
        proof {
            assert(hasher@ =~= start + hashed_deployment(rustc, index + 1));
        }
        index = index + 1;
    }
}

/// What an invocation is made of beside its command and its inputs.
pub struct KeyContext<'a> {
    pub host: &'a Host,
    pub build_dir: &'a [u8],
    pub output_root: &'a [u8],
    pub rustc_verbose_version: &'a str,
    pub compiler_identity: &'a [u8; 32],
    pub compiler_program: &'a [u8],
    pub modeled_dependency_search_paths: &'a Vec<Vec<u8>>,
    pub portable_remaps: &'a Vec<PortableRemap>,
    pub loader_input_paths: &'a Vec<CompilerLoaderInput>,
}

/// The text that is hashed for the key of an invocation, given the digests of
/// its inputs. `None` where the loader variable has no hashed form.
pub open spec fn key_text(
    context: KeyContext,
    rustc: &Command,
    loader_digest: Seq<u8>,
    action_digest: Seq<u8>,
) -> Option<Seq<u8>> {
    let paths = path_texts(
        context.build_dir@,
        context.output_root@,
        context.compiler_program@,
    );
    match hashed_settings(
        *context.host,
        paths,
        loader_inputs(context.loader_input_paths@),
        rustc.setting_list(),
    ) {
        None => None,
        Some(settings) => Some(
            utf8("cargo-artifact-cache-v8\0"@) + utf8("rustc-verbose-version\0"@) + utf8(
                context.rustc_verbose_version@,
            ) + utf8("\0"@) + utf8("rustc-compiler-identity\0"@) + context.compiler_identity@
                + utf8("\0"@) + hashed_arguments(
                paths,
                rustc.argument_list(),
                rustc.argument_list().len() as int,
                byte_strings(context.modeled_dependency_search_paths@),
                context.portable_remaps@,
            ) + settings + utf8("compiler-loader-inputs-content\0"@) + loader_digest + utf8("\0"@)
                + utf8("action-inputs-content\0"@) + action_digest + utf8("\0"@)
                + hashed_deployment(rustc, 5),
        ),
    }
}

/// The directory of the cache entries of an invocation, given the digests of
/// its inputs: named by the hexadecimal digest of the key text.
pub fn cache_entry_root(
    cache_root: &[u8],
    rustc: &Command,
    context: &KeyContext,
    loader_digest: &[u8; 32],
    action_digest: &[u8; 32],
) -> (entry_root: Option<Vec<u8>>)
    ensures
        match (entry_root, key_text(*context, rustc, loader_digest@, action_digest@)) {
            (Some(entry_root), Some(text)) => entry_root@ == joined(
                cache_root@,
                utf8(hex_digest(text)),
            ),
            (None, None) => true,
            _ => false,
        },
{
    let paths = PortablePaths::new(
        context.build_dir,
        context.output_root,
        context.compiler_program,
    );
    let mut hasher: Vec<u8> = Vec::new();
    push_text(&mut hasher, "cargo-artifact-cache-v8\0");
    push_text(&mut hasher, "rustc-verbose-version\0");
    push_text(&mut hasher, context.rustc_verbose_version);
    push_text(&mut hasher, "\0");
    push_text(&mut hasher, "rustc-compiler-identity\0");
    push_bytes(&mut hasher, context.compiler_identity);
    push_text(&mut hasher, "\0");
    hash_arguments(
        &mut hasher,
        &paths,
        rustc,
        context.modeled_dependency_search_paths,
        context.portable_remaps,
    );
    if !hash_settings(&mut hasher, context.host, &paths, context.loader_input_paths, rustc) {
        return None;
    }
    push_text(&mut hasher, "compiler-loader-inputs-content\0");
    push_bytes(&mut hasher, loader_digest);
    push_text(&mut hasher, "\0");
    push_text(&mut hasher, "action-inputs-content\0");
    push_bytes(&mut hasher, action_digest);
    push_text(&mut hasher, "\0");
    hash_deployment(&mut hasher, rustc);
    proof {
        let text = key_text(*context, rustc, loader_digest@, action_digest@)->0;
        assert(hasher@ =~= text);
    }
    let name = blake3_hex(hasher.as_slice());
    Some(join_path(cache_root, name.as_str().as_bytes()))
}

/// The key of an invocation.
pub struct ArtifactCacheKey {
    pub entry_root: Vec<u8>,
    pub loader_inputs_digest: [u8; 32],
    pub action_inputs_digest: [u8; 32],
}

/// The key of an invocation with the witness of its inputs.
pub struct PreparedArtifactCacheKey {
    pub key: ArtifactCacheKey,
    pub action_inputs_witness: ArtifactCacheActionInputWitness,
}

/// Why an invocation has no key.
#[derive(Clone, Copy, Debug, PartialEq, Eq, Structural)]
pub enum KeyError {
    LoaderPathNotJoinable,
    LoaderInputs(LoaderInputsError),
    ActionInputs(ActionInputError),
}

/// What was found on disk for a key: canonical paths, the searched directories
/// and the inputs of the invocation.
pub struct KeyInputs<'a> {
    pub disk: &'a Disk,
    pub directories: &'a Vec<Directory>,
    pub action: &'a ActionInputs,
}

/// Whether `prepared` is the key of an invocation.
pub open spec fn is_key(
    prepared: PreparedArtifactCacheKey,
    cache_root: Seq<u8>,
    rustc: &Command,
    context: KeyContext,
    loader: Seq<u8>,
    parts: (Seq<u8>, Seq<crate::action_inputs::InputMark>, bool),
) -> bool {
    let snapshot = ArtifactCacheActionInputSnapshot {
        digest: prepared.key.action_inputs_digest,
        witness: prepared.action_inputs_witness,
    };
    &&& prepared.key.loader_inputs_digest@ == blake3_digest(loader)
    &&& is_snapshot_of(snapshot, parts)
    &&& match key_text(
        context,
        rustc,
        blake3_digest(loader),
        blake3_digest(action_text(parts.0)),
    ) {
        Some(text) => prepared.key.entry_root@ == joined(cache_root, utf8(hex_digest(text))),
        None => false,
    }
}

/// The key of an invocation. The settings are hashed first, then the searched
/// directories, then the inputs: the first that fails gives the error.
pub fn rlib_cache_entry(
    cache_root: &[u8],
    rustc: &Command,
    rustc_cwd: &[u8],
    context: &KeyContext,
    identity_witness: Option<&ArtifactCacheIdentityWitness>,
    inputs: &KeyInputs,
) -> (prepared: Result<PreparedArtifactCacheKey, KeyError>)
    requires
        inputs.directories@.len() == context.loader_input_paths@.len(),
    ensures
        ({
            let loader = loader_text(
                *context.host,
                *inputs.disk,
                context.loader_input_paths@,
                inputs.directories@,
                optional_witness(identity_witness),
            );
            let action = action_gathered(rustc, rustc_cwd@, *inputs.action);
            if key_text(*context, rustc, Seq::empty(), Seq::empty()) is None {
                prepared == Err::<PreparedArtifactCacheKey, KeyError>(
                    KeyError::LoaderPathNotJoinable,
                )
            } else {
                match (loader, action) {
                    (Err(error), _) => prepared == Err::<PreparedArtifactCacheKey, KeyError>(
                        KeyError::LoaderInputs(error),
                    ),
                    (Ok(_), Err(error)) => prepared == Err::<PreparedArtifactCacheKey, KeyError>(
                        KeyError::ActionInputs(error),
                    ),
                    (Ok(loader), Ok(parts)) => prepared is Ok && is_key(
                        prepared->Ok_0,
                        cache_root@,
                        rustc,
                        *context,
                        loader,
                        parts,
                    ),
                }
            }
        }),
{
    let paths = PortablePaths::new(
        context.build_dir,
        context.output_root,
        context.compiler_program,
    );
    let mut settings: Vec<u8> = Vec::new();
    if !hash_settings(&mut settings, context.host, &paths, context.loader_input_paths, rustc) {
        return Err(KeyError::LoaderPathNotJoinable);
    }
    let loader_digest = match compiler_loader_inputs_digest(
        context.host,
        inputs.disk,
        context.loader_input_paths,
        inputs.directories,
        identity_witness,
    ) {
        Ok(digest) => digest,
        Err(error) => {
            return Err(KeyError::LoaderInputs(error));
        },
    };
    let action = match artifact_cache_action_inputs_snapshot(rustc, rustc_cwd, inputs.action) {
        Ok(snapshot) => snapshot,
        Err(error) => {
            return Err(KeyError::ActionInputs(error));
        },
    };
    match cache_entry_root(cache_root, rustc, context, &loader_digest, &action.digest) {
        Some(entry_root) => Ok(
            PreparedArtifactCacheKey {
                key: ArtifactCacheKey {
                    entry_root,
                    loader_inputs_digest: loader_digest,
                    action_inputs_digest: action.digest,
                },
                action_inputs_witness: action.witness,
            },
        ),
        None => Err(KeyError::LoaderPathNotJoinable),
    }
}

/// What is hashed for settings of a command, in order.
pub open spec fn command_settings(list: Seq<(Seq<char>, Option<Seq<u8>>)>) -> Seq<u8>
    decreases list.len(),
{
    if list.len() == 0 {
        Seq::empty()
    } else {
        command_settings(list.drop_last()) + utf8(list.last().0) + utf8("="@)
            + match list.last().1 {
            Some(value) => value,
            None => Seq::empty(),
        } + utf8("\0"@)
    }
}

/// What is hashed for arguments of a command, in order.
pub open spec fn command_arguments(list: Seq<Seq<u8>>) -> Seq<u8>
    decreases list.len(),
{
    if list.len() == 0 {
        Seq::empty()
    } else {
        command_arguments(list.drop_last()) + list.last() + utf8("\0"@)
    }
}

/// The text that is hashed for a command as it stands.
pub open spec fn command_text(rustc: &Command) -> Seq<u8> {
    utf8("cargo-artifact-cache-command-v1\0"@) + rustc.outer_program() + utf8("\0cwd\0"@)
        + match rustc.directory {
        Some(directory) => directory@,
        None => Seq::empty(),
    } + utf8("\0args\0"@) + command_arguments(rustc.argument_list()) + utf8("env\0"@)
        + command_settings(rustc.setting_list())
}

/// The digest of a command as it stands.
pub fn artifact_cache_command_digest(rustc: &Command) -> (digest: [u8; 32])
    ensures
        digest@ == blake3_digest(command_text(rustc)),
{
    let mut hasher: Vec<u8> = Vec::new();
    push_text(&mut hasher, "cargo-artifact-cache-command-v1\0");
    push_bytes(&mut hasher, rustc.get_program());
    push_text(&mut hasher, "\0cwd\0");
    if let Some(directory) = &rustc.directory {
        push_bytes(&mut hasher, directory.as_slice());
    }
    push_text(&mut hasher, "\0args\0");
    let arguments = rustc.get_args();
    let ghost list = rustc.argument_list();
    let ghost start = hasher@;
    let mut index: usize = 0;
    proof {
        assert(list.len() == arguments@.len());
        assert(list.take(0) =~= Seq::empty());
        assert(start + Seq::<u8>::empty() =~= start);
    }
    while index < arguments.len()
        invariant
            index <= arguments@.len(),
            list == byte_strings(arguments@),
            hasher@ == start + command_arguments(list.take(index as int)),
        decreases arguments@.len() - index,
    {
        proof {
            assert(list.take(index + 1).drop_last() =~= list.take(index as int));
            assert(list.take(index + 1).last() == arguments@[index as int]@);
        }
        push_bytes(&mut hasher, arguments[index].as_slice());
        push_text(&mut hasher, "\0");
        proof {
            assert(hasher@ =~= start + command_arguments(list.take(index + 1)));
        }
        index = index + 1;
    }
    proof {
        assert(list.take(index as int) =~= list);
    }
    push_text(&mut hasher, "env\0");
    let ghost middle = hasher@;
    let ghost settings = rustc.setting_list();
    let mut at: usize = 0;
    proof {
        assert(settings.take(0) =~= Seq::empty());
        assert(middle + Seq::<u8>::empty() =~= middle);
    }
    while at < rustc.environment.len()
        invariant
            at <= rustc.environment@.len(),
            settings == rustc.setting_list(),
            hasher@ == middle + command_settings(settings.take(at as int)),
        decreases rustc.environment@.len() - at,
    {
        let variable = &rustc.environment[at];
        proof {
            assert(settings.take(at + 1).drop_last() =~= settings.take(at as int));
            assert(settings.take(at + 1).last() == settings[at as int]);
            assert(settings[at as int] == (variable.name@, optional(variable.value)));
        }
        push_text(&mut hasher, variable.name.as_str());
        push_text(&mut hasher, "=");
        if let Some(value) = &variable.value {
            push_bytes(&mut hasher, value.as_slice());
        }
        push_text(&mut hasher, "\0");
        proof {
            assert(hasher@ =~= middle + command_settings(settings.take(at + 1)));
        }
        at = at + 1;
    }
    proof {
        assert(settings.take(at as int) =~= settings);
        assert(hasher@ =~= command_text(rustc));
    }
    blake3_of(hasher.as_slice())
}

} // verus!
