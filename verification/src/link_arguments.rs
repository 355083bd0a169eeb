//! What build scripts and dependencies add to an invocation.

use vstd::prelude::*;
use vstd::string::*;
use vstd::utf8::*;

use crate::arguments::flag;
use crate::arguments::lemma_no_words;
use crate::arguments::no_words;
use crate::arguments::push_flag;
use crate::arguments::push_joined_flag;
use crate::arguments::push_repeated_flag;
use crate::arguments::push_text_flag;
use crate::arguments::push_words;
use crate::arguments::repeated_flag;
use crate::arguments::text_flag;
use crate::arguments::two_texts;
use crate::arguments::Words;
use crate::bytes::copy_bytes;
use crate::bytes::utf8;
use crate::command::with_setting;
use crate::command::Command;
use crate::dependency_arguments::extern_args;
use crate::dependency_arguments::extern_words;
use crate::dependency_arguments::externs_are_unstable;
use crate::dependency_arguments::has_metadata;
use crate::dependency_arguments::lib_search_paths;
use crate::dependency_arguments::search_dirs;
use crate::dependency_arguments::search_words;
use crate::dependency_arguments::Dependency;
use crate::dependency_arguments::ExternFacts;
use crate::dependency_arguments::SearchFacts;
use crate::digest::text_from_utf8;
use crate::text::after_prefix;
use crate::text::cut_first;
use crate::text::split_once;
use crate::text::text_in;
use crate::text::texts;
use crate::text::without_prefix;
use crate::unix_path::byte_strings;
use crate::unix_path::join_path_list;
use crate::unix_path::path_has_prefix;
use crate::unix_path::path_list;
use crate::unix_path::path_starts_with;
use crate::unix_path::split_all;
use crate::unix_path::split_path_list;
use crate::unix_path::PATH_LIST_SEPARATOR;

verus! {

/// Where a library path of a build script points.
#[derive(Clone, Copy, Debug, PartialEq, Eq, Structural)]
pub enum LibraryOrigin {
    /// Into the build directory.
    CargoArtifact,
    /// Anywhere else.
    External,
}

/// A library path of a build script.
pub struct LibraryPath {
    pub origin: LibraryOrigin,
    pub path: Vec<u8>,
}

/// A linker argument of a build script, and whether it is for the target.
pub struct LinkerArgument {
    pub applies: bool,
    /// Whether it is for dynamic libraries with a C interface, to which it
    /// applies from dependencies too.
    pub is_cdylib: bool,
    pub argument: String,
}

/// A variable that a build script sets.
pub struct ScriptVariable {
    pub name: String,
    pub value: String,
}

/// What a build script printed.
pub struct ScriptOutput {
    pub library_paths: Vec<LibraryPath>,
    pub library_links: Vec<String>,
    pub linker_args: Vec<LinkerArgument>,
    pub cfgs: Vec<String>,
    pub check_cfgs: Vec<String>,
    pub env: Vec<ScriptVariable>,
}

/// A build script whose libraries are linked.
pub struct ScriptLink {
    /// Whether it is the script of the package that is compiled.
    pub is_current: bool,
    /// Its output. Absent where it is not known.
    pub output: Option<ScriptOutput>,
}

/// A build script did not leave an output.
#[derive(Clone, Copy, Debug, PartialEq, Eq, Structural)]
pub enum ScriptError {
    MissingOutput,
    /// The search path for libraries cannot be written.
    UnwritablePath,
}

/// The paths of one origin.
pub open spec fn paths_of(list: Seq<LibraryPath>, origin: LibraryOrigin) -> Words
    decreases list.len(),
{
    if list.len() == 0 {
        no_words()
    } else if list.last().origin == origin {
        paths_of(list.drop_last(), origin) + flag("-L"@, list.last().path@)
    } else {
        paths_of(list.drop_last(), origin)
    }
}

/// The paths of one origin that scripts have.
pub open spec fn script_paths(scripts: Seq<ScriptLink>, origin: LibraryOrigin) -> Words
    decreases scripts.len(),
{
    if scripts.len() == 0 {
        no_words()
    } else {
        script_paths(scripts.drop_last(), origin) + paths_of(
            scripts.last().output->Some_0.library_paths@,
            origin,
        )
    }
}

/// The linker arguments of a script that are passed on.
pub open spec fn linker_words(arguments: Seq<LinkerArgument>, is_current: bool) -> Words
    decreases arguments.len(),
{
    if arguments.len() == 0 {
        no_words()
    } else {
        let before = linker_words(arguments.drop_last(), is_current);
        let last = arguments.last();
        if last.applies && (is_current || last.is_cdylib) {
            before + text_flag("-C"@, "link-arg="@ + last.argument@)
        } else {
            before
        }
    }
}

/// The libraries and linker arguments of a script.
pub open spec fn script_link_words(script: ScriptLink, pass_l_flag: bool) -> Words {
    let output = script.output->Some_0;
    (if script.is_current && pass_l_flag {
        repeated_flag("-l"@, texts(output.library_links@))
    } else {
        no_words()
    }) + linker_words(output.linker_args@, script.is_current)
}

/// The libraries and linker arguments of scripts.
pub open spec fn scripts_link_words(scripts: Seq<ScriptLink>, pass_l_flag: bool) -> Words
    decreases scripts.len(),
{
    if scripts.len() == 0 {
        no_words()
    } else {
        scripts_link_words(scripts.drop_last(), pass_l_flag) + script_link_words(
            scripts.last(),
            pass_l_flag,
        )
    }
}

/// Whether all scripts left outputs.
pub open spec fn have_outputs(scripts: Seq<ScriptLink>) -> bool {
    forall|i: int| 0 <= i < scripts.len() ==> (#[trigger] scripts[i]).output is Some
}

/// The arguments for native libraries: paths into the build directory come
/// before all others, and within each kind the order of the scripts stays.
pub open spec fn native_words(scripts: Seq<ScriptLink>, pass_l_flag: bool) -> Words {
    script_paths(scripts, LibraryOrigin::CargoArtifact) + script_paths(
        scripts,
        LibraryOrigin::External,
    ) + scripts_link_words(scripts, pass_l_flag)
}

/// Adds the paths of one origin.
fn push_paths(out: &mut Vec<Vec<u8>>, list: &Vec<LibraryPath>, origin: LibraryOrigin)
    ensures
        byte_strings(final(out)@) == byte_strings(old(out)@) + paths_of(list@, origin),
{
    let ghost before = byte_strings(out@);
    let mut index: usize = 0;
    proof {
        assert(list@.take(0) =~= Seq::empty());
        lemma_no_words(before);
    }
    while index < list.len()
        invariant
            index <= list@.len(),
            byte_strings(out@) == before + paths_of(list@.take(index as int), origin),
        decreases list@.len() - index,
    {
        proof {
            assert(list@.take(index + 1).drop_last() =~= list@.take(index as int));
            assert(list@.take(index + 1).last() == list@[index as int]);
        }
        if list[index].origin == origin {
            push_flag(out, "-L", list[index].path.as_slice());
            proof {
                assert(byte_strings(out@) =~= before + paths_of(list@.take(index + 1), origin));
            }
        }
        index = index + 1;
    }
    proof {
        assert(list@.take(index as int) =~= list@);
    }
}

/// Adds the paths of one origin that scripts have.
fn push_script_paths(out: &mut Vec<Vec<u8>>, scripts: &Vec<ScriptLink>, origin: LibraryOrigin)
    requires
        have_outputs(scripts@),
    ensures
        byte_strings(final(out)@) == byte_strings(old(out)@) + script_paths(scripts@, origin),
{
    let ghost before = byte_strings(out@);
    let mut index: usize = 0;
    proof {
        assert(scripts@.take(0) =~= Seq::empty());
        lemma_no_words(before);
    }
    while index < scripts.len()
        invariant
            have_outputs(scripts@),
            index <= scripts@.len(),
            byte_strings(out@) == before + script_paths(scripts@.take(index as int), origin),
        decreases scripts@.len() - index,
    {
        proof {
            assert(scripts@.take(index + 1).drop_last() =~= scripts@.take(index as int));
            assert(scripts@.take(index + 1).last() == scripts@[index as int]);
        }
        match &scripts[index].output {
            Some(output) => {
                push_paths(out, &output.library_paths, origin);
                proof {
                    assert(byte_strings(out@) =~= before + script_paths(
                        scripts@.take(index + 1),
                        origin,
                    ));
                }
            },
            None => {},
        }
        index = index + 1;
    }
    proof {
        assert(scripts@.take(index as int) =~= scripts@);
    }
}

/// Adds the linker arguments of a script that are passed on.
fn push_linker_arguments(out: &mut Vec<Vec<u8>>, list: &Vec<LinkerArgument>, is_current: bool)
    ensures
        byte_strings(final(out)@) == byte_strings(old(out)@) + linker_words(list@, is_current),
{
    let ghost before = byte_strings(out@);
    let mut index: usize = 0;
    proof {
        assert(list@.take(0) =~= Seq::empty());
        lemma_no_words(before);
    }
    while index < list.len()
        invariant
            index <= list@.len(),
            byte_strings(out@) == before + linker_words(list@.take(index as int), is_current),
        decreases list@.len() - index,
    {
        proof {
            assert(list@.take(index + 1).drop_last() =~= list@.take(index as int));
            assert(list@.take(index + 1).last() == list@[index as int]);
        }
        if list[index].applies && (is_current || list[index].is_cdylib) {
            push_joined_flag(out, "-C", "link-arg=", list[index].argument.as_str());
            proof {
                assert(byte_strings(out@) =~= before + linker_words(
                    list@.take(index + 1),
                    is_current,
                ));
            }
        }
        index = index + 1;
    }
    proof {
        assert(list@.take(index as int) =~= list@);
    }
}

/// Adds the arguments for native libraries.
pub fn add_native_deps(out: &mut Vec<Vec<u8>>, scripts: &Vec<ScriptLink>, pass_l_flag: bool) -> (result:
    Result<(), ScriptError>)
    ensures
        match result {
            Ok(_) => have_outputs(scripts@) && byte_strings(final(out)@) == byte_strings(old(out)@)
                + native_words(scripts@, pass_l_flag),
            Err(error) => !have_outputs(scripts@) && error == ScriptError::MissingOutput
                && final(out)@ == old(out)@,
        },
{
    let ghost before = byte_strings(out@);
    let mut checked: usize = 0;
    while checked < scripts.len()
        invariant
            checked <= scripts@.len(),
            out@ == old(out)@,
            forall|i: int| 0 <= i < checked ==> (#[trigger] scripts@[i]).output is Some,
        decreases scripts@.len() - checked,
    {
        if scripts[checked].output.is_none() {
            return Err(ScriptError::MissingOutput);
        }
        checked = checked + 1;
    }
    push_script_paths(out, scripts, LibraryOrigin::CargoArtifact);
    push_script_paths(out, scripts, LibraryOrigin::External);
    let ghost middle = byte_strings(out@);
    let mut index: usize = 0;
    proof {
        assert(scripts@.take(0) =~= Seq::empty());
        lemma_no_words(middle);
    }
    while index < scripts.len()
        invariant
            have_outputs(scripts@),
            index <= scripts@.len(),
            byte_strings(out@) == middle + scripts_link_words(
                scripts@.take(index as int),
                pass_l_flag,
            ),
        decreases scripts@.len() - index,
    {
        let ghost so_far = byte_strings(out@);
        proof {
            assert(scripts@.take(index + 1).drop_last() =~= scripts@.take(index as int));
            assert(scripts@.take(index + 1).last() == scripts@[index as int]);
        }
        match &scripts[index].output {
            Some(output) => {
                if scripts[index].is_current && pass_l_flag {
                    push_repeated_flag(out, "-l", &output.library_links);
                }
                push_linker_arguments(out, &output.linker_args, scripts[index].is_current);
                proof {
                    assert(byte_strings(out@) =~= so_far + script_link_words(
                        scripts@[index as int],
                        pass_l_flag,
                    ));
                    assert(byte_strings(out@) =~= middle + scripts_link_words(
                        scripts@.take(index + 1),
                        pass_l_flag,
                    ));
                }
            },
            None => {},
        }
        index = index + 1;
    }
    proof {
        assert(scripts@.take(index as int) =~= scripts@);
        assert(byte_strings(out@) =~= before + native_words(scripts@, pass_l_flag));
    }
    Ok(())
}

/// The directory that a search argument names, without the kind of library in
/// front of it.
pub open spec fn dynamic_path(path: Seq<u8>) -> Seq<u8> {
    if !valid_utf8(path) {
        path
    } else {
        match cut_first(decode_utf8(path), '=') {
            Some((kind, rest)) => if kind == "native"@ || kind == "crate"@ || kind == "dependency"@
                || kind == "framework"@ || kind == "all"@ {
                utf8(rest)
            } else {
                path
            },
            None => path,
        }
    }
}

/// The directory that a search argument names, without the kind of library in
/// front of it.
pub fn get_dynamic_search_path(path: &[u8]) -> (directory: Vec<u8>)
    ensures
        directory@ == dynamic_path(path@),
{
    match text_from_utf8(path) {
        None => copy_bytes(path),
        Some(text) => {
            proof {
                encode_utf8_decode_utf8(text@);
            }
            match split_once(text, '=') {
                None => copy_bytes(path),
                Some((kind, rest)) => {
                    let kinds: [&str; 5] = ["native", "crate", "dependency", "framework", "all"];
                    proof {
                        assert(kinds@ =~= seq![
                            "native",
                            "crate",
                            "dependency",
                            "framework",
                            "all",
                        ]);
                        assert(kinds@[0]@ == "native"@);
                        assert(kinds@[1]@ == "crate"@);
                        assert(kinds@[2]@ == "dependency"@);
                        assert(kinds@[3]@ == "framework"@);
                        assert(kinds@[4]@ == "all"@);
                    }
                    if text_in(kind.as_str(), &kinds) {
                        copy_bytes(rest.as_str().as_bytes())
                    } else {
                        copy_bytes(path)
                    }
                },
            }
        },
    }
}

/// The directories of search arguments that are below `root`.
pub open spec fn dynamic_paths(paths: Seq<LibraryPath>, root: Seq<u8>) -> Seq<Seq<u8>>
    decreases paths.len(),
{
    if paths.len() == 0 {
        Seq::empty()
    } else {
        let before = dynamic_paths(paths.drop_last(), root);
        let directory = dynamic_path(paths.last().path@);
        if path_starts_with(directory, root) {
            before.push(directory)
        } else {
            before
        }
    }
}

/// Adds the directories of search arguments that are below `root`. Others are
/// likely spurious, and clash with libraries of the system.
pub fn filter_dynamic_search_path(out: &mut Vec<Vec<u8>>, paths: &Vec<LibraryPath>, root: &[u8])
    ensures
        byte_strings(final(out)@) == byte_strings(old(out)@) + dynamic_paths(paths@, root@),
{
    let ghost before = byte_strings(out@);
    let mut index: usize = 0;
    proof {
        assert(paths@.take(0) =~= Seq::empty());
        lemma_no_words(before);
    }
    while index < paths.len()
        invariant
            index <= paths@.len(),
            byte_strings(out@) == before + dynamic_paths(paths@.take(index as int), root@),
        decreases paths@.len() - index,
    {
        let ghost so_far = out@;
        proof {
            assert(paths@.take(index + 1).drop_last() =~= paths@.take(index as int));
            assert(paths@.take(index + 1).last() == paths@[index as int]);
        }
        let directory = get_dynamic_search_path(paths[index].path.as_slice());
        if path_has_prefix(directory.as_slice(), root) {
            let ghost plain = directory@;
            out.push(directory);
            proof {
                assert(byte_strings(out@) =~= byte_strings(so_far).push(plain));
                assert(byte_strings(out@) =~= before + dynamic_paths(paths@.take(index + 1), root@));
            }
        }
        index = index + 1;
    }
    proof {
        assert(paths@.take(index as int) =~= paths@);
    }
}

/// The directories that plugins add to the search path for libraries.
pub open spec fn plugin_paths(plugins: Seq<ScriptLink>, root: Seq<u8>) -> Seq<Seq<u8>>
    decreases plugins.len(),
{
    if plugins.len() == 0 {
        Seq::empty()
    } else {
        plugin_paths(plugins.drop_last(), root) + dynamic_paths(
            plugins.last().output->Some_0.library_paths@,
            root,
        )
    }
}

/// The search path of an invocation with what plugins add.
pub open spec fn plugin_search_path(
    rustc: &Command,
    variable: Seq<char>,
    plugins: Seq<ScriptLink>,
    root: Seq<u8>,
) -> Option<Seq<u8>> {
    let current = match rustc.effective(variable) {
        Some(value) => value,
        None => Seq::empty(),
    };
    path_list(split_all(current, PATH_LIST_SEPARATOR) + plugin_paths(plugins, root))
}

/// Adds the directories of plugins to the search path for libraries.
pub fn add_plugin_deps(
    rustc: &mut Command,
    variable: &str,
    plugins: &Vec<ScriptLink>,
    root: &[u8],
) -> (result: Result<(), ScriptError>)
    requires
        old(rustc).well_formed(),
    ensures
        final(rustc).well_formed(),
        match result {
            Ok(_) => have_outputs(plugins@) && plugin_search_path(
                old(rustc),
                variable@,
                plugins@,
                root@,
            ) is Some && final(rustc).setting_list() == with_setting(
                old(rustc).setting_list(),
                variable@,
                plugin_search_path(old(rustc), variable@, plugins@, root@),
            ),
            Err(ScriptError::MissingOutput) => !have_outputs(plugins@) && *final(rustc) == *old(
                rustc,
            ),
            Err(ScriptError::UnwritablePath) => have_outputs(plugins@) && plugin_search_path(
                old(rustc),
                variable@,
                plugins@,
                root@,
            ) is None && *final(rustc) == *old(rustc),
        },
        final(rustc).wrappers == old(rustc).wrappers,
        final(rustc).program == old(rustc).program,
        final(rustc).arguments == old(rustc).arguments,
        final(rustc).directory == old(rustc).directory,
        final(rustc).inherited == old(rustc).inherited,
        final(rustc).retry_with_argfile == old(rustc).retry_with_argfile,
{
    let current = match rustc.get_env(variable) {
        Some(value) => value,
        None => Vec::new(),
    };
    let mut paths = split_path_list(current.as_slice());
    let ghost start = byte_strings(paths@);
    proof {
        let value = match rustc.effective(variable@) {
            Some(value) => value,
            None => Seq::empty(),
        };
        assert(current@ =~= value);
    }
    let mut index: usize = 0;
    proof {
        assert(plugins@.take(0) =~= Seq::empty());
        assert(start + plugin_paths(plugins@.take(0), root@) =~= start);
    }
    while index < plugins.len()
        invariant
            index <= plugins@.len(),
            *rustc == *old(rustc),
            rustc.well_formed(),
            byte_strings(paths@) == start + plugin_paths(plugins@.take(index as int), root@),
            forall|i: int| 0 <= i < index ==> (#[trigger] plugins@[i]).output is Some,
        decreases plugins@.len() - index,
    {
        proof {
            assert(plugins@.take(index + 1).drop_last() =~= plugins@.take(index as int));
            assert(plugins@.take(index + 1).last() == plugins@[index as int]);
        }
        match &plugins[index].output {
            None => {
                return Err(ScriptError::MissingOutput);
            },
            Some(output) => {
                filter_dynamic_search_path(&mut paths, &output.library_paths, root);
                proof {
                    assert(byte_strings(paths@) =~= start + plugin_paths(
                        plugins@.take(index + 1),
                        root@,
                    ));
                }
            },
        }
        index = index + 1;
    }
    proof {
        assert(plugins@.take(index as int) =~= plugins@);
    }
    match join_path_list(&paths) {
        None => Err(ScriptError::UnwritablePath),
        Some(path) => {
            rustc.env(variable, path.as_slice());
            Ok(())
        },
    }
}

/// The conditions that scripts set. A script without an output sets none.
pub open spec fn custom_words(scripts: Seq<ScriptLink>) -> Words
    decreases scripts.len(),
{
    if scripts.len() == 0 {
        no_words()
    } else {
        custom_words(scripts.drop_last()) + match scripts.last().output {
            Some(output) => repeated_flag("--cfg"@, texts(output.cfgs@)) + repeated_flag(
                "--check-cfg"@,
                texts(output.check_cfgs@),
            ),
            None => no_words(),
        }
    }
}

/// Settings with those of a script.
pub open spec fn with_variables(
    list: crate::sld::Settings,
    variables: Seq<ScriptVariable>,
) -> crate::sld::Settings
    decreases variables.len(),
{
    if variables.len() == 0 {
        list
    } else {
        with_setting(
            with_variables(list, variables.drop_last()),
            variables.last().name@,
            Some(utf8(variables.last().value@)),
        )
    }
}

/// Settings with those of scripts.
pub open spec fn with_scripts(
    list: crate::sld::Settings,
    scripts: Seq<ScriptLink>,
) -> crate::sld::Settings
    decreases scripts.len(),
{
    if scripts.len() == 0 {
        list
    } else {
        let before = with_scripts(list, scripts.drop_last());
        match scripts.last().output {
            Some(output) => with_variables(before, output.env@),
            None => before,
        }
    }
}

/// Sets the variables of a script.
fn set_variables(rustc: &mut Command, variables: &Vec<ScriptVariable>)
    requires
        old(rustc).well_formed(),
    ensures
        final(rustc).well_formed(),
        final(rustc).setting_list() == with_variables(old(rustc).setting_list(), variables@),
        final(rustc).wrappers == old(rustc).wrappers,
        final(rustc).program == old(rustc).program,
        final(rustc).arguments == old(rustc).arguments,
        final(rustc).directory == old(rustc).directory,
        final(rustc).inherited == old(rustc).inherited,
        final(rustc).retry_with_argfile == old(rustc).retry_with_argfile,
{
    let ghost before = rustc.setting_list();
    let mut index: usize = 0;
    proof {
        assert(variables@.take(0) =~= Seq::empty());
    }
    while index < variables.len()
        invariant
            index <= variables@.len(),
            rustc.well_formed(),
            before == old(rustc).setting_list(),
            rustc.setting_list() == with_variables(before, variables@.take(index as int)),
            rustc.wrappers == old(rustc).wrappers,
            rustc.program == old(rustc).program,
            rustc.arguments == old(rustc).arguments,
            rustc.directory == old(rustc).directory,
            rustc.inherited == old(rustc).inherited,
            rustc.retry_with_argfile == old(rustc).retry_with_argfile,
        decreases variables@.len() - index,
    {
        proof {
            assert(variables@.take(index + 1).drop_last() =~= variables@.take(index as int));
            assert(variables@.take(index + 1).last() == variables@[index as int]);
        }
        rustc.env(variables[index].name.as_str(), variables[index].value.as_str().as_bytes());
        index = index + 1;
    }
    proof {
        assert(variables@.take(index as int) =~= variables@);
    }
}

/// Adds the conditions and variables that scripts set.
pub fn add_custom_flags(rustc: &mut Command, scripts: &Vec<ScriptLink>)
    requires
        old(rustc).well_formed(),
    ensures
        final(rustc).well_formed(),
        byte_strings(final(rustc).arguments@) == byte_strings(old(rustc).arguments@) + custom_words(
            scripts@,
        ),
        final(rustc).setting_list() == with_scripts(old(rustc).setting_list(), scripts@),
        final(rustc).wrappers == old(rustc).wrappers,
        final(rustc).program == old(rustc).program,
        final(rustc).directory == old(rustc).directory,
        final(rustc).inherited == old(rustc).inherited,
        final(rustc).retry_with_argfile == old(rustc).retry_with_argfile,
{
    let ghost words = byte_strings(rustc.arguments@);
    let ghost settings = rustc.setting_list();
    let mut index: usize = 0;
    proof {
        assert(scripts@.take(0) =~= Seq::empty());
        lemma_no_words(words);
    }
    while index < scripts.len()
        invariant
            index <= scripts@.len(),
            rustc.well_formed(),
            words == byte_strings(old(rustc).arguments@),
            settings == old(rustc).setting_list(),
            byte_strings(rustc.arguments@) == words + custom_words(scripts@.take(index as int)),
            rustc.setting_list() == with_scripts(settings, scripts@.take(index as int)),
            rustc.wrappers == old(rustc).wrappers,
            rustc.program == old(rustc).program,
            rustc.directory == old(rustc).directory,
            rustc.inherited == old(rustc).inherited,
            rustc.retry_with_argfile == old(rustc).retry_with_argfile,
        decreases scripts@.len() - index,
    {
        let ghost so_far = byte_strings(rustc.arguments@);
        let ghost list = rustc.setting_list();
        proof {
            assert(scripts@.take(index + 1).drop_last() =~= scripts@.take(index as int));
            assert(scripts@.take(index + 1).last() == scripts@[index as int]);
        }
        match &scripts[index].output {
            Some(output) => {
                push_repeated_flag(&mut rustc.arguments, "--cfg", &output.cfgs);
                push_repeated_flag(&mut rustc.arguments, "--check-cfg", &output.check_cfgs);
                proof {
                    assert(rustc.setting_list() == list);
                    assert(byte_strings(rustc.arguments@) =~= words + custom_words(
                        scripts@.take(index + 1),
                    ));
                }
                set_variables(rustc, &output.env);
            },
            None => {
                proof {
                    lemma_no_words(so_far);
                    assert(byte_strings(rustc.arguments@) =~= words + custom_words(
                        scripts@.take(index + 1),
                    ));
                }
            },
        }
        index = index + 1;
    }
    proof {
        assert(scripts@.take(index as int) =~= scripts@);
    }
}

/// A crate that should be linkable but is not: the first library among the
/// dependencies, where none can be linked.
pub open spec fn unlinkable(dependencies: Seq<Dependency>) -> Option<Seq<char>> {
    if exists|i: int|
        0 <= i < dependencies.len() && !(#[trigger] dependencies[i]).is_doc
            && dependencies[i].is_linkable {
        None
    } else {
        first_library(dependencies)
    }
}

/// The first library among the dependencies.
pub open spec fn first_library(dependencies: Seq<Dependency>) -> Option<Seq<char>>
    decreases dependencies.len(),
{
    if dependencies.len() == 0 {
        None
    } else if !dependencies[0].is_doc && dependencies[0].is_lib && !dependencies[0].is_artifact {
        Some(dependencies[0].crate_name@)
    } else {
        first_library(dependencies.drop_first())
    }
}

/// What users are told of a dependency that cannot be linked: a title, two notes
/// and a help.
pub struct UnlinkableReport {
    pub title: String,
    pub effect: String,
    pub outlook: &'static str,
    pub help: String,
}

/// What users are told of a dependency that cannot be linked to a crate.
pub fn unlinkable_report(dependency: &str, name: &str) -> (report: UnlinkableReport)
    ensures
        report.title@ == "the package `"@ + dependency@ + "` provides no linkable target"@,
        report.effect@ == "this might cause `"@ + name@ + "` to fail compilation"@,
        report.outlook@ == "this warning might turn into a hard error in the future"@,
        report.help@ == "consider adding 'dylib' or 'rlib' to key 'crate-type' in `"@ + dependency@
            + "`'s Cargo.toml"@,
{
    let mut title = "the package `".to_owned();
    title.append(dependency);
    title.append("` provides no linkable target");
    let mut effect = "this might cause `".to_owned();
    effect.append(name);
    effect.append("` to fail compilation");
    let mut help = "consider adding 'dylib' or 'rlib' to key 'crate-type' in `".to_owned();
    help.append(dependency);
    help.append("`'s Cargo.toml");
    UnlinkableReport {
        title,
        effect,
        outlook: "this warning might turn into a hard error in the future",
        help,
    }
}

/// A crate that should be linkable but is not.
pub fn find_unlinkable(dependencies: &Vec<Dependency>) -> (name: Option<String>)
    ensures
        crate::bytes::optional_text(name) == unlinkable(dependencies@),
{
    let mut index: usize = 0;
    while index < dependencies.len()
        invariant
            index <= dependencies@.len(),
            forall|i: int|
                0 <= i < index ==> (#[trigger] dependencies@[i]).is_doc
                    || !dependencies@[i].is_linkable,
        decreases dependencies@.len() - index,
    {
        if !dependencies[index].is_doc && dependencies[index].is_linkable {
            return None;
        }
        index = index + 1;
    }
    let mut at: usize = 0;
    proof {
        assert(dependencies@.skip(0) =~= dependencies@);
    }
    while at < dependencies.len()
        invariant
            at <= dependencies@.len(),
            unlinkable(dependencies@) == first_library(dependencies@.skip(at as int)),
        decreases dependencies@.len() - at,
    {
        proof {
            assert(dependencies@.skip(at as int)[0] == dependencies@[at as int]);
            assert(dependencies@.skip(at as int).drop_first() =~= dependencies@.skip(at + 1));
        }
        if !dependencies[at].is_doc && dependencies[at].is_lib && !dependencies[at].is_artifact {
            return Some(dependencies[at].crate_name.as_str().to_owned());
        }
        at = at + 1;
    }
    proof {
        assert(dependencies@.skip(at as int).len() == 0);
    }
    None
}

/// The variable that tells where a build script writes to.
pub open spec fn out_dir_variable(target_name: Seq<char>) -> Seq<char> {
    match after_prefix(target_name, "build-script-"@) {
        Some(rest) => rest + "_OUT_DIR"@,
        None => target_name + "_OUT_DIR"@,
    }
}

/// Settings with a variable for each build script.
pub open spec fn with_out_dirs(
    list: crate::sld::Settings,
    dependencies: Seq<Dependency>,
) -> crate::sld::Settings
    decreases dependencies.len(),
{
    if dependencies.len() == 0 {
        list
    } else {
        let before = with_out_dirs(list, dependencies.drop_last());
        let last = dependencies.last();
        if last.is_run_custom_build {
            with_setting(before, out_dir_variable(last.name@), Some(last.out_dir@))
        } else {
            before
        }
    }
}

/// Where the first build script writes to.
pub open spec fn first_out_dir(dependencies: Seq<Dependency>) -> Option<Seq<u8>>
    decreases dependencies.len(),
{
    if dependencies.len() == 0 {
        None
    } else if dependencies[0].is_run_custom_build {
        Some(dependencies[0].out_dir@)
    } else {
        first_out_dir(dependencies.drop_first())
    }
}

/// The settings for dependencies: where the first build script writes to, where
/// each does if a package may have several, and where artifacts are.
pub open spec fn dependency_settings(
    list: crate::sld::Settings,
    dependencies: Seq<Dependency>,
    multiple_build_scripts: bool,
    artifacts: Seq<ScriptVariable>,
) -> crate::sld::Settings {
    let first = match first_out_dir(dependencies) {
        Some(directory) => with_setting(list, "OUT_DIR"@, Some(directory)),
        None => list,
    };
    let each = if multiple_build_scripts {
        with_out_dirs(first, dependencies)
    } else {
        first
    };
    with_variables(each, artifacts)
}

/// The arguments for dependencies.
pub open spec fn dependency_words(
    search: SearchFacts,
    unit: int,
    facts: ExternFacts,
    dependencies: Seq<Dependency>,
) -> Words {
    search_words(search_dirs(search, unit)) + extern_words(facts, dependencies)
        + if externs_are_unstable(facts, dependencies) {
        text_flag("-Z"@, "unstable-options"@)
    } else {
        no_words()
    }
}

/// Sets a variable for each build script.
fn set_out_dirs(command: &mut Command, dependencies: &Vec<Dependency>)
    requires
        old(command).well_formed(),
    ensures
        final(command).well_formed(),
        final(command).setting_list() == with_out_dirs(old(command).setting_list(), dependencies@),
        final(command).wrappers == old(command).wrappers,
        final(command).program == old(command).program,
        final(command).arguments == old(command).arguments,
        final(command).directory == old(command).directory,
        final(command).inherited == old(command).inherited,
        final(command).retry_with_argfile == old(command).retry_with_argfile,
{
    let ghost before = command.setting_list();
    let mut index: usize = 0;
    proof {
        assert(dependencies@.take(0) =~= Seq::empty());
    }
    while index < dependencies.len()
        invariant
            index <= dependencies@.len(),
            command.well_formed(),
            before == old(command).setting_list(),
            command.setting_list() == with_out_dirs(before, dependencies@.take(index as int)),
            command.wrappers == old(command).wrappers,
            command.program == old(command).program,
            command.arguments == old(command).arguments,
            command.directory == old(command).directory,
            command.inherited == old(command).inherited,
            command.retry_with_argfile == old(command).retry_with_argfile,
        decreases dependencies@.len() - index,
    {
        proof {
            assert(dependencies@.take(index + 1).drop_last() =~= dependencies@.take(
                index as int,
            ));
            assert(dependencies@.take(index + 1).last() == dependencies@[index as int]);
        }
        if dependencies[index].is_run_custom_build {
            let target_name = dependencies[index].name.as_str();
            let variable = match without_prefix(target_name, "build-script-") {
                Some(rest) => two_texts(rest.as_str(), "_OUT_DIR"),
                None => two_texts(target_name, "_OUT_DIR"),
            };
            command.env(variable.as_str(), dependencies[index].out_dir.as_slice());
        }
        index = index + 1;
    }
    proof {
        assert(dependencies@.take(index as int) =~= dependencies@);
    }
}

/// The position of the first build script, or the number of dependencies.
fn find_script(dependencies: &Vec<Dependency>) -> (at: usize)
    ensures
        at <= dependencies@.len(),
        at < dependencies@.len() ==> first_out_dir(dependencies@) == Some(
            dependencies@[at as int].out_dir@,
        ),
        at == dependencies@.len() ==> first_out_dir(dependencies@) is None,
{
    let mut at: usize = 0;
    proof {
        assert(dependencies@.skip(0) =~= dependencies@);
    }
    while at < dependencies.len()
        invariant
            at <= dependencies@.len(),
            first_out_dir(dependencies@) == first_out_dir(dependencies@.skip(at as int)),
        decreases dependencies@.len() - at,
    {
        proof {
            assert(dependencies@.skip(at as int)[0] == dependencies@[at as int]);
            assert(dependencies@.skip(at as int).drop_first() =~= dependencies@.skip(at + 1));
        }
        if dependencies[at].is_run_custom_build {
            return at;
        }
        at = at + 1;
    }
    proof {
        assert(dependencies@.skip(at as int).len() == 0);
    }
    at
}

/// Adds arguments and settings for dependencies.
pub fn build_deps_args(
    command: &mut Command,
    search: &SearchFacts,
    unit: usize,
    facts: &ExternFacts,
    dependencies: &Vec<Dependency>,
    multiple_build_scripts: bool,
    artifacts: &Vec<ScriptVariable>,
)
    requires
        old(command).well_formed(),
        search.well_formed(),
        unit < search.deps_dirs@.len(),
        has_metadata(dependencies@),
    ensures
        final(command).well_formed(),
        byte_strings(final(command).arguments@) == byte_strings(old(command).arguments@)
            + dependency_words(*search, unit as int, *facts, dependencies@),
        final(command).setting_list() == dependency_settings(
            old(command).setting_list(),
            dependencies@,
            multiple_build_scripts,
            artifacts@,
        ),
        final(command).wrappers == old(command).wrappers,
        final(command).program == old(command).program,
        final(command).directory == old(command).directory,
        final(command).inherited == old(command).inherited,
        final(command).retry_with_argfile == old(command).retry_with_argfile,
{
    let ghost before = byte_strings(command.arguments@);
    let ghost settings = command.setting_list();
    let paths = lib_search_paths(search, unit);
    push_words(&mut command.arguments, &paths);
    proof {
        assert(command.setting_list() == settings);
    }
    let at: usize = find_script(dependencies);
    if at < dependencies.len() {
        command.env("OUT_DIR", dependencies[at].out_dir.as_slice());
    }
    if multiple_build_scripts {
        set_out_dirs(command, dependencies);
    }
    let ghost list = command.setting_list();
    let (words, unstable) = extern_args(facts, dependencies);
    push_words(&mut command.arguments, &words);
    proof {
        assert(command.setting_list() == list);
    }
    set_variables(command, artifacts);
    let ghost last = command.setting_list();
    if unstable {
        push_text_flag(&mut command.arguments, "-Z", "unstable-options");
    }
    proof {
        assert(command.setting_list() == last);
        assert(byte_strings(command.arguments@) =~= before + dependency_words(
            *search,
            unit as int,
            *facts,
            dependencies@,
        ));
    }
}

} // verus!
