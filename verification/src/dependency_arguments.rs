//! Arguments for the crates that a unit depends on.

use vstd::prelude::*;
use vstd::string::*;
use vstd::utf8::*;

use crate::arguments::flag;
use crate::arguments::lemma_no_words;
use crate::arguments::no_words;
use crate::arguments::push_raw_flag;
use crate::arguments::push_text_flag;
use crate::arguments::text_flag;
use crate::arguments::Words;
use crate::bytes::copy_bytes;
use crate::bytes::utf8;
use crate::ordering::lemma_sorted_keys;
use crate::ordering::order_of;
use crate::ordering::sort;
use crate::ordering::sorted;
use crate::ordering::Ranked;
use crate::outputs::FileFlavor;
use crate::outputs::OutputFile;
use crate::reach::is_edge_list;
use crate::reach::is_reachable;
use crate::reach::reachable;
use crate::unix_path::byte_strings;
use crate::unix_path::path_before;
use crate::unix_path::path_less;

verus! {

/// A directory in the order of paths.
pub struct RankedPath {
    pub path: Vec<u8>,
}

impl Ranked for RankedPath {
    open spec fn precedes(self, other: Self) -> bool {
        path_less(self.path@, other.path@)
    }

    fn comes_before(&self, other: &Self) -> (before: bool) {
        path_before(self.path.as_slice(), other.path.as_slice())
    }
}

/// The order of paths, as a function value.
pub open spec fn path_order() -> spec_fn(Seq<u8>, Seq<u8>) -> bool {
    |left: Seq<u8>, right: Seq<u8>| path_less(left, right)
}

/// Directories as plain values.
pub open spec fn plain_paths(list: Seq<RankedPath>) -> Seq<Seq<u8>> {
    list.map_values(|path: RankedPath| path.path@)
}

/// Sorting paths, seen as plain values.
proof fn lemma_plain_sorted(list: Seq<RankedPath>)
    ensures
        plain_paths(sorted(list, order_of())) == sorted(plain_paths(list), path_order()),
{
    let key = |ranked: RankedPath| ranked.path@;
    lemma_sorted_keys(list, order_of::<RankedPath>(), key, path_order());
    assert(plain_paths(list) =~= list.map_values(key));
    assert(plain_paths(sorted(list, order_of())) =~= sorted(list, order_of()).map_values(key));
}

/// Where the libraries of units are, and which units each depends on.
pub struct SearchFacts {
    /// The units that each unit depends on.
    pub dependencies: Vec<Vec<usize>>,
    /// Where the libraries of each unit are.
    pub deps_dirs: Vec<Vec<u8>>,
    /// Whether every unit has a directory of its own.
    pub new_layout: bool,
    /// Whether the unit runs on the host.
    pub is_host: bool,
    /// Where the libraries for the host are.
    pub host_deps: Vec<u8>,
}

impl SearchFacts {
    /// Whether the facts fit together.
    pub open spec fn well_formed(&self) -> bool {
        is_edge_list(self.dependencies@) && self.deps_dirs@.len() == self.dependencies@.len()
    }
}

/// The directories of the first units that can be reached.
pub open spec fn reached_dirs(facts: SearchFacts, unit: int, count: int) -> Seq<Seq<u8>>
    decreases count,
{
    if count <= 0 {
        Seq::empty()
    } else if is_reachable(facts.dependencies@, unit, count - 1) {
        reached_dirs(facts, unit, count - 1).push(facts.deps_dirs@[count - 1]@)
    } else {
        reached_dirs(facts, unit, count - 1)
    }
}

/// The directories that hold the libraries of a unit's dependencies: those of
/// all units that it leads to, in the order of paths, or the one that all units
/// share; and that of the host, where the unit does not run on it.
pub open spec fn search_dirs(facts: SearchFacts, unit: int) -> Seq<Seq<u8>> {
    let own = if facts.new_layout {
        sorted(reached_dirs(facts, unit, facts.deps_dirs@.len() as int), path_order())
    } else {
        seq![facts.deps_dirs@[unit]@]
    };
    if facts.is_host {
        own
    } else {
        own.push(facts.host_deps@)
    }
}

/// A search argument for each directory.
pub open spec fn search_words(dirs: Seq<Seq<u8>>) -> Words
    decreases dirs.len(),
{
    if dirs.len() == 0 {
        no_words()
    } else {
        search_words(dirs.drop_last()) + flag("-L"@, utf8("dependency="@) + dirs.last())
    }
}

/// The directories of the units that a unit leads to.
fn add_dep_arg(facts: &SearchFacts, unit: usize) -> (paths: Vec<RankedPath>)
    requires
        facts.well_formed(),
        unit < facts.deps_dirs@.len(),
    ensures
        plain_paths(paths@) == reached_dirs(*facts, unit as int, facts.deps_dirs@.len() as int),
{
    let flags = reachable(&facts.dependencies, unit);
    let mut paths: Vec<RankedPath> = Vec::new();
    let mut index: usize = 0;
    proof {
        assert(plain_paths(paths@) =~= Seq::<Seq<u8>>::empty());
    }
    while index < facts.deps_dirs.len()
        invariant
            facts.well_formed(),
            index <= facts.deps_dirs@.len(),
            flags@.len() == facts.deps_dirs@.len(),
            forall|u: int|
                0 <= u < flags@.len() ==> #[trigger] flags@[u] == is_reachable(
                    facts.dependencies@,
                    unit as int,
                    u,
                ),
            plain_paths(paths@) == reached_dirs(*facts, unit as int, index as int),
        decreases facts.deps_dirs@.len() - index,
    {
        let ghost before = paths@;
        if flags[index] {
            paths.push(RankedPath { path: copy_bytes(facts.deps_dirs[index].as_slice()) });
            proof {
                assert(plain_paths(paths@) =~= plain_paths(before).push(
                    facts.deps_dirs@[index as int]@,
                ));
            }
        }
        index = index + 1;
    }
    paths
}

/// Adds a search argument for each directory.
fn push_search(out: &mut Vec<Vec<u8>>, dirs: &Vec<RankedPath>)
    ensures
        byte_strings(final(out)@) == byte_strings(old(out)@) + search_words(plain_paths(dirs@)),
{
    let ghost before = byte_strings(out@);
    let ghost all = plain_paths(dirs@);
    let mut index: usize = 0;
    proof {
        assert(all.take(0) =~= Seq::empty());
        lemma_no_words(before);
    }
    while index < dirs.len()
        invariant
            index <= dirs@.len(),
            all == plain_paths(dirs@),
            byte_strings(out@) == before + search_words(all.take(index as int)),
        decreases dirs@.len() - index,
    {
        push_raw_flag(out, "-L", "dependency=", dirs[index].path.as_slice());
        proof {
            assert(all.take(index + 1).drop_last() =~= all.take(index as int));
            assert(all.take(index + 1).last() == dirs@[index as int].path@);
            assert(byte_strings(out@) =~= before + search_words(all.take(index + 1)));
        }
        index = index + 1;
    }
    proof {
        assert(all.take(index as int) =~= all);
    }
}

/// The arguments that name the directories of libraries.
pub fn lib_search_paths(facts: &SearchFacts, unit: usize) -> (words: Vec<Vec<u8>>)
    requires
        facts.well_formed(),
        unit < facts.deps_dirs@.len(),
    ensures
        byte_strings(words@) == search_words(search_dirs(*facts, unit as int)),
{
    let mut dirs: Vec<RankedPath> = Vec::new();
    if facts.new_layout {
        let reached = add_dep_arg(facts, unit);
        proof {
            lemma_plain_sorted(reached@);
        }
        dirs = sort(reached);
    } else {
        dirs.push(RankedPath { path: copy_bytes(facts.deps_dirs[unit].as_slice()) });
        proof {
            assert(plain_paths(dirs@) =~= seq![facts.deps_dirs@[unit as int]@]);
        }
    }
    if !facts.is_host {
        let ghost before = dirs@;
        dirs.push(RankedPath { path: copy_bytes(facts.host_deps.as_slice()) });
        proof {
            assert(plain_paths(dirs@) =~= plain_paths(before).push(facts.host_deps@));
        }
    }
    let mut words: Vec<Vec<u8>> = Vec::new();
    push_search(&mut words, &dirs);
    proof {
        lemma_no_words(search_words(plain_paths(dirs@)));
    }
    words
}

/// The operands of search arguments.
pub fn search_operands(words: &Vec<Vec<u8>>) -> (operands: Vec<Vec<u8>>)
    ensures
        byte_strings(operands@) == operands_of(byte_strings(words@), words@.len() / 2),
{
    let ghost all = byte_strings(words@);
    let mut operands: Vec<Vec<u8>> = Vec::new();
    let mut index: usize = 0;
    proof {
        assert(byte_strings(operands@) =~= no_words());
    }
    while index < words.len() / 2
        invariant
            index <= words@.len() / 2,
            all == byte_strings(words@),
            byte_strings(operands@) == operands_of(all, index as nat),
        decreases words@.len() / 2 - index,
    {
        let ghost before = operands@;
        if crate::bytes::bytes_equal(words[2 * index].as_slice(), "-L".as_bytes()) {
            operands.push(copy_bytes(words[2 * index + 1].as_slice()));
            proof {
                assert(byte_strings(operands@) =~= byte_strings(before).push(
                    all[2 * index as int + 1],
                ));
            }
        }
        index = index + 1;
    }
    operands
}

/// What follows `-L` in the first pairs of arguments.
pub open spec fn operands_of(words: Words, pairs: nat) -> Words
    decreases pairs,
{
    if pairs == 0 {
        no_words()
    } else {
        let before = operands_of(words, (pairs - 1) as nat);
        if words[2 * (pairs - 1)] == utf8("-L"@) {
            before.push(words[2 * (pairs - 1) + 1])
        } else {
            before
        }
    }
}

/// A crate that a unit depends on.
pub struct Dependency {
    pub crate_name: String,
    pub name: String,
    pub is_public: bool,
    pub noprelude: bool,
    pub nounused: bool,
    pub is_lib: bool,
    pub is_linkable: bool,
    pub is_artifact: bool,
    pub is_doc: bool,
    pub is_check: bool,
    pub is_run_custom_build: bool,
    /// Whether the unit needs only its metadata.
    pub only_requires_rmeta: bool,
    /// What it is called in the unit.
    pub extern_crate_name: String,
    /// The files that its compilation writes.
    pub outputs: Vec<OutputFile>,
    /// Where its build script writes to.
    pub out_dir: Vec<u8>,
}

/// What the arguments for dependencies depend on.
pub struct ExternFacts {
    pub is_lib: bool,
    pub is_proc_macro: bool,
    pub no_embed_metadata: bool,
    /// Whether the manifest enables public dependencies.
    pub public_dependency_feature: bool,
    /// Whether they are enabled for all packages.
    pub public_dependency: bool,
}

/// Whether dependencies are public or private.
pub fn is_public_dependency_enabled(facts: &ExternFacts) -> (enabled: bool)
    ensures
        enabled == (facts.public_dependency_feature || facts.public_dependency),
{
    facts.public_dependency_feature || facts.public_dependency
}

/// Whether a dependency is private.
pub open spec fn is_private(facts: ExternFacts, dependency: Dependency) -> bool {
    !dependency.is_public && facts.is_lib && (facts.public_dependency_feature
        || facts.public_dependency)
}

/// Whether options of a dependency are unstable.
pub open spec fn has_options(facts: ExternFacts, dependency: Dependency) -> bool {
    is_private(facts, dependency) || dependency.noprelude || dependency.nounused
}

/// The options of a dependency, with commas between them.
pub open spec fn option_text(private: bool, noprelude: bool, nounused: bool) -> Seq<char> {
    (if private {
        "priv"@
    } else {
        Seq::empty()
    }) + (if private && (noprelude || nounused) {
        ","@
    } else {
        Seq::empty()
    }) + (if noprelude {
        "noprelude"@
    } else {
        Seq::empty()
    }) + (if noprelude && nounused {
        ","@
    } else {
        Seq::empty()
    }) + (if nounused {
        "nounused"@
    } else {
        Seq::empty()
    }) + (if private || noprelude || nounused {
        ":"@
    } else {
        Seq::empty()
    })
}

/// What stands before the path of a dependency.
pub open spec fn extern_prefix(facts: ExternFacts, dependency: Dependency) -> Seq<char> {
    option_text(is_private(facts, dependency), dependency.noprelude, dependency.nounused)
        + dependency.extern_crate_name@ + "="@
}

/// Whether only the metadata of a dependency are passed.
pub open spec fn passes_metadata(dependency: Dependency) -> bool {
    dependency.only_requires_rmeta || dependency.is_check
}

/// The first of outputs that is metadata.
pub open spec fn first_rmeta(outputs: Seq<OutputFile>) -> Option<Seq<u8>>
    decreases outputs.len(),
{
    if outputs.len() == 0 {
        None
    } else if outputs[0].flavor == FileFlavor::Rmeta {
        Some(outputs[0].path@)
    } else {
        first_rmeta(outputs.drop_first())
    }
}

/// The outputs that are linked, and their metadata where these stand apart.
pub open spec fn linked_words(
    prefix: Seq<char>,
    outputs: Seq<OutputFile>,
    no_embed_metadata: bool,
) -> Words
    decreases outputs.len(),
{
    if outputs.len() == 0 {
        no_words()
    } else {
        let before = linked_words(prefix, outputs.drop_last(), no_embed_metadata);
        let last = outputs.last();
        if last.flavor == FileFlavor::Linkable || (no_embed_metadata && last.flavor
            == FileFlavor::Rmeta) {
            before + flag("--extern"@, utf8(prefix) + last.path@)
        } else {
            before
        }
    }
}

/// The arguments for one dependency.
pub open spec fn link_words(facts: ExternFacts, dependency: Dependency) -> Words {
    let prefix = extern_prefix(facts, dependency);
    if !dependency.is_linkable || dependency.is_doc {
        no_words()
    } else if passes_metadata(dependency) {
        flag("--extern"@, utf8(prefix) + first_rmeta(dependency.outputs@)->Some_0)
    } else {
        linked_words(prefix, dependency.outputs@, facts.no_embed_metadata)
    }
}

/// The arguments for dependencies in order.
pub open spec fn links_words(facts: ExternFacts, dependencies: Seq<Dependency>) -> Words
    decreases dependencies.len(),
{
    if dependencies.len() == 0 {
        no_words()
    } else {
        links_words(facts, dependencies.drop_last()) + link_words(facts, dependencies.last())
    }
}

/// The arguments for the dependencies of a unit. Procedural macros also see the
/// crate that they are written with.
pub open spec fn extern_words(facts: ExternFacts, dependencies: Seq<Dependency>) -> Words {
    links_words(facts, dependencies) + if facts.is_proc_macro {
        text_flag("--extern"@, "proc_macro"@)
    } else {
        no_words()
    }
}

/// Whether the arguments for dependencies are unstable.
pub open spec fn externs_are_unstable(facts: ExternFacts, dependencies: Seq<Dependency>) -> bool {
    exists|i: int|
        0 <= i < dependencies.len() && (#[trigger] dependencies[i]).is_linkable
            && !dependencies[i].is_doc && has_options(facts, dependencies[i])
}

/// Whether the metadata that are to be passed are there.
pub open spec fn has_metadata(dependencies: Seq<Dependency>) -> bool {
    forall|i: int|
        0 <= i < dependencies.len() && (#[trigger] dependencies[i]).is_linkable
            && !dependencies[i].is_doc && passes_metadata(dependencies[i]) ==> first_rmeta(
            dependencies[i].outputs@,
        ) is Some
}

/// What stands before the path of a dependency.
fn render_prefix(facts: &ExternFacts, dependency: &Dependency) -> (prefix: String)
    ensures
        prefix@ == extern_prefix(*facts, *dependency),
{
    let private = !dependency.is_public && facts.is_lib && is_public_dependency_enabled(facts);
    let noprelude = dependency.noprelude;
    let nounused = dependency.nounused;
    let mut prefix = String::new();
    if private {
        prefix.append("priv");
    }
    if private && (noprelude || nounused) {
        prefix.append(",");
    }
    if noprelude {
        prefix.append("noprelude");
    }
    if noprelude && nounused {
        prefix.append(",");
    }
    if nounused {
        prefix.append("nounused");
    }
    if private || noprelude || nounused {
        prefix.append(":");
    }
    proof {
        assert(prefix@ =~= option_text(private, noprelude, nounused));
    }
    prefix.append(dependency.extern_crate_name.as_str());
    prefix.append("=");
    prefix
}

/// The position of the first output that is metadata, or the number of outputs.
fn find_rmeta(outputs: &Vec<OutputFile>) -> (at: usize)
    ensures
        at <= outputs@.len(),
        at < outputs@.len() ==> first_rmeta(outputs@) == Some(outputs@[at as int].path@),
        at == outputs@.len() ==> first_rmeta(outputs@) is None,
{
    let mut at: usize = 0;
    proof {
        assert(outputs@.skip(0) =~= outputs@);
    }
    while at < outputs.len()
        invariant
            at <= outputs@.len(),
            first_rmeta(outputs@) == first_rmeta(outputs@.skip(at as int)),
        decreases outputs@.len() - at,
    {
        proof {
            assert(outputs@.skip(at as int)[0] == outputs@[at as int]);
            assert(outputs@.skip(at as int).drop_first() =~= outputs@.skip(at + 1));
        }
        if outputs[at].flavor == FileFlavor::Rmeta {
            return at;
        }
        at = at + 1;
    }
    proof {
        assert(outputs@.skip(at as int).len() == 0);
    }
    at
}

/// Adds the outputs that are linked.
fn push_linked(out: &mut Vec<Vec<u8>>, prefix: &str, outputs: &Vec<OutputFile>, metadata: bool)
    ensures
        byte_strings(final(out)@) == byte_strings(old(out)@) + linked_words(
            prefix@,
            outputs@,
            metadata,
        ),
{
    let ghost before = byte_strings(out@);
    let mut index: usize = 0;
    proof {
        assert(outputs@.take(0) =~= Seq::empty());
        lemma_no_words(before);
    }
    while index < outputs.len()
        invariant
            index <= outputs@.len(),
            byte_strings(out@) == before + linked_words(
                prefix@,
                outputs@.take(index as int),
                metadata,
            ),
        decreases outputs@.len() - index,
    {
        proof {
            assert(outputs@.take(index + 1).drop_last() =~= outputs@.take(index as int));
            assert(outputs@.take(index + 1).last() == outputs@[index as int]);
        }
        let output = &outputs[index];
        if output.flavor == FileFlavor::Linkable || (metadata && output.flavor
            == FileFlavor::Rmeta) {
            push_raw_flag(out, "--extern", prefix, output.path.as_slice());
            proof {
                assert(byte_strings(out@) =~= before + linked_words(
                    prefix@,
                    outputs@.take(index + 1),
                    metadata,
                ));
            }
        }
        index = index + 1;
    }
    proof {
        assert(outputs@.take(index as int) =~= outputs@);
    }
}

/// The arguments for the dependencies of a unit, and whether they are unstable.
pub fn extern_args(facts: &ExternFacts, dependencies: &Vec<Dependency>) -> (result: (
    Vec<Vec<u8>>,
    bool,
))
    requires
        has_metadata(dependencies@),
    ensures
        byte_strings(result.0@) == extern_words(*facts, dependencies@),
        result.1 == externs_are_unstable(*facts, dependencies@),
{
    let mut words: Vec<Vec<u8>> = Vec::new();
    let mut unstable = false;
    let mut index: usize = 0;
    proof {
        assert(dependencies@.take(0) =~= Seq::empty());
        assert(byte_strings(words@) =~= no_words());
    }
    while index < dependencies.len()
        invariant
            index <= dependencies@.len(),
            has_metadata(dependencies@),
            byte_strings(words@) == links_words(*facts, dependencies@.take(index as int)),
            unstable == exists|i: int|
                0 <= i < index && (#[trigger] dependencies@[i]).is_linkable
                    && !dependencies@[i].is_doc && has_options(*facts, dependencies@[i]),
        decreases dependencies@.len() - index,
    {
        let dependency = &dependencies[index];
        proof {
            assert(dependencies@.take(index + 1).drop_last() =~= dependencies@.take(
                index as int,
            ));
            assert(dependencies@.take(index + 1).last() == dependencies@[index as int]);
            lemma_no_words(byte_strings(words@));
        }
        if dependency.is_linkable && !dependency.is_doc {
            let prefix = render_prefix(facts, dependency);
            if (!dependency.is_public && facts.is_lib && is_public_dependency_enabled(facts))
                || dependency.noprelude || dependency.nounused {
                unstable = true;
                proof {
                    assert(has_options(*facts, dependencies@[index as int]));
                }
            }
            if dependency.only_requires_rmeta || dependency.is_check {
                let at: usize = find_rmeta(&dependency.outputs);
                push_raw_flag(
                    &mut words,
                    "--extern",
                    prefix.as_str(),
                    dependency.outputs[at].path.as_slice(),
                );
            } else {
                push_linked(
                    &mut words,
                    prefix.as_str(),
                    &dependency.outputs,
                    facts.no_embed_metadata,
                );
            }
        }
        index = index + 1;
    }
    proof {
        assert(dependencies@.take(index as int) =~= dependencies@);
        lemma_no_words(byte_strings(words@));
    }
    if facts.is_proc_macro {
        push_text_flag(&mut words, "--extern", "proc_macro");
    }
    (words, unstable)
}

} // verus!
