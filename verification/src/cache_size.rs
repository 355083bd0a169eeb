//! How large the cache is, and what is evicted to keep it within its limit.

use vstd::prelude::*;
use vstd::string::*;

use crate::digest::lossy_text;
use crate::digest::text_from_utf8_lossy;
use crate::disk::Lookup;
use crate::text::after_prefix;
use crate::text::decimal;
use crate::text::decimal_text;
use crate::text::has_prefix;
use crate::text::has_text;
use crate::text::is_digit;
use crate::text::is_space;
use crate::text::law_decimal_round_trip;
use crate::text::lemma_decimal_digits;
use crate::text::parse_u64;
use crate::text::parsed;
use crate::text::stands_in;
use crate::text::trim;
use crate::text::trimmed;
use crate::text::trimmed_end;
use crate::text::without_prefix;

verus! {

/// Whether a size is within an optional limit: without a limit every size is.
pub open spec fn within_limit(size: u64, max_size: Option<u64>) -> bool {
    match max_size {
        Some(max_size) => size <= max_size,
        None => true,
    }
}

/// Whether a size is within an optional limit.
pub fn rlib_cache_size_within_limit(size: u64, max_size: Option<u64>) -> (within: bool)
    ensures
        within == within_limit(size, max_size),
{
    match max_size {
        Some(max_size) => size <= max_size,
        None => true,
    }
}

/// The size that the text of the size state records.
pub open spec fn recorded_size(state: Seq<char>) -> Option<nat> {
    match after_prefix(trimmed(state), "v2 "@) {
        Some(number) => parsed(number, u64::MAX as nat),
        None => None,
    }
}

/// The size that the text of the size state records. Nothing where there is no
/// such file.
pub fn recorded_rlib_cache_size(state: Option<&str>) -> (size: Option<u64>)
    ensures
        match state {
            Some(state) => match size {
                Some(size) => recorded_size(state@) == Some(size as nat),
                None => recorded_size(state@) is None,
            },
            None => size is None,
        },
{
    match state {
        Some(state) => match without_prefix(trim(state).as_str(), "v2 ") {
            Some(number) => parse_u64(number.as_str()),
            None => None,
        },
        None => None,
    }
}

/// The text of the size state for a cache of unknown size.
pub open spec fn dirty_state() -> Seq<char> {
    "dirty\n"@
}

/// The text of the size state for a cache of the given size.
pub open spec fn size_state(size: nat) -> Seq<char> {
    "v2 "@ + decimal(size) + "\n"@
}

/// The text of the size state for a cache of unknown size.
pub fn mark_rlib_cache_size_dirty() -> (state: String)
    ensures
        state@ == dirty_state(),
{
    "dirty\n".to_owned()
}

/// The text of the size state for a cache of the given size: of unknown size
/// where rejected entries are left in it.
pub fn write_rlib_cache_size(has_transients: bool, size: u64) -> (state: String)
    ensures
        state@ == if has_transients {
            dirty_state()
        } else {
            size_state(size as nat)
        },
{
    if has_transients {
        return mark_rlib_cache_size_dirty();
    }
    let mut state = "v2 ".to_owned();
    state.append(decimal_text(size).as_str());
    state.append("\n");
    state
}

/// A recorded size is read back as it was written.
pub proof fn law_recorded_size_round_trip(size: u64)
    ensures
        recorded_size(size_state(size as nat)) == Some(size as nat),
{
    reveal_strlit("v2 ");
    reveal_strlit("\n");
    let digits = decimal(size as nat);
    lemma_decimal_digits(size as nat);
    let state = size_state(size as nat);
    let bare = "v2 "@ + digits;
    assert(state.drop_last() =~= bare);
    assert(state.last() == '\n');
    assert(is_space('\n'));
    assert(bare.last() == digits.last());
    assert(is_digit(digits[digits.len() - 1]));
    assert(!is_space(bare.last()));
    assert(trimmed_end(bare) == bare);
    assert(trimmed_end(state) == trimmed_end(state.drop_last()));
    assert(bare[0] == 'v');
    assert(!is_space(bare[0]));
    assert(trimmed(state) == bare);
    assert("v2 "@ =~= bare.subrange(0, 3));
    assert(bare.skip(3) =~= digits);
    law_decimal_round_trip(size as nat, u64::MAX as nat);
}

/// A cache of unknown size records no size.
pub proof fn law_dirty_state_records_nothing()
    ensures
        recorded_size(dirty_state()) is None,
{
    reveal_strlit("dirty\n");
    reveal_strlit("v2 ");
    let state = dirty_state();
    assert(state.last() == '\n');
    assert(is_space('\n'));
    let bare = state.drop_last();
    assert(bare.last() == 'y');
    assert(!is_space('y'));
    assert(trimmed_end(bare) == bare);
    assert(bare[0] == 'd');
    assert(!is_space('d'));
    assert(trimmed(state) == bare);
    if "v2 "@.is_prefix_of(bare) {
        assert(bare.subrange(0, 3)[0] == bare[0]);
    }
}

/// Whether a name is that of an entry that is being written or was rejected.
pub open spec fn is_transient_name(name: Seq<char>) -> bool {
    "."@.is_prefix_of(name) && (stands_in(name, ".publishing-"@) || stands_in(
        name,
        ".staging-v8-"@,
    ) || stands_in(name, ".rejected-"@))
}

/// Whether a name is that of an entry that is being written or was rejected.
pub fn is_abandoned_transient_name(name: &[u8]) -> (transient: bool)
    ensures
        transient == is_transient_name(lossy_text(name@)),
{
    let name = text_from_utf8_lossy(name);
    has_prefix(name.as_str(), ".") && (has_text(name.as_str(), ".publishing-") || has_text(
        name.as_str(),
        ".staging-v8-",
    ) || has_text(name.as_str(), ".rejected-"))
}

/// Whether a name is that of an entry that was rejected.
pub open spec fn is_rejected_name(name: Seq<char>) -> bool {
    "."@.is_prefix_of(name) && stands_in(name, ".rejected-"@)
}

/// Whether a name is that of an entry that was rejected.
fn names_rejected(name: &[u8]) -> (rejected: bool)
    ensures
        rejected == is_rejected_name(lossy_text(name@)),
{
    let name = text_from_utf8_lossy(name);
    has_prefix(name.as_str(), ".") && has_text(name.as_str(), ".rejected-")
}

/// An entry below an action root that is to be cleaned up or kept.
pub struct TransientEntry {
    pub name: Vec<u8>,
    pub is_directory: bool,
}

/// The entries that a cleanup removes: directories with a transient name.
pub fn cleanup_abandoned_rlib_cache_action_transients(entries: &Vec<TransientEntry>) -> (removed:
    Vec<usize>)
    ensures
        forall|i: int|
            0 <= i < entries@.len() ==> (removed@.contains(i as usize) <==> is_transient_name(
                lossy_text((#[trigger] entries@[i]).name@),
            ) && entries@[i].is_directory),
        forall|k: int| 0 <= k < removed@.len() ==> (#[trigger] removed@[k]) < entries@.len(),
        forall|j: int, k: int|
            0 <= j < k < removed@.len() ==> (#[trigger] removed@[j]) < (#[trigger] removed@[k]),
{
    let mut removed: Vec<usize> = Vec::new();
    let mut index: usize = 0;
    while index < entries.len()
        invariant
            index <= entries@.len(),
            forall|i: int|
                0 <= i < index ==> (removed@.contains(i as usize) <==> is_transient_name(
                    lossy_text((#[trigger] entries@[i]).name@),
                ) && entries@[i].is_directory),
            forall|k: int| 0 <= k < removed@.len() ==> (#[trigger] removed@[k]) < index,
            forall|j: int, k: int|
                0 <= j < k < removed@.len() ==> (#[trigger] removed@[j]) < (#[trigger] removed@[k]),
        decreases entries@.len() - index,
    {
        let entry = &entries[index];
        let ghost before = removed@;
        if is_abandoned_transient_name(entry.name.as_slice()) && entry.is_directory {
            removed.push(index);
            proof {
                assert(removed@[before.len() as int] == index);
                assert forall|i: int| 0 <= i < index + 1 implies (removed@.contains(i as usize)
                    <==> is_transient_name(lossy_text((#[trigger] entries@[i]).name@))
                    && entries@[i].is_directory) by {
                    if i < index {
                        if before.contains(i as usize) {
                            let k = choose|k: int| 0 <= k < before.len() && before[k] == i as usize;
                            assert(removed@[k] == i as usize);
                        }
                        if removed@.contains(i as usize) {
                            let k = choose|k: int|
                                0 <= k < removed@.len() && removed@[k] == i as usize;
                            assert(k < before.len());
                            assert(before[k] == i as usize);
                        }
                    }
                }
            }
        } else {
            proof {
                if removed@.contains(index) {
                    let k = choose|k: int| 0 <= k < removed@.len() && removed@[k] == index;
                    assert(removed@[k] < index);
                }
            }
        }
        index = index + 1;
    }
    removed
}

/// What was found of an action root: the names below it, where it is a
/// directory that could be read.
pub struct RootNames {
    pub is_directory: bool,
    pub names: Option<Vec<Vec<u8>>>,
}

/// Whether an action root may hold a rejected entry: it is a directory, and it
/// could not be read or holds one.
pub open spec fn may_hold_rejected(root: RootNames) -> bool {
    root.is_directory && match root.names {
        None => true,
        Some(names) => exists|i: int|
            0 <= i < names@.len() && is_rejected_name(lossy_text((#[trigger] names@[i])@)),
    }
}

/// Whether an action root may hold a rejected entry.
fn root_may_hold_rejected(root: &RootNames) -> (found: bool)
    ensures
        found == may_hold_rejected(*root),
{
    if !root.is_directory {
        return false;
    }
    let names = match &root.names {
        Some(names) => names,
        None => {
            return true;
        },
    };
    let mut at: usize = 0;
    while at < names.len()
        invariant
            at <= names@.len(),
            root.is_directory,
            root.names == Some(*names),
            forall|i: int|
                0 <= i < at ==> !is_rejected_name(lossy_text((#[trigger] names@[i])@)),
        decreases names@.len() - at,
    {
        if names_rejected(names[at].as_slice()) {
            proof {
                let list = root.names->0;
                assert(is_rejected_name(lossy_text(list@[at as int]@)));
            }
            return true;
        }
        at = at + 1;
    }
    false
}

/// Whether a part of the cache may hold a rejected entry.
pub open spec fn any_may_hold_rejected(roots: Seq<RootNames>) -> bool {
    exists|i: int| 0 <= i < roots.len() && may_hold_rejected(#[trigger] roots[i])
}

/// Whether the cache may hold a rejected entry: a part of it could not be
/// read, or it holds one.
pub fn rlib_cache_has_transients(roots: &Option<Vec<RootNames>>) -> (found: bool)
    ensures
        found == match *roots {
            None => true,
            Some(roots) => any_may_hold_rejected(roots@),
        },
{
    let list = match roots {
        Some(list) => list,
        None => {
            return true;
        },
    };
    let mut index: usize = 0;
    while index < list.len()
        invariant
            index <= list@.len(),
            *roots == Some(*list),
            forall|i: int| 0 <= i < index ==> !may_hold_rejected(#[trigger] list@[i]),
        decreases list@.len() - index,
    {
        if root_may_hold_rejected(&list[index]) {
            proof {
                assert(may_hold_rejected(list@[index as int]));
                assert(any_may_hold_rejected(list@));
            }
            return true;
        }
        index = index + 1;
    }
    proof {
        assert(!any_may_hold_rejected(list@));
    }
    false
}

/// The name of an entry while it is written.
pub open spec fn staging_name(key: Seq<char>, process: u64, sequence: u64) -> Seq<char> {
    "."@ + key + ".staging-v8-"@ + decimal(process as nat) + "-"@ + decimal(sequence as nat)
}

/// The name of an entry that was rejected.
pub open spec fn rejected_name(key: Seq<char>, process: u64, sequence: u64) -> Seq<char> {
    "."@ + key + ".rejected-"@ + decimal(process as nat) + "-"@ + decimal(sequence as nat)
}

/// A name made of `key`, `kind`, a process and a sequence number.
fn numbered_name(key: &str, kind: &str, process: u64, sequence: u64) -> (name: String)
    ensures
        name@ == "."@ + key@ + kind@ + decimal(process as nat) + "-"@ + decimal(sequence as nat),
{
    let mut name = ".".to_owned();
    name.append(key);
    name.append(kind);
    name.append(decimal_text(process).as_str());
    name.append("-");
    name.append(decimal_text(sequence).as_str());
    name
}

/// The name of an entry while it is written.
pub fn staging_rlib_cache_entry(key: &str, process: u64, sequence: u64) -> (name: String)
    ensures
        name@ == staging_name(key@, process, sequence),
{
    numbered_name(key, ".staging-v8-", process, sequence)
}

/// The name of an entry that was rejected.
pub fn quarantine_rlib_cache_entry(key: &str, process: u64, sequence: u64) -> (name: String)
    ensures
        name@ == rejected_name(key@, process, sequence),
{
    numbered_name(key, ".rejected-", process, sequence)
}

/// A pattern in the middle of a text stands in it.
proof fn lemma_stands_in_middle(front: Seq<char>, pattern: Seq<char>, back: Seq<char>)
    ensures
        stands_in(front + pattern + back, pattern),
{
    let text = front + pattern + back;
    assert(text.skip(front.len() as int).subrange(0, pattern.len() as int) =~= pattern);
    assert(crate::text::stands_at(text, pattern, front.len() as int));
}

/// Names of entries that are written are cleaned up when they are abandoned.
pub proof fn law_staging_names_are_cleaned_up(key: Seq<char>, process: u64, sequence: u64)
    ensures
        is_transient_name(staging_name(key, process, sequence)),
{
    let name = staging_name(key, process, sequence);
    let back = decimal(process as nat) + "-"@ + decimal(sequence as nat);
    lemma_stands_in_middle("."@ + key, ".staging-v8-"@, back);
    assert(name =~= "."@ + key + ".staging-v8-"@ + back);
    assert("."@ =~= name.subrange(0, "."@.len() as int));
}

/// Names of entries that were rejected are cleaned up, and keep the recorded
/// size unknown until they are.
pub proof fn law_rejected_names_are_seen(key: Seq<char>, process: u64, sequence: u64)
    ensures
        is_transient_name(rejected_name(key, process, sequence)),
        is_rejected_name(rejected_name(key, process, sequence)),
{
    let name = rejected_name(key, process, sequence);
    let back = decimal(process as nat) + "-"@ + decimal(sequence as nat);
    lemma_stands_in_middle("."@ + key, ".rejected-"@, back);
    assert(name =~= "."@ + key + ".rejected-"@ + back);
    assert("."@ =~= name.subrange(0, "."@.len() as int));
}

/// A node below an entry.
pub enum SizedNode {
    Symlink,
    Directory(SizedDirectory),
    File(u64),
    Other,
    Unreadable,
}

/// A directory of an entry: what stands in it, where it is a directory and
/// could be read.
pub struct SizedDirectory {
    pub nodes: Lookup<Vec<SizedNode>>,
}

/// Why an entry has no size.
#[derive(Clone, Copy, Debug, PartialEq, Eq, Structural)]
pub enum SizeError {
    NotADirectory,
    Unreadable,
    ContainsSymlink,
    UnsupportedNode,
}

/// The sum of two sizes, or the largest size.
pub open spec fn added(left: u64, right: u64) -> u64 {
    if left + right <= u64::MAX {
        (left + right) as u64
    } else {
        u64::MAX
    }
}

/// The size of a directory: the sizes of all files below it.
pub open spec fn directory_size(directory: SizedDirectory) -> Result<u64, SizeError>
    decreases directory,
{
    match directory.nodes {
        Lookup::Missing => Err(SizeError::NotADirectory),
        Lookup::Failed => Err(SizeError::Unreadable),
        Lookup::Found(nodes) => nodes_size(nodes, nodes@.len() as int),
    }
}

/// The size of the first `count` nodes.
pub open spec fn nodes_size(nodes: Vec<SizedNode>, count: int) -> Result<u64, SizeError>
    decreases nodes, count,
{
    if count <= 0 || count > nodes@.len() {
        Ok(0)
    } else {
        match nodes_size(nodes, count - 1) {
            Err(error) => Err(error),
            Ok(size) => match nodes[count - 1] {
                SizedNode::Symlink => Err(SizeError::ContainsSymlink),
                SizedNode::Directory(inner) => match directory_size(inner) {
                    Ok(more) => Ok(added(size, more)),
                    Err(error) => Err(error),
                },
                SizedNode::File(len) => Ok(added(size, len)),
                SizedNode::Other => Err(SizeError::UnsupportedNode),
                SizedNode::Unreadable => Err(SizeError::Unreadable),
            },
        }
    }
}

/// An error among the first nodes is the error of all.
proof fn lemma_nodes_size_error(nodes: Vec<SizedNode>, count: int, total: int)
    requires
        0 <= count <= total <= nodes@.len(),
        nodes_size(nodes, count) is Err,
    ensures
        nodes_size(nodes, total) == nodes_size(nodes, count),
    decreases total - count,
{
    if count < total {
        lemma_nodes_size_error(nodes, count, total - 1);
    }
}

/// The size of an entry: the sizes of all files below it. A symbolic link
/// below it is an error.
pub fn artifact_cache_entry_size(directory: &SizedDirectory) -> (size: Result<u64, SizeError>)
    ensures
        size == directory_size(*directory),
    decreases directory,
{
    let nodes = match &directory.nodes {
        Lookup::Missing => {
            return Err(SizeError::NotADirectory);
        },
        Lookup::Failed => {
            return Err(SizeError::Unreadable);
        },
        Lookup::Found(nodes) => nodes,
    };
    let mut size: u64 = 0;
    let mut index: usize = 0;
    while index < nodes.len()
        invariant
            index <= nodes@.len(),
            directory.nodes == Lookup::Found(*nodes),
            nodes_size(*nodes, index as int) == Ok::<u64, SizeError>(size),
        decreases nodes@.len() - index,
    {
        let more: Result<u64, SizeError> = match &nodes[index] {
            SizedNode::Symlink => Err(SizeError::ContainsSymlink),
            SizedNode::Directory(inner) => {
                proof {
                    assert(directory.nodes->Found_0 == *nodes);
                    assert(decreases_to!(*directory => directory.nodes->Found_0));
                    assert(decreases_to!(*nodes => nodes[index as int]));
                    assert(decreases_to!(nodes[index as int] => *inner));
                }
                artifact_cache_entry_size(inner)
            },
            SizedNode::File(len) => Ok(*len),
            SizedNode::Other => Err(SizeError::UnsupportedNode),
            SizedNode::Unreadable => Err(SizeError::Unreadable),
        };
        match more {
            Ok(more) => {
                size = size.saturating_add(more);
            },
            Err(error) => {
                proof {
                    lemma_nodes_size_error(*nodes, index + 1, nodes@.len() as int);
                }
                return Err(error);
            },
        }
        index = index + 1;
    }
    Ok(size)
}

} // verus!
