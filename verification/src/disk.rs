//! What was found on disk: file metadata and directory trees as plain values.

use vstd::prelude::*;

use crate::bytes::bytes_before;
use crate::bytes::bytes_equal;
use crate::bytes::bytes_less;
use crate::bytes::copy_bytes;
use crate::bytes::optional;
use crate::ordering::lemma_sorted_keys;
use crate::ordering::lemma_sorted_members;
use crate::ordering::order_of;
use crate::ordering::sort;
use crate::ordering::sorted;
use crate::ordering::Ranked;
use crate::unix_path::byte_strings;

verus! {

/// A point in time: whole seconds since the Unix epoch, negative before it,
/// and the nanoseconds behind them.
#[derive(Clone, Copy, Debug, PartialEq, Eq, Structural)]
pub struct Timestamp {
    pub seconds: i64,
    pub nanoseconds: u32,
}

/// The kind of a node.
#[derive(Clone, Copy, Debug, PartialEq, Eq, Structural)]
pub enum FileKind {
    File,
    Directory,
    Symlink,
    Other,
}

/// The metadata of a node.
#[derive(Clone, Copy, Debug, PartialEq, Eq, Structural)]
pub struct Metadata {
    pub kind: FileKind,
    pub len: u64,
    pub modified: Option<Timestamp>,
    pub device: u64,
    pub inode: u64,
    pub links: u64,
    pub mode: u32,
    pub changed_seconds: i64,
    pub changed_nanoseconds: i64,
}

/// The outcome of looking something up: its value, that it is absent, or that
/// the lookup failed.
pub enum Lookup<T> {
    Found(T),
    Missing,
    Failed,
}

/// What is known of one path.
pub struct Node {
    pub path: Vec<u8>,
    /// The metadata of the node itself, symbolic links not followed.
    pub own: Lookup<Metadata>,
    /// The metadata of what the node stands for, symbolic links followed.
    pub followed: Lookup<Metadata>,
    /// The canonical form of the path.
    pub canonical: Option<Vec<u8>>,
}

/// What is known of a set of paths. A path that is not listed is absent.
pub struct Disk {
    pub nodes: Vec<Node>,
}

/// A directory and what stands in it.
pub struct Directory {
    /// The canonical form of its path.
    pub canonical: Lookup<Vec<u8>>,
    /// Its metadata, symbolic links followed.
    pub metadata: Lookup<Metadata>,
    /// Its entries.
    pub entries: Lookup<Vec<Entry>>,
}

/// An entry of a directory.
pub struct Entry {
    pub name: Vec<u8>,
    /// The kind of the node itself, symbolic links not followed.
    pub kind: FileKind,
    /// Where the entry points, if it is a symbolic link.
    pub link: Option<Vec<u8>>,
    /// What the entry stands for, symbolic links followed.
    pub content: Content,
}

/// What an entry stands for.
pub enum Content {
    Directory(Directory),
    File(FileContent),
    Other,
    Unreadable,
}

/// A regular file: its metadata, its first bytes, and its contents as far as
/// they were read.
pub struct FileContent {
    pub metadata: Metadata,
    pub header: Vec<u8>,
    pub contents: Vec<u8>,
}

impl Disk {
    /// What is known of `path`.
    pub open spec fn node(&self, path: Seq<u8>) -> Option<Node> {
        find_node(self.nodes@, path)
    }

    /// The canonical form of `path`.
    pub open spec fn canonical(&self, path: Seq<u8>) -> Option<Seq<u8>> {
        match self.node(path) {
            Some(node) => optional(node.canonical),
            None => None,
        }
    }

    /// The metadata of `path` itself.
    pub open spec fn own(&self, path: Seq<u8>) -> Lookup<Metadata> {
        match self.node(path) {
            Some(node) => node.own,
            None => Lookup::Missing,
        }
    }

    /// The metadata of what `path` stands for.
    pub open spec fn followed(&self, path: Seq<u8>) -> Lookup<Metadata> {
        match self.node(path) {
            Some(node) => node.followed,
            None => Lookup::Missing,
        }
    }

    /// The position of `path`, or the number of nodes.
    fn find(&self, path: &[u8]) -> (at: usize)
        ensures
            at <= self.nodes@.len(),
            at < self.nodes@.len() ==> self.node(path@) == Some(self.nodes@[at as int]),
            at == self.nodes@.len() ==> self.node(path@) is None,
    {
        let mut at: usize = 0;
        proof {
            assert(self.nodes@.skip(0) =~= self.nodes@);
        }
        while at < self.nodes.len()
            invariant
                at <= self.nodes@.len(),
                self.node(path@) == find_node(self.nodes@.skip(at as int), path@),
            decreases self.nodes@.len() - at,
        {
            proof {
                assert(self.nodes@.skip(at as int)[0] == self.nodes@[at as int]);
                assert(self.nodes@.skip(at as int).drop_first() =~= self.nodes@.skip(at + 1));
            }
            if bytes_equal(self.nodes[at].path.as_slice(), path) {
                return at;
            }
            at = at + 1;
        }
        proof {
            assert(self.nodes@.skip(at as int).len() == 0);
        }
        at
    }

    /// The canonical form of `path`.
    pub fn canonicalize(&self, path: &[u8]) -> (canonical: Option<Vec<u8>>)
        ensures
            optional(canonical) == self.canonical(path@),
    {
        let at: usize = self.find(path);
        if at == self.nodes.len() {
            return None;
        }
        match &self.nodes[at].canonical {
            Some(canonical) => Some(copy_bytes(canonical.as_slice())),
            None => None,
        }
    }

    /// The metadata of `path` itself.
    pub fn symlink_metadata(&self, path: &[u8]) -> (metadata: Lookup<Metadata>)
        ensures
            metadata == self.own(path@),
    {
        let at: usize = self.find(path);
        if at == self.nodes.len() {
            return Lookup::Missing;
        }
        match &self.nodes[at].own {
            Lookup::Found(metadata) => Lookup::Found(*metadata),
            Lookup::Missing => Lookup::Missing,
            Lookup::Failed => Lookup::Failed,
        }
    }

    /// The metadata of what `path` stands for.
    pub fn metadata(&self, path: &[u8]) -> (metadata: Lookup<Metadata>)
        ensures
            metadata == self.followed(path@),
    {
        let at: usize = self.find(path);
        if at == self.nodes.len() {
            return Lookup::Missing;
        }
        match &self.nodes[at].followed {
            Lookup::Found(metadata) => Lookup::Found(*metadata),
            Lookup::Missing => Lookup::Missing,
            Lookup::Failed => Lookup::Failed,
        }
    }
}

/// The first node of `nodes` with `path`.
pub open spec fn find_node(nodes: Seq<Node>, path: Seq<u8>) -> Option<Node>
    decreases nodes.len(),
{
    if nodes.len() == 0 {
        None
    } else if nodes[0].path@ == path {
        Some(nodes[0])
    } else {
        find_node(nodes.drop_first(), path)
    }
}

/// An entry by its name and its position in a listing.
pub struct ListedName {
    pub name: Vec<u8>,
    pub position: usize,
}

impl Ranked for ListedName {
    open spec fn precedes(self, other: Self) -> bool {
        bytes_less(self.name@, other.name@)
    }

    fn comes_before(&self, other: &Self) -> (before: bool) {
        bytes_before(self.name.as_slice(), other.name.as_slice())
    }
}

/// Names with their positions.
pub open spec fn listed_names(names: Seq<Seq<u8>>) -> Seq<(Seq<u8>, int)> {
    Seq::new(names.len(), |i: int| (names[i], i))
}

/// The order of listed names.
pub open spec fn name_order() -> spec_fn((Seq<u8>, int), (Seq<u8>, int)) -> bool {
    |a: (Seq<u8>, int), b: (Seq<u8>, int)| bytes_less(a.0, b.0)
}

/// The positions of names in their order.
pub open spec fn sorted_positions(names: Seq<Seq<u8>>) -> Seq<int> {
    sorted(listed_names(names), name_order()).map_values(|listed: (Seq<u8>, int)| listed.1)
}

/// There is one position for each name, and it is one in the list.
pub proof fn lemma_sorted_positions(names: Seq<Seq<u8>>)
    ensures
        sorted_positions(names).len() == names.len(),
        forall|i: int|
            0 <= i < names.len() ==> 0 <= #[trigger] sorted_positions(names)[i] < names.len(),
{
    let listed = listed_names(names);
    lemma_sorted_members(listed, name_order());
    let result = sorted(listed, name_order());
    assert forall|i: int| 0 <= i < names.len() implies 0 <= #[trigger] sorted_positions(names)[i]
        < names.len() by {
        assert(listed.contains(result[i]));
        let k = choose|k: int| 0 <= k < listed.len() && listed[k] == result[i];
        assert(result[i].1 == k);
    }
}

/// The positions of names in their order.
pub fn positions_by_name(names: &Vec<Vec<u8>>) -> (positions: Vec<usize>)
    ensures
        positions@.len() == names@.len(),
        forall|i: int|
            0 <= i < positions@.len() ==> #[trigger] positions@[i] as int == sorted_positions(
                byte_strings(names@),
            )[i],
        forall|i: int| 0 <= i < positions@.len() ==> #[trigger] positions@[i] < names@.len(),
{
    let ghost all = byte_strings(names@);
    let mut listed: Vec<ListedName> = Vec::new();
    let mut index: usize = 0;
    while index < names.len()
        invariant
            index <= names@.len(),
            listed@.len() == index,
            forall|i: int|
                0 <= i < index ==> (#[trigger] listed@[i]).name@ == names@[i]@
                    && listed@[i].position == i,
        decreases names@.len() - index,
    {
        listed.push(ListedName { name: copy_bytes(names[index].as_slice()), position: index });
        index = index + 1;
    }
    let ghost key = |listed: ListedName| (listed.name@, listed.position as int);
    proof {
        lemma_sorted_positions(all);
        lemma_sorted_keys(listed@, order_of::<ListedName>(), key, name_order());
        assert(listed@.map_values(key) =~= listed_names(all));
    }
    let ordered = sort(listed);
    proof {
        assert(ordered@.map_values(key) == sorted(listed_names(all), name_order()));
        assert(ordered@.len() == ordered@.map_values(key).len());
        assert(sorted_positions(all).len() == sorted(listed_names(all), name_order()).len());
    }
    let mut positions: Vec<usize> = Vec::new();
    let mut at: usize = 0;
    while at < ordered.len()
        invariant
            at <= ordered@.len(),
            ordered@.len() == names@.len(),
            positions@.len() == at,
            key == (|listed: ListedName| (listed.name@, listed.position as int)),
            ordered@.map_values(key) == sorted(listed_names(all), name_order()),
            forall|i: int|
                0 <= i < at ==> #[trigger] positions@[i] as int == sorted_positions(all)[i],
        decreases ordered@.len() - at,
    {
        positions.push(ordered[at].position);
        proof {
            assert(ordered@.map_values(key)[at as int] == key(ordered@[at as int]));
        }
        at = at + 1;
    }
    proof {
        assert forall|i: int| 0 <= i < positions@.len() implies #[trigger] positions@[i]
            < names@.len() by {
            assert(positions@[i] as int == sorted_positions(all)[i]);
        }
    }
    positions
}

/// The names of entries.
pub open spec fn entry_names(entries: Seq<Entry>) -> Seq<Seq<u8>> {
    Seq::new(entries.len(), |i: int| entries[i].name@)
}

/// The positions of the entries of a listing in the order of their names.
pub open spec fn name_positions(entries: Seq<Entry>) -> Seq<int> {
    sorted_positions(entry_names(entries))
}

/// The positions of the entries of a listing in the order of their names.
pub fn entries_by_name(entries: &Vec<Entry>) -> (positions: Vec<usize>)
    ensures
        positions@.len() == entries@.len(),
        forall|i: int|
            0 <= i < positions@.len() ==> #[trigger] positions@[i] as int == name_positions(
                entries@,
            )[i],
        forall|i: int| 0 <= i < positions@.len() ==> #[trigger] positions@[i] < entries@.len(),
{
    let mut names: Vec<Vec<u8>> = Vec::new();
    let mut index: usize = 0;
    while index < entries.len()
        invariant
            index <= entries@.len(),
            names@.len() == index,
            forall|i: int| 0 <= i < index ==> (#[trigger] names@[i])@ == entries@[i].name@,
        decreases entries@.len() - index,
    {
        names.push(copy_bytes(entries[index].name.as_slice()));
        index = index + 1;
    }
    proof {
        assert(byte_strings(names@) =~= entry_names(entries@));
    }
    positions_by_name(&names)
}

} // verus!
