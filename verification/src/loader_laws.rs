//! What takes part in the hashed text of loader search paths: the libraries,
//! and not where the portable roots stand.

use vstd::prelude::*;
use vstd::string::*;
use vstd::utf8::*;

use crate::bytes::lemma_split_parts;
use crate::bytes::optional;
use crate::bytes::utf8;
use crate::command::Command;
use crate::compiler_identity::is_runtime_name;
use crate::compiler_identity::ArtifactCacheIdentityWitness;
use crate::digest::blake3_digest;
use crate::digest::lossy_text;
use crate::disk::name_positions;
use crate::disk::Content;
use crate::disk::Directory;
use crate::disk::Disk;
use crate::disk::Entry;
use crate::disk::Lookup;
use crate::loader_digest::directory_frames;
use crate::loader_digest::directory_heading;
use crate::loader_digest::entries_frames;
use crate::loader_digest::frame;
use crate::loader_digest::hashes_contents;
use crate::loader_digest::identity_covers;
use crate::loader_digest::identity_covers_entries;
use crate::loader_digest::input_frames;
use crate::loader_digest::inputs_frames;
use crate::loader_digest::library_inputs;
use crate::loader_digest::link_frames;
use crate::loader_digest::loader_text;
use crate::loader_digest::location_error;
use crate::loader_digest::may_be_library;
use crate::loader_digest::relative_or_self;
use crate::loader_digest::root_name;
use crate::loader_digest::searches_are_modeled;
use crate::loader_digest::Frames;
use crate::loader_digest::Mode;
use crate::loader_inputs::configured_is_modeled;
use crate::loader_inputs::has_expansion;
use crate::loader_inputs::inherited_is_modeled;
use crate::loader_inputs::input_of;
use crate::loader_inputs::is_modeled_variable;
use crate::loader_inputs::searched_inputs;
use crate::loader_inputs::settings_are_modeled;
use crate::loader_inputs::sysroot_of;
use crate::loader_inputs::CompilerLoaderInput;
use crate::loader_inputs::ConfiguredVariable;
use crate::loader_inputs::Host;
use crate::loader_inputs::LoaderInput;
use crate::loader_inputs::Place;
use crate::loader_inputs::Root;
use crate::loader_inputs::Roots;
use crate::path_laws::is_plain_name;
use crate::path_laws::law_parents_are_read_back;
use crate::path_laws::law_paths_below;
use crate::text::stands_at;
use crate::unix_path::after_piece;
use crate::unix_path::components;
use crate::unix_path::first_byte;
use crate::unix_path::first_piece;
use crate::unix_path::is_absolute;
use crate::unix_path::is_silent;
use crate::unix_path::joined;
use crate::unix_path::joined_list;
use crate::unix_path::law_path_list_round_trip;
use crate::unix_path::lemma_first_byte;
use crate::unix_path::lemma_first_byte_unique;
use crate::unix_path::lemma_split_all_pieces;
use crate::unix_path::names;
use crate::unix_path::skip_names;
use crate::unix_path::split_all;
use crate::unix_path::trim_back;
use crate::unix_path::trim_front;
use crate::unix_path::PATH_LIST_SEPARATOR;
use crate::unix_path::SEPARATOR;

verus! {

/// A path followed by the path of something below it. An empty path below it
/// stands for the path itself.
pub open spec fn extended(path: Seq<u8>, below: Seq<u8>) -> Seq<u8> {
    if below.len() == 0 {
        path
    } else if path.len() > 0 && path.last() != SEPARATOR {
        path.push(SEPARATOR) + below
    } else {
        path + below
    }
}

/// The pieces of a path come before those of what is below it.
proof fn lemma_skip_extended(body: Seq<u8>, below: Seq<u8>)
    ensures
        names(extended(body, below)) == names(body) + names(below),
        skip_names(extended(body, below), names(body).len() as int) == trim_front(below),
    decreases body.len(),
{
    let full = extended(body, below);
    let count = names(body).len() as int;
    if body.len() == 0 {
        assert(full =~= below);
        assert(names(body) + names(below) =~= names(below));
    } else {
        lemma_first_byte(body, SEPARATOR);
        let at = first_byte(body, SEPARATOR);
        let rest = after_piece(body);
        lemma_skip_extended(rest, below);
        if at < body.len() {
            assert forall|k: int| 0 <= k < at implies full[k] != SEPARATOR by {
                assert(full[k] == body[k]);
            }
            assert(full[at] == body[at]);
            lemma_first_byte_unique(full, SEPARATOR, at);
            assert(first_piece(full) =~= first_piece(body));
            if rest.len() > 0 {
                assert(rest.last() == body.last());
            }
            assert(after_piece(full) =~= extended(rest, below));
        } else if below.len() > 0 {
            assert(body.last() != SEPARATOR);
            assert forall|k: int| 0 <= k < at implies full[k] != SEPARATOR by {
                assert(full[k] == body[k]);
            }
            assert(full[at] == SEPARATOR);
            lemma_first_byte_unique(full, SEPARATOR, at);
            assert(first_piece(full) =~= first_piece(body));
            assert(after_piece(full) =~= extended(rest, below));
        } else {
            assert(after_piece(full) =~= extended(rest, below));
        }
        assert(first_piece(full) == first_piece(body));
        assert(after_piece(full) == extended(rest, below));
        assert(full.len() > 0);
        if is_silent(first_piece(body)) {
            assert(names(body) == names(rest));
            assert(trim_front(full) == trim_front(after_piece(full)));
        } else {
            assert(names(body) == seq![first_piece(body)] + names(rest));
            assert(names(full) =~= names(body) + names(below));
            assert(trim_front(full) == full);
        }
    }
}

/// What stands below an absolute path, found from the path of it.
proof fn lemma_relative_extended(root: Seq<u8>, below: Seq<u8>)
    requires
        is_absolute(root),
    ensures
        relative_or_self(extended(root, below), root) == trim_back(trim_front(below), 0),
{
    let path = extended(root, below);
    let body = root.skip(1);
    assert(path[0] == root[0]);
    lemma_first_byte_unique(path, SEPARATOR, 0);
    lemma_first_byte_unique(root, SEPARATOR, 0);
    assert(first_piece(path) =~= Seq::empty());
    assert(first_piece(root) =~= Seq::empty());
    assert(after_piece(root) =~= body);
    assert(after_piece(path) =~= path.skip(1));
    assert(names(path) == names(path.skip(1)));
    assert(names(root) == names(body));
    if body.len() > 0 {
        assert(body.last() == root.last());
    } else {
        assert(root =~= seq![SEPARATOR]);
    }
    assert(path.skip(1) =~= extended(body, below));
    lemma_skip_extended(body, below);
    let front = seq![seq![SEPARATOR]];
    assert(components(path) =~= components(root) + names(below));
    assert(components(root).is_prefix_of(components(path)));
    assert(components(root).len() == 1 + names(body).len());
}

/// Whether a name can stand in a directory.
pub open spec fn is_entry_name(name: Seq<u8>) -> bool {
    name.len() > 0 && !name.contains(SEPARATOR)
}

/// The path below a root of an entry in the directory that stands `below` it.
pub open spec fn entry_below(below: Seq<u8>, name: Seq<u8>) -> Seq<u8> {
    if below.len() == 0 {
        name
    } else {
        below.push(SEPARATOR) + name
    }
}

/// Joining an entry name to a path below a root.
proof fn lemma_joined_below(root: Seq<u8>, below: Seq<u8>, name: Seq<u8>)
    requires
        is_absolute(root),
        is_entry_name(name),
        below.len() > 0 ==> below.last() != SEPARATOR,
    ensures
        joined(extended(root, below), name) == extended(root, entry_below(below, name)),
        entry_below(below, name).len() > 0,
        entry_below(below, name).last() != SEPARATOR,
{
    assert(name.contains(name[0]));
    assert(name.contains(name.last()));
    assert(!is_absolute(name));
    let path = extended(root, below);
    if below.len() > 0 {
        assert(path.last() == below.last());
        assert(joined(path, name) =~= extended(root, entry_below(below, name)));
    }
}

/// Whether two canonical paths stand at the same place: below their own roots,
/// or at one path outside of both.
pub open spec fn at_same_place(
    left: Seq<u8>,
    right: Seq<u8>,
    left_root: Seq<u8>,
    right_root: Seq<u8>,
) -> bool {
    ||| (left_root.is_prefix_of(left) && right_root.is_prefix_of(right) && left.skip(
        left_root.len() as int,
    ) == right.skip(right_root.len() as int))
    ||| (left == right && !left_root.is_prefix_of(left) && !right_root.is_prefix_of(right))
}

/// A place has one path below each root.
proof fn lemma_places_are_one_to_one(
    a: Seq<u8>,
    b: Seq<u8>,
    c: Seq<u8>,
    d: Seq<u8>,
    left_root: Seq<u8>,
    right_root: Seq<u8>,
)
    requires
        at_same_place(a, b, left_root, right_root),
        at_same_place(c, d, left_root, right_root),
    ensures
        (a == c) == (b == d),
{
    let l = left_root.len() as int;
    let r = right_root.len() as int;
    if left_root.is_prefix_of(a) && left_root.is_prefix_of(c) {
        assert(a =~= left_root + a.skip(l));
        assert(c =~= left_root + c.skip(l));
        assert(b =~= right_root + b.skip(r));
        assert(d =~= right_root + d.skip(r));
    }
}

/// Whether the same places were visited, in the same order.
pub open spec fn visited_alike(
    left: Seq<Seq<u8>>,
    right: Seq<Seq<u8>>,
    left_root: Seq<u8>,
    right_root: Seq<u8>,
) -> bool {
    &&& left.len() == right.len()
    &&& forall|i: int|
        #![trigger left[i]]
        #![trigger right[i]]
        0 <= i < left.len() ==> at_same_place(left[i], right[i], left_root, right_root)
}

/// A place was visited on one side where it was visited on the other.
proof fn lemma_visited_alike(
    left: Seq<Seq<u8>>,
    right: Seq<Seq<u8>>,
    a: Seq<u8>,
    b: Seq<u8>,
    left_root: Seq<u8>,
    right_root: Seq<u8>,
)
    requires
        visited_alike(left, right, left_root, right_root),
        at_same_place(a, b, left_root, right_root),
    ensures
        left.contains(a) == right.contains(b),
        visited_alike(left.push(a), right.push(b), left_root, right_root),
{
    if left.contains(a) {
        let k = choose|k: int| 0 <= k < left.len() && left[k] == a;
        lemma_places_are_one_to_one(left[k], right[k], a, b, left_root, right_root);
        assert(right[k] == b);
    }
    if right.contains(b) {
        let k = choose|k: int| 0 <= k < right.len() && right[k] == b;
        lemma_places_are_one_to_one(left[k], right[k], a, b, left_root, right_root);
        assert(left[k] == a);
    }
}

/// The position of the `left`-last entry of a listing, by name.
pub open spec fn position_by_name(entries: Seq<Entry>, left: int) -> int {
    name_positions(entries)[entries.len() - left]
}

/// Whether two directories hold the same: entries of the same names that point
/// to the same, libraries of the same contents, and the same in their
/// directories, each at the same place.
pub open spec fn same_directory(
    left: Directory,
    right: Directory,
    left_root: Seq<u8>,
    right_root: Seq<u8>,
) -> bool
    decreases left,
{
    match (left.canonical, right.canonical) {
        (Lookup::Missing, Lookup::Missing) => true,
        (Lookup::Failed, Lookup::Failed) => true,
        (Lookup::Found(l), Lookup::Found(r)) => at_same_place(l@, r@, left_root, right_root)
            && match (left.entries, right.entries) {
            (Lookup::Missing, Lookup::Missing) => true,
            (Lookup::Failed, Lookup::Failed) => true,
            (Lookup::Found(l), Lookup::Found(r)) => l@.len() == r@.len() && same_entries(
                l,
                r,
                l@.len() as int,
                left_root,
                right_root,
            ),
            _ => false,
        },
        _ => false,
    }
}

/// Whether the last `count` entries of two listings, in the order of their
/// names, are the same.
pub open spec fn same_entries(
    left: Vec<Entry>,
    right: Vec<Entry>,
    count: int,
    left_root: Seq<u8>,
    right_root: Seq<u8>,
) -> bool
    decreases left, count,
{
    if count <= 0 || count > left@.len() || count > right@.len() {
        true
    } else {
        let at = position_by_name(left@, count);
        let other = position_by_name(right@, count);
        &&& 0 <= at < left@.len()
        &&& 0 <= other < right@.len()
        &&& same_entry_name(left[at], right[other])
        &&& match (left[at].content, right[other].content) {
            (Content::Directory(l), Content::Directory(r)) => same_directory(
                l,
                r,
                left_root,
                right_root,
            ),
            (Content::File(l), Content::File(r)) => {
                let library = may_be_library(left[at].name@, l.header@);
                &&& library == may_be_library(right[other].name@, r.header@)
                &&& library ==> l.contents@ == r.contents@
            },
            (Content::Other, Content::Other) => true,
            (Content::Unreadable, Content::Unreadable) => true,
            _ => false,
        }
        &&& same_entries(left, right, count - 1, left_root, right_root)
    }
}

/// Whether two entries have the same name and point to the same.
pub open spec fn same_entry_name(left: Entry, right: Entry) -> bool {
    &&& is_entry_name(left.name@)
    &&& left.name@ == right.name@
    &&& optional(left.link) == optional(right.link)
}

/// Whether two walks gave the same text and visited the same places.
pub open spec fn same_frames(
    left: Option<Frames>,
    right: Option<Frames>,
    left_root: Seq<u8>,
    right_root: Seq<u8>,
) -> bool {
    match (left, right) {
        (Some(l), Some(r)) => l.0 == r.0 && visited_alike(l.1, r.1, left_root, right_root),
        (None, None) => true,
        _ => false,
    }
}

/// Whether two walks are made in the same way, from absolute paths, and give
/// canonical paths only where these are the same.
pub open spec fn same_mode(
    left: Mode,
    right: Mode,
    left_root: Seq<u8>,
    right_root: Seq<u8>,
) -> bool {
    &&& is_absolute(left.0)
    &&& is_absolute(right.0)
    &&& left.1 == right.1
    &&& left.2 == right.2
    &&& !left.2 ==> left_root.len() == 0 && right_root.len() == 0
}

/// The same directories give the same text.
proof fn lemma_same_directory(
    left: Directory,
    right: Directory,
    left_mode: Mode,
    right_mode: Mode,
    below: Seq<u8>,
    left_visited: Seq<Seq<u8>>,
    right_visited: Seq<Seq<u8>>,
    left_root: Seq<u8>,
    right_root: Seq<u8>,
)
    requires
        same_directory(left, right, left_root, right_root),
        same_mode(left_mode, right_mode, left_root, right_root),
        below.len() > 0 ==> below.last() != SEPARATOR,
        visited_alike(left_visited, right_visited, left_root, right_root),
    ensures
        same_frames(
            directory_frames(left, left_mode, extended(left_mode.0, below), left_visited),
            directory_frames(right, right_mode, extended(right_mode.0, below), right_visited),
            left_root,
            right_root,
        ),
    decreases left,
{
    let path = extended(left_mode.0, below);
    let other = extended(right_mode.0, below);
    if let (Lookup::Found(a), Lookup::Found(b)) = (left.canonical, right.canonical) {
        lemma_relative_extended(left_mode.0, below);
        lemma_relative_extended(right_mode.0, below);
        if !left_mode.2 {
            assert(left_root.is_prefix_of(a@));
            assert(right_root.is_prefix_of(b@));
            assert(a@.skip(0) =~= a@);
            assert(b@.skip(0) =~= b@);
        }
        assert(directory_heading(left_mode, path, a@) == directory_heading(right_mode, other, b@));
        lemma_visited_alike(left_visited, right_visited, a@, b@, left_root, right_root);
        let seen = if left_mode.1 {
            left_visited.push(a@)
        } else {
            left_visited
        };
        let also = if right_mode.1 {
            right_visited.push(b@)
        } else {
            right_visited
        };
        if let (Lookup::Found(l), Lookup::Found(r)) = (left.entries, right.entries) {
            lemma_same_entries(
                l,
                r,
                l@.len() as int,
                left_mode,
                right_mode,
                below,
                seen,
                also,
                left_root,
                right_root,
            );
        }
    }
}

/// The same entries give the same text.
#[verifier::spinoff_prover]
#[verifier::rlimit(60)]
proof fn lemma_same_entries(
    left: Vec<Entry>,
    right: Vec<Entry>,
    count: int,
    left_mode: Mode,
    right_mode: Mode,
    below: Seq<u8>,
    left_visited: Seq<Seq<u8>>,
    right_visited: Seq<Seq<u8>>,
    left_root: Seq<u8>,
    right_root: Seq<u8>,
)
    requires
        left@.len() == right@.len(),
        same_entries(left, right, count, left_root, right_root),
        same_mode(left_mode, right_mode, left_root, right_root),
        below.len() > 0 ==> below.last() != SEPARATOR,
        visited_alike(left_visited, right_visited, left_root, right_root),
    ensures
        same_frames(
            entries_frames(left, count, left_mode, extended(left_mode.0, below), left_visited),
            entries_frames(right, count, right_mode, extended(right_mode.0, below), right_visited),
            left_root,
            right_root,
        ),
    decreases left, count,
{
    if 0 < count <= left@.len() {
        let at = position_by_name(left@, count);
        let other = position_by_name(right@, count);
        let entry = left[at];
        let also = right[other];
        let inner = entry_below(below, entry.name@);
        lemma_joined_below(left_mode.0, below, entry.name@);
        lemma_joined_below(right_mode.0, below, entry.name@);
        lemma_relative_extended(left_mode.0, inner);
        lemma_relative_extended(right_mode.0, inner);
        let place = joined(extended(left_mode.0, below), entry.name@);
        let other_place = joined(extended(right_mode.0, below), also.name@);
        assert(link_frames(entry, left_mode, place) == link_frames(also, right_mode, other_place));
        let (lv, rv) = match (entry.content, also.content) {
            (Content::Directory(l), Content::Directory(r)) => {
                if left_mode.1 {
                    lemma_same_directory(
                        l,
                        r,
                        left_mode,
                        right_mode,
                        inner,
                        left_visited,
                        right_visited,
                        left_root,
                        right_root,
                    );
                    match (
                        directory_frames(l, left_mode, place, left_visited),
                        directory_frames(r, right_mode, other_place, right_visited),
                    ) {
                        (Some(l), Some(r)) => (l.1, r.1),
                        _ => (left_visited, right_visited),
                    }
                } else {
                    (left_visited, right_visited)
                }
            },
            _ => (left_visited, right_visited),
        };
        lemma_same_entries(
            left,
            right,
            count - 1,
            left_mode,
            right_mode,
            below,
            lv,
            rv,
            left_root,
            right_root,
        );
    }
}

/// The canonical path of the root that a search path stands below; empty where
/// it stands below none.
pub open spec fn canonical_root(disk: Disk, place: Place) -> Seq<u8> {
    match place {
        Some((_, root, _)) => match disk.canonical(root) {
            Some(root) => root,
            None => Seq::empty(),
        },
        None => Seq::empty(),
    }
}

/// A search path on a disk: the path, what stands there, and what covers it.
pub struct Searched {
    pub disk: Disk,
    pub input: CompilerLoaderInput,
    pub directory: Directory,
    pub witness: Option<ArtifactCacheIdentityWitness>,
}

/// Whether two search paths stand at the same place and hold the same: below
/// portable roots of one kind, where they still stand, or at one path. The
/// compiler identity covers both, or neither.
pub open spec fn searched_alike(host: Host, left: Searched, right: Searched) -> bool {
    let l = left.input.input();
    let r = right.input.input();
    &&& l.0 == r.0
    &&& is_absolute(l.2)
    &&& is_absolute(r.2)
    &&& match (l.3, r.3) {
        (Some((kind, root, relative)), Some((other_kind, other_root, other_relative))) => {
            &&& kind == other_kind
            &&& relative == other_relative
            &&& location_error(left.disk, l.2, root, relative, 0) is None
            &&& location_error(right.disk, r.2, other_root, other_relative, 0) is None
        },
        (None, None) => l.2 == r.2,
        _ => false,
    }
    &&& same_directory(
        left.directory,
        right.directory,
        canonical_root(left.disk, l.3),
        canonical_root(right.disk, r.3),
    )
    &&& hashes_contents(host, left.disk, l, left.directory, left.witness) == hashes_contents(
        host,
        right.disk,
        r,
        right.directory,
        right.witness,
    )
}

/// The search path at a position.
pub open spec fn searched_at(
    disk: Disk,
    inputs: Seq<CompilerLoaderInput>,
    directories: Seq<Directory>,
    witness: Option<ArtifactCacheIdentityWitness>,
    i: int,
) -> Searched {
    Searched { disk, input: inputs[i], directory: directories[i], witness }
}

/// A search path that stands at the same place and holds the same has the same
/// text.
proof fn lemma_searched_alike(host: Host, left: Searched, right: Searched, position: usize)
    requires
        searched_alike(host, left, right),
    ensures
        input_frames(
            host,
            left.disk,
            left.input.input(),
            left.directory,
            left.witness,
            position,
        ) == input_frames(
            host,
            right.disk,
            right.input.input(),
            right.directory,
            right.witness,
            position,
        ),
{
    let l = left.input.input();
    let r = right.input.input();
    let left_mode = (l.2, host.linux, l.3 is Some);
    let right_mode = (r.2, host.linux, r.3 is Some);
    assert(extended(l.2, Seq::empty()) == l.2);
    assert(extended(r.2, Seq::empty()) == r.2);
    lemma_same_directory(
        left.directory,
        right.directory,
        left_mode,
        right_mode,
        Seq::empty(),
        Seq::empty(),
        Seq::empty(),
        canonical_root(left.disk, l.3),
        canonical_root(right.disk, r.3),
    );
    assert(library_inputs(host, left.directory, l.2, l.3 is Some) == library_inputs(
        host,
        right.directory,
        r.2,
        r.3 is Some,
    ));
}

/// Search paths that stand at the same places and hold the same have the same
/// text.
proof fn lemma_inputs_alike(
    host: Host,
    left_disk: Disk,
    right_disk: Disk,
    left: Seq<CompilerLoaderInput>,
    right: Seq<CompilerLoaderInput>,
    left_directories: Seq<Directory>,
    right_directories: Seq<Directory>,
    left_witness: Option<ArtifactCacheIdentityWitness>,
    right_witness: Option<ArtifactCacheIdentityWitness>,
    count: int,
)
    requires
        left.len() == right.len(),
        left.len() == left_directories.len(),
        right.len() == right_directories.len(),
        forall|i: int|
            0 <= i < left.len() ==> searched_alike(
                host,
                #[trigger] searched_at(left_disk, left, left_directories, left_witness, i),
                searched_at(right_disk, right, right_directories, right_witness, i),
            ),
    ensures
        inputs_frames(host, left_disk, left, left_directories, left_witness, count)
            == inputs_frames(host, right_disk, right, right_directories, right_witness, count),
    decreases count,
{
    if 0 < count <= left.len() {
        lemma_inputs_alike(
            host,
            left_disk,
            right_disk,
            left,
            right,
            left_directories,
            right_directories,
            left_witness,
            right_witness,
            count - 1,
        );
        lemma_searched_alike(
            host,
            searched_at(left_disk, left, left_directories, left_witness, count - 1),
            searched_at(right_disk, right, right_directories, right_witness, count - 1),
            (count - 1) as usize,
        );
    }
}

/// Where the portable roots stand does not take part in the loader text: on two
/// disks whose searched directories stand at the same places below their own
/// roots and hold the same libraries, the text is the same. Nested libraries,
/// which have no text, are on both disks or on neither.
pub proof fn law_loader_texts_are_shared_across_locations(
    host: Host,
    left_disk: Disk,
    right_disk: Disk,
    left: Seq<CompilerLoaderInput>,
    right: Seq<CompilerLoaderInput>,
    left_directories: Seq<Directory>,
    right_directories: Seq<Directory>,
    left_witness: Option<ArtifactCacheIdentityWitness>,
    right_witness: Option<ArtifactCacheIdentityWitness>,
)
    requires
        left.len() == right.len(),
        left.len() == left_directories.len(),
        right.len() == right_directories.len(),
        searches_are_modeled(host, left_directories) == searches_are_modeled(
            host,
            right_directories,
        ),
        forall|i: int|
            0 <= i < left.len() ==> searched_alike(
                host,
                #[trigger] searched_at(left_disk, left, left_directories, left_witness, i),
                searched_at(right_disk, right, right_directories, right_witness, i),
            ),
    ensures
        loader_text(host, left_disk, left, left_directories, left_witness) == loader_text(
            host,
            right_disk,
            right,
            right_directories,
            right_witness,
        ),
{
    lemma_inputs_alike(
        host,
        left_disk,
        right_disk,
        left,
        right,
        left_directories,
        right_directories,
        left_witness,
        right_witness,
        left.len() as int,
    );
}

/// Whether two directories hold the same but for the contents of libraries.
pub open spec fn same_but_contents(left: Directory, right: Directory) -> bool {
    match (left.canonical, right.canonical) {
        (Lookup::Found(l), Lookup::Found(r)) => l@ == r@ && match (left.entries, right.entries) {
            (Lookup::Missing, Lookup::Missing) => true,
            (Lookup::Failed, Lookup::Failed) => true,
            (Lookup::Found(l), Lookup::Found(r)) => l@.len() == r@.len() && forall|i: int|
                0 < i <= l@.len() ==> #[trigger] same_but_contents_at(l@, r@, i),
            _ => false,
        },
        (Lookup::Missing, Lookup::Missing) => true,
        (Lookup::Failed, Lookup::Failed) => true,
        _ => false,
    }
}

/// Whether the `count`-last entries of two listings by name are the same but
/// for the contents of a library. Digests have one length.
pub open spec fn same_but_contents_at(left: Seq<Entry>, right: Seq<Entry>, count: int) -> bool {
    let at = position_by_name(left, count);
    let other = position_by_name(right, count);
    &&& 0 <= at < left.len()
    &&& 0 <= other < right.len()
    &&& same_entry_name(left[at], right[other])
    &&& match (left[at].content, right[other].content) {
        (Content::Directory(l), Content::Directory(r)) => same_directory(
            l,
            r,
            Seq::empty(),
            Seq::empty(),
        ),
        (Content::File(l), Content::File(r)) => {
            &&& may_be_library(left[at].name@, l.header@) == may_be_library(
                right[other].name@,
                r.header@,
            )
            &&& blake3_digest(l.contents@).len() == blake3_digest(r.contents@).len()
        },
        (Content::Other, Content::Other) => true,
        (Content::Unreadable, Content::Unreadable) => true,
        _ => false,
    }
}

/// Whether the `count`-last entries of two listings by name, where they are
/// libraries, have contents of one digest.
pub open spec fn same_library_at(left: Seq<Entry>, right: Seq<Entry>, count: int) -> bool {
    let entry = left[position_by_name(left, count)];
    let other = right[position_by_name(right, count)];
    match (entry.content, other.content) {
        (Content::File(l), Content::File(r)) => may_be_library(entry.name@, l.header@)
            ==> blake3_digest(l.contents@) == blake3_digest(r.contents@),
        _ => true,
    }
}

/// The same visited paths.
proof fn lemma_same_visited(left: Seq<Seq<u8>>, right: Seq<Seq<u8>>)
    ensures
        visited_alike(left, right, Seq::empty(), Seq::empty()) <==> left == right,
{
    if visited_alike(left, right, Seq::empty(), Seq::empty()) {
        assert forall|i: int| 0 <= i < left.len() implies left[i] == right[i] by {
            assert(Seq::<u8>::empty().is_prefix_of(left[i]));
            assert(Seq::<u8>::empty().is_prefix_of(right[i]));
            assert(left[i].skip(0) =~= left[i]);
            assert(right[i].skip(0) =~= right[i]);
        }
        assert(left =~= right);
    }
    if left == right {
        assert forall|i: int| 0 <= i < left.len() implies at_same_place(
            #[trigger] left[i],
            right[i],
            Seq::empty(),
            Seq::empty(),
        ) by {
            assert(Seq::<u8>::empty().is_prefix_of(left[i]));
        }
    }
}

/// Entries that are the same but for the contents of libraries have texts of
/// one length, and the same text only where the digests are the same.
#[verifier::rlimit(40)]
proof fn lemma_contents_take_part(
    left: Vec<Entry>,
    right: Vec<Entry>,
    count: int,
    mode: Mode,
    visited: Seq<Seq<u8>>,
)
    requires
        left@.len() == right@.len(),
        0 <= count <= left@.len(),
        is_absolute(mode.0),
        forall|i: int| 0 < i <= count ==> #[trigger] same_but_contents_at(left@, right@, i),
    ensures
        match (
            entries_frames(left, count, mode, mode.0, visited),
            entries_frames(right, count, mode, mode.0, visited),
        ) {
            (Some(l), Some(r)) => {
                &&& l.0.len() == r.0.len()
                &&& l.1 == r.1
                &&& l.0 == r.0 ==> forall|i: int|
                    0 < i <= count ==> #[trigger] same_library_at(left@, right@, i)
            },
            (None, None) => true,
            _ => false,
        },
    decreases count,
{
    if count > 0 {
        assert(same_but_contents_at(left@, right@, count));
        let at = position_by_name(left@, count);
        let other = position_by_name(right@, count);
        let entry = left[at];
        let also = right[other];
        let place = joined(mode.0, entry.name@);
        let links = link_frames(entry, mode, place);
        assert(links == link_frames(also, mode, place));
        let mut seen = visited;
        let mut lh = links;
        let mut rh = links;
        let mut readable = true;
        match (entry.content, also.content) {
            (Content::Directory(l), Content::Directory(r)) => {
                if mode.1 {
                    lemma_joined_below(mode.0, Seq::empty(), entry.name@);
                    assert(extended(mode.0, Seq::empty()) == mode.0);
                    lemma_same_visited(visited, visited);
                    lemma_same_inside(l, r, mode, entry.name@, visited);
                    match (
                        directory_frames(l, mode, place, visited),
                        directory_frames(r, mode, place, visited),
                    ) {
                        (Some(l), Some(r)) => {
                            seen = l.1;
                            lh = links + l.0;
                            rh = links + r.0;
                        },
                        _ => {
                            readable = false;
                        },
                    }
                }
            },
            (Content::File(l), Content::File(r)) => {
                if may_be_library(entry.name@, l.header@) {
                    let front = links + frame(utf8("compiler-loader-search-input"@)) + frame(
                        relative_or_self(place, mode.0),
                    );
                    lh = front + blake3_digest(l.contents@);
                    rh = front + blake3_digest(r.contents@);
                    if lh == rh {
                        lemma_split_parts(
                            front,
                            blake3_digest(l.contents@),
                            front,
                            blake3_digest(r.contents@),
                        );
                    }
                }
            },
            _ => {},
        }
        assert(lh.len() == rh.len());
        assert(lh == rh ==> same_library_at(left@, right@, count));
        if readable {
            lemma_contents_take_part(left, right, count - 1, mode, seen);
            let lt = entries_frames(left, count - 1, mode, mode.0, seen);
            let rt = entries_frames(right, count - 1, mode, mode.0, seen);
            if let (Some(lt), Some(rt)) = (lt, rt) {
                assert(entries_frames(left, count, mode, mode.0, visited) == Some(
                    (lh + lt.0, lt.1),
                ));
                assert(entries_frames(right, count, mode, mode.0, visited) == Some(
                    (rh + rt.0, rt.1),
                ));
                if lh + lt.0 == rh + rt.0 {
                    lemma_split_parts(lh, lt.0, rh, rt.0);
                    assert forall|i: int| 0 < i <= count implies #[trigger] same_library_at(
                        left@,
                        right@,
                        i,
                    ) by {
                        if i < count {
                            assert(0 < i <= count - 1);
                        }
                    }
                }
            }
        }
    }
}

/// The same directories at one place give the same walk.
proof fn lemma_same_inside(
    left: Directory,
    right: Directory,
    mode: Mode,
    name: Seq<u8>,
    visited: Seq<Seq<u8>>,
)
    requires
        same_directory(left, right, Seq::empty(), Seq::empty()),
        is_absolute(mode.0),
        is_entry_name(name),
    ensures
        directory_frames(left, mode, joined(mode.0, name), visited) == directory_frames(
            right,
            mode,
            joined(mode.0, name),
            visited,
        ),
{
    lemma_joined_below(mode.0, Seq::empty(), name);
    assert(extended(mode.0, Seq::empty()) == mode.0);
    lemma_same_visited(visited, visited);
    lemma_same_directory(
        left,
        right,
        mode,
        mode,
        name,
        visited,
        visited,
        Seq::empty(),
        Seq::empty(),
    );
    if let (Some(l), Some(r)) = (
        directory_frames(left, mode, joined(mode.0, name), visited),
        directory_frames(right, mode, joined(mode.0, name), visited),
    ) {
        lemma_same_visited(l.1, r.1);
    }
}

/// Whether the libraries of two directories have the same digests.
pub open spec fn same_libraries(left: Directory, right: Directory) -> bool {
    match (left.canonical, left.entries, right.entries) {
        (Lookup::Found(_), Lookup::Found(l), Lookup::Found(r)) => forall|i: int|
            0 < i <= l@.len() ==> #[trigger] same_library_at(l@, r@, i),
        _ => true,
    }
}

/// Whether two directories searched for one input hold the same but for the
/// contents of libraries. The compiler identity covers both, or neither.
pub open spec fn searched_but_contents(host: Host, left: Searched, right: Searched) -> bool {
    let input = left.input.input();
    &&& is_absolute(input.2)
    &&& same_but_contents(left.directory, right.directory)
    &&& hashes_contents(host, left.disk, input, left.directory, left.witness) == hashes_contents(
        host,
        left.disk,
        input,
        right.directory,
        left.witness,
    )
}

/// The text of a search path has the same length whatever libraries hold, and
/// is the same only where their digests are.
proof fn lemma_searched_but_contents(
    host: Host,
    left: Searched,
    right: Searched,
    position: usize,
)
    requires
        searched_but_contents(host, left, right),
    ensures
        ({
            let input = left.input.input();
            match (
                input_frames(host, left.disk, input, left.directory, left.witness, position),
                input_frames(host, left.disk, input, right.directory, left.witness, position),
            ) {
                (Ok(l), Ok(r)) => {
                    &&& l.len() == r.len()
                    &&& (l == r && hashes_contents(
                        host,
                        left.disk,
                        input,
                        left.directory,
                        left.witness,
                    )) ==> same_libraries(left.directory, right.directory)
                },
                (Err(l), Err(r)) => l == r,
                _ => false,
            }
        }),
{
    let input = left.input.input();
    let mode = (input.2, host.linux, input.3 is Some);
    let none = Seq::<Seq<u8>>::empty();
    if let (Lookup::Found(a), Lookup::Found(b)) = (
        left.directory.canonical,
        right.directory.canonical,
    ) {
        let seen = if mode.1 {
            none.push(a@)
        } else {
            none
        };
        let heading = directory_heading(mode, mode.0, a@);
        if let (Lookup::Found(l), Lookup::Found(r)) = (
            left.directory.entries,
            right.directory.entries,
        ) {
            lemma_contents_take_part(l, r, l@.len() as int, mode, seen);
            let named = frame(utf8(input.0)) + match input.3 {
                Some((kind, root, relative)) => frame(utf8(root_name(kind))) + frame(relative),
                None => frame(input.2),
            };
            if let (Some(x), Some(y)) = (
                entries_frames(l, l@.len() as int, mode, mode.0, seen),
                entries_frames(r, r@.len() as int, mode, mode.0, seen),
            ) {
                if named + (heading + x.0) == named + (heading + y.0) {
                    lemma_split_parts(named, heading + x.0, named, heading + y.0);
                    lemma_split_parts(heading, x.0, heading, y.0);
                }
            }
        }
    }
}

/// The text of search paths has the same length whatever libraries hold, and
/// is the same only where their digests are.
proof fn lemma_inputs_but_contents(
    host: Host,
    disk: Disk,
    inputs: Seq<CompilerLoaderInput>,
    left: Seq<Directory>,
    right: Seq<Directory>,
    witness: Option<ArtifactCacheIdentityWitness>,
    count: int,
)
    requires
        inputs.len() == left.len(),
        inputs.len() == right.len(),
        0 <= count <= inputs.len(),
        forall|i: int|
            0 <= i < inputs.len() ==> searched_but_contents(
                host,
                #[trigger] searched_at(disk, inputs, left, witness, i),
                searched_at(disk, inputs, right, witness, i),
            ),
    ensures
        match (
            inputs_frames(host, disk, inputs, left, witness, count),
            inputs_frames(host, disk, inputs, right, witness, count),
        ) {
            (Ok(l), Ok(r)) => {
                &&& l.len() == r.len()
                &&& l == r ==> forall|i: int|
                    0 <= i < count && hashes_contents(
                        host,
                        disk,
                        inputs[i].input(),
                        left[i],
                        witness,
                    ) ==> same_libraries(#[trigger] left[i], right[i])
            },
            (Err(l), Err(r)) => l == r,
            _ => false,
        },
    decreases count,
{
    if count > 0 {
        let last = count - 1;
        lemma_inputs_but_contents(host, disk, inputs, left, right, witness, last);
        lemma_searched_but_contents(
            host,
            searched_at(disk, inputs, left, witness, last),
            searched_at(disk, inputs, right, witness, last),
            last as usize,
        );
        let input = inputs[last].input();
        if let (Ok(a), Ok(b), Ok(c), Ok(d)) = (
            inputs_frames(host, disk, inputs, left, witness, last),
            inputs_frames(host, disk, inputs, right, witness, last),
            input_frames(host, disk, input, left[last], witness, last as usize),
            input_frames(host, disk, input, right[last], witness, last as usize),
        ) {
            if a + c == b + d {
                lemma_split_parts(a, c, b, d);
            }
        }
    }
}

/// Libraries take part in the loader text: where the contents of libraries in a
/// searched directory have other digests, the text is another. The directory is
/// one whose contents the compiler identity does not cover, as it never covers
/// those below a target directory.
pub proof fn law_libraries_take_part_in_loader_texts(
    host: Host,
    disk: Disk,
    inputs: Seq<CompilerLoaderInput>,
    left: Seq<Directory>,
    right: Seq<Directory>,
    witness: Option<ArtifactCacheIdentityWitness>,
    at: int,
)
    requires
        inputs.len() == left.len(),
        inputs.len() == right.len(),
        forall|i: int|
            0 <= i < inputs.len() ==> searched_but_contents(
                host,
                #[trigger] searched_at(disk, inputs, left, witness, i),
                searched_at(disk, inputs, right, witness, i),
            ),
        0 <= at < inputs.len(),
        hashes_contents(host, disk, inputs[at].input(), left[at], witness),
        !same_libraries(left[at], right[at]),
        loader_text(host, disk, inputs, left, witness) is Ok,
    ensures
        loader_text(host, disk, inputs, left, witness) != loader_text(
            host,
            disk,
            inputs,
            right,
            witness,
        ),
{
    lemma_inputs_but_contents(host, disk, inputs, left, right, witness, inputs.len() as int);
}

/// The contents of what stands below a target directory are always hashed.
pub proof fn law_target_directories_are_hashed(
    host: Host,
    disk: Disk,
    input: CompilerLoaderInput,
    directory: Directory,
    witness: Option<ArtifactCacheIdentityWitness>,
)
    requires
        input.location is TargetProfile,
    ensures
        hashes_contents(host, disk, input.input(), directory, witness),
{
}

/// Whether a name is that of a library by its ending, or by a `.so` within it.
pub open spec fn looks_like_library(name: Seq<char>) -> bool {
    ||| exists|stem: Seq<char>| name == #[trigger] (stem + ".dylib"@)
    ||| exists|stem: Seq<char>| name == #[trigger] (stem + ".dll"@)
    ||| exists|front: Seq<char>, back: Seq<char>| name == #[trigger] (front + ".so"@ + back)
}

/// A file with the name of a library may be one, whatever it holds.
pub proof fn law_library_names_are_libraries(name: Seq<u8>, header: Seq<u8>)
    requires
        looks_like_library(lossy_text(name)),
    ensures
        may_be_library(name, header),
{
    let text = lossy_text(name);
    if exists|stem: Seq<char>| text == #[trigger] (stem + ".dylib"@) {
        let stem = choose|stem: Seq<char>| text == #[trigger] (stem + ".dylib"@);
        assert(text.skip(stem.len() as int) =~= ".dylib"@);
        assert(".dylib"@.is_suffix_of(text));
    } else if exists|stem: Seq<char>| text == #[trigger] (stem + ".dll"@) {
        let stem = choose|stem: Seq<char>| text == #[trigger] (stem + ".dll"@);
        assert(text.skip(stem.len() as int) =~= ".dll"@);
        assert(".dll"@.is_suffix_of(text));
    } else {
        let (front, back) = choose|front: Seq<char>, back: Seq<char>|
            text == #[trigger] (front + ".so"@ + back);
        let rest = text.skip(front.len() as int);
        assert(rest =~= ".so"@ + back);
        assert(".so"@.is_prefix_of(rest)) by {
            assert(rest.take(".so"@.len() as int) =~= ".so"@);
        }
        assert(stands_at(text, ".so"@, front.len() as int));
    }
}

/// Whether a header begins with four bytes.
pub open spec fn begins_with(header: Seq<u8>, a: u8, b: u8, c: u8, d: u8) -> bool {
    header.len() >= 4 && header[0] == a && header[1] == b && header[2] == c && header[3] == d
}

/// A file with another name may be a library by its header. An ELF file is one
/// where its type is 3, read in the byte order that the header names; a Mach-O
/// file where its type is 6 or 8, read in the order of its magic number. Fat
/// Mach-O files and files that begin with `MZ` may always be, and nothing else
/// is.
pub proof fn law_library_headers_are_libraries(name: Seq<u8>, header: Seq<u8>)
    requires
        header.len() >= 18,
        !is_runtime_name(lossy_text(name)),
    ensures
        begins_with(header, 0x7f, 0x45, 0x4c, 0x46) ==> {
            &&& header[5] == 1 ==> may_be_library(name, header) == (header[16] == 3 && header[17]
                == 0)
            &&& header[5] == 2 ==> may_be_library(name, header) == (header[16] == 0 && header[17]
                == 3)
            &&& header[5] != 1 && header[5] != 2 ==> may_be_library(name, header)
        },
        begins_with(header, 0xcf, 0xfa, 0xed, 0xfe) || begins_with(header, 0xce, 0xfa, 0xed, 0xfe)
            ==> may_be_library(name, header) == ((header[12] == 6 || header[12] == 8) && header[13]
            == 0 && header[14] == 0 && header[15] == 0),
        begins_with(header, 0xfe, 0xed, 0xfa, 0xcf) || begins_with(header, 0xfe, 0xed, 0xfa, 0xce)
            ==> may_be_library(name, header) == ((header[15] == 6 || header[15] == 8) && header[14]
            == 0 && header[13] == 0 && header[12] == 0),
        begins_with(header, 0xca, 0xfe, 0xba, 0xbe) || begins_with(header, 0xbe, 0xba, 0xfe, 0xca)
            || begins_with(header, 0xca, 0xfe, 0xba, 0xbf) || begins_with(
            header,
            0xbf,
            0xba,
            0xfe,
            0xca,
        ) ==> may_be_library(name, header),
        header[0] == 0x4d && header[1] == 0x5a ==> may_be_library(name, header),
        header[0] != 0x7f && header[0] != 0xcf && header[0] != 0xce && header[0] != 0xfe
            && header[0] != 0xca && header[0] != 0xbe && header[0] != 0xbf && header[0] != 0x4d
            ==> !may_be_library(name, header),
{
    lemma_begins(header, 0x7f, 0x45, 0x4c, 0x46);
    lemma_begins(header, 0xfe, 0xed, 0xfa, 0xce);
    lemma_begins(header, 0xfe, 0xed, 0xfa, 0xcf);
    lemma_begins(header, 0xce, 0xfa, 0xed, 0xfe);
    lemma_begins(header, 0xcf, 0xfa, 0xed, 0xfe);
    lemma_begins(header, 0xca, 0xfe, 0xba, 0xbe);
    lemma_begins(header, 0xbe, 0xba, 0xfe, 0xca);
    lemma_begins(header, 0xca, 0xfe, 0xba, 0xbf);
    lemma_begins(header, 0xbf, 0xba, 0xfe, 0xca);
    let mark = seq![0x4du8, 0x5au8];
    if header[0] == 0x4d && header[1] == 0x5a {
        assert(header.take(2) =~= mark);
        assert(mark.is_prefix_of(header));
    }
    if mark.is_prefix_of(header) {
        assert(header[0] == mark[0]);
    }
}

/// Four bytes begin a header where they are a prefix of it.
proof fn lemma_begins(header: Seq<u8>, a: u8, b: u8, c: u8, d: u8)
    ensures
        seq![a, b, c, d].is_prefix_of(header) == begins_with(header, a, b, c, d),
{
    let mark = seq![a, b, c, d];
    if begins_with(header, a, b, c, d) {
        assert(header.take(4) =~= mark);
    }
    if mark.is_prefix_of(header) {
        assert(header[0] == mark[0]);
        assert(header[1] == mark[1]);
        assert(header[2] == mark[2]);
        assert(header[3] == mark[3]);
    }
}

/// The names that stand for roots tell the roots apart.
pub proof fn law_roots_are_told_apart(left: Root, right: Root)
    requires
        root_name(left) == root_name(right),
    ensures
        left == right,
{
    reveal_strlit("/__cargo_artifact_cache_compiler_sysroot");
    reveal_strlit("/__cargo_artifact_cache_target_profile");
    reveal_strlit("/__cargo_artifact_cache_build_dir");
    reveal_strlit("/__cargo_artifact_cache_rustc_cwd_loader_root");
    assert("/__cargo_artifact_cache_compiler_sysroot"@.len() == 40);
    assert("/__cargo_artifact_cache_target_profile"@.len() == 38);
    assert("/__cargo_artifact_cache_build_dir"@.len() == 33);
    assert("/__cargo_artifact_cache_rustc_cwd_loader_root"@.len() == 45);
    assert(root_name(left).len() == root_name(right).len());
}

/// The compiler identity covers the first entries where it covers more of them.
proof fn lemma_covers_entry(
    witness: ArtifactCacheIdentityWitness,
    entries: Vec<Entry>,
    count: int,
    path: Seq<u8>,
    recurse: bool,
    at: int,
)
    requires
        0 <= at < count <= entries@.len(),
        identity_covers_entries(witness, entries, count, path, recurse),
    ensures
        identity_covers_entries(witness, entries, at + 1, path, recurse),
    decreases count,
{
    if at + 1 < count {
        lemma_covers_entry(witness, entries, count - 1, path, recurse, at);
    }
}

/// A directory that the compiler identity covers holds nothing that it did not
/// see: every file that may be a library is one that it holds, no entry is a
/// link, none is unreadable, and where directories below are searched too, it
/// covers those as well.
pub proof fn law_covered_libraries_were_seen(
    witness: ArtifactCacheIdentityWitness,
    directory: Directory,
    path: Seq<u8>,
    recurse: bool,
    at: int,
)
    requires
        identity_covers(witness, directory, path, recurse),
        directory.entries is Found,
        0 <= at < directory.entries->Found_0@.len(),
    ensures
        ({
            let entry = directory.entries->Found_0@[at];
            &&& entry.link is None
            &&& !(entry.content is Unreadable)
            &&& entry.content matches Content::File(file) ==> (may_be_library(
                entry.name@,
                file.header@,
            ) ==> exists|i: int|
                0 <= i < witness.files@.len() && components(
                    (#[trigger] witness.files@[i]).path@,
                ) == components(joined(path, entry.name@)))
            &&& entry.content matches Content::Directory(inner) ==> (recurse ==> identity_covers(
                witness,
                inner,
                joined(path, entry.name@),
                true,
            ))
        }),
{
    let entries = directory.entries->Found_0;
    lemma_covers_entry(witness, entries, entries@.len() as int, path, recurse, at);
    assert(entries[at] == entries@[at]);
}

/// Whether a variable steers the loader in a way that is not followed: one that
/// begins with `LD_`, one that tunes the C library, or one that begins with
/// `DYLD_`, each on the systems that read it, other than a search path. A search
/// path is followed only without expansions, which `$` begins, and `@` on macOS.
pub open spec fn steers_the_loader(host: Host, name: Seq<char>, value: Seq<u8>) -> bool {
    let is_search_path = name == host.loader_variable@ || (host.macos && (name
        == "DYLD_LIBRARY_PATH"@ || name == "LD_LIBRARY_PATH"@));
    let is_read = (host.unix && "LD_"@.is_prefix_of(name)) || (host.linux && name
        == "GLIBC_TUNABLES"@) || (host.macos && "DYLD_"@.is_prefix_of(name));
    &&& value.len() > 0
    &&& is_read
    &&& is_search_path ==> (host.linux && value.contains(0x24)) || (host.macos && (value.contains(
        0x24,
    ) || value.contains(0x40)))
}

/// An invocation is followed only where nothing that it sets, inherits or is
/// configured with steers the loader in another way; and it is, where nothing does.
pub proof fn law_steered_loaders_are_refused(
    host: Host,
    rustc: &Command,
    configured: Seq<ConfiguredVariable>,
)
    ensures
        settings_are_modeled(host, rustc) <==> (forall|i: int|
            0 <= i < rustc.setting_list().len() ==> ((#[trigger] rustc.setting_list()[i]).1 is Some
                ==> !steers_the_loader(
                host,
                rustc.setting_list()[i].0,
                rustc.setting_list()[i].1->Some_0,
            ))),
        inherited_is_modeled(host, rustc) <==> (forall|i: int|
            0 <= i < rustc.inherited@.len() ==> valid_utf8((#[trigger] rustc.inherited@[i]).name@)
                && !steers_the_loader(
                host,
                decode_utf8(rustc.inherited@[i].name@),
                rustc.inherited@[i].value@,
            )),
        configured_is_modeled(host, configured) <==> (forall|i: int|
            0 <= i < configured.len() ==> !steers_the_loader(
                host,
                (#[trigger] configured[i]).name@,
                utf8(configured[i].value@),
            )),
{
    assert forall|name: Seq<char>, value: Seq<u8>|
        is_modeled_variable(host, name, value) == !#[trigger] steers_the_loader(
            host,
            name,
            value,
        ) by {
        assert(has_expansion(host, value) == ((host.linux && value.contains(0x24)) || (host.macos
            && (value.contains(0x24) || value.contains(0x40)))));
    }
    assert forall|i: int| 0 <= i < rustc.setting_list().len() implies is_modeled_variable(
        host,
        (#[trigger] rustc.setting_list()[i]).0,
        rustc.setting_list()[i].1->0,
    ) == !steers_the_loader(
        host,
        rustc.setting_list()[i].0,
        rustc.setting_list()[i].1->Some_0,
    ) by {}
    assert forall|i: int| 0 <= i < rustc.inherited@.len() implies is_modeled_variable(
        host,
        decode_utf8((#[trigger] rustc.inherited@[i]).name@),
        rustc.inherited@[i].value@,
    ) == !steers_the_loader(
        host,
        decode_utf8(rustc.inherited@[i].name@),
        rustc.inherited@[i].value@,
    ) by {}
    assert forall|i: int| 0 <= i < configured.len() implies is_modeled_variable(
        host,
        (#[trigger] configured[i]).name@,
        utf8(configured[i].value@),
    ) == !steers_the_loader(host, configured[i].name@, utf8(configured[i].value@)) by {}
}

/// The paths as they are written.
pub open spec fn raw_paths(inputs: Seq<LoaderInput>) -> Seq<Seq<u8>> {
    inputs.map_values(|input: LoaderInput| input.1)
}

/// Every path of a search path is an input, in order: the paths as they are written
/// make up the value, none of them holds the separator, and each is taken from
/// where the compiler runs; an empty one is that directory itself.
pub proof fn law_search_paths_are_inputs(
    host: Host,
    disk: Disk,
    home: Option<Seq<u8>>,
    rustc: &Command,
    roots: Roots,
)
    requires
        !host.macos,
        rustc.effective(host.loader_variable@) is Some,
        rustc.effective(host.loader_variable@)->Some_0.len() > 0,
    ensures
        ({
            let inputs = searched_inputs(host, disk, home, rustc, roots);
            &&& joined_list(raw_paths(inputs)) == rustc.effective(host.loader_variable@)->Some_0
            &&& forall|i: int|
                0 <= i < inputs.len() ==> {
                    &&& (#[trigger] inputs[i]).0 == host.loader_variable@
                    &&& !inputs[i].1.contains(0x3a)
                    &&& inputs[i].2 == if inputs[i].1.len() == 0 {
                        roots.rustc_cwd@
                    } else {
                        joined(roots.rustc_cwd@, inputs[i].1)
                    }
                }
        }),
{
    let value = rustc.effective(host.loader_variable@)->Some_0;
    let inputs = searched_inputs(host, disk, home, rustc, roots);
    let pieces = split_all(value, PATH_LIST_SEPARATOR);
    assert(raw_paths(inputs) =~= pieces);
    law_path_list_round_trip(value);
    lemma_split_all_pieces(value, PATH_LIST_SEPARATOR);
    assert forall|i: int| 0 <= i < inputs.len() implies !(#[trigger] inputs[i]).1.contains(0x3a) by {
        assert(inputs[i].1 == pieces[i]);
    }
}

/// Where macOS is told of no fallback, it searches the home directory and the two
/// of the system, in this order; whatever it is told, it searches the directory
/// where the compiler runs last.
pub proof fn law_fallbacks_are_searched(
    host: Host,
    disk: Disk,
    home: Seq<u8>,
    rustc: &Command,
    roots: Roots,
)
    requires
        host.macos,
    ensures
        ({
            let inputs = searched_inputs(host, disk, Some(home), rustc, roots);
            &&& inputs.len() > 0
            &&& inputs.last().2 == roots.rustc_cwd@
            &&& rustc.effective(host.loader_variable@) is None && is_absolute(home) ==> {
                &&& inputs.len() >= 4
                &&& inputs[0].2 == joined(home, utf8("lib"@))
                &&& inputs[1].2 == utf8("/usr/local/lib"@)
                &&& inputs[2].2 == utf8("/usr/lib"@)
            }
        }),
{
    let place = joined(home, utf8("lib"@));
    if is_absolute(home) {
        reveal_strlit("lib");
        is_ascii_chars_encode_utf8("lib"@);
        assert(utf8("lib"@)[0] == 0x6c);
        assert(place[0] == home[0]);
        assert(joined(roots.rustc_cwd@, place) == place);
    }
}

/// A place below a root is where the path leads: the components of the path are
/// those of the root and then those of the place.
pub proof fn law_places_are_below_their_roots(
    disk: Disk,
    source: Seq<char>,
    raw: Seq<u8>,
    roots: Roots,
)
    ensures
        ({
            let input = input_of(disk, source, raw, roots);
            input.3 matches Some((kind, root, relative)) ==> {
                &&& disk.canonical(input.2) is Some
                &&& disk.canonical(root) is Some
                &&& is_absolute(disk.canonical(root)->Some_0) ==> components(
                    disk.canonical(input.2)->Some_0,
                ) == components(disk.canonical(root)->Some_0) + components(relative)
                &&& root == match kind {
                    Root::RustcCwd => roots.rustc_cwd@,
                    Root::CompilerSysroot => roots.compiler_sysroot->Some_0@,
                    Root::TargetProfile => roots.target_profile@,
                    Root::BuildDir => roots.build_dir@,
                }
                &&& kind == Root::RustcCwd ==> !is_absolute(raw)
                &&& kind == Root::CompilerSysroot ==> roots.compiler_sysroot is Some
            }
        }),
{
    let input = input_of(disk, source, raw, roots);
    if let Some((kind, root, relative)) = input.3 {
        let path = disk.canonical(input.2)->Some_0;
        let base = disk.canonical(root)->Some_0;
        if is_absolute(base) {
            law_paths_below(path, base);
        }
    }
}

/// The sysroot of a compiler is the directory that holds the directory that holds
/// it.
pub proof fn law_sysroots_are_two_above(sysroot: Seq<u8>, directory: Seq<u8>, name: Seq<u8>)
    requires
        is_absolute(sysroot),
        sysroot.len() == 1 || (sysroot.last() != 0x2f && sysroot.last() != 0x2e),
        is_plain_name(directory),
        directory.last() != 0x2e,
        is_plain_name(name),
    ensures
        sysroot_of(joined(joined(sysroot, directory), name)) == Some(sysroot),
{
    let above = joined(sysroot, directory);
    assert(above[0] == sysroot[0]);
    assert(above.last() == directory.last());
    assert(directory.contains(directory.last())) by {
        assert(directory[directory.len() - 1] == directory.last());
    }
    law_parents_are_read_back(sysroot, directory);
    law_parents_are_read_back(above, name);
}

} // verus!
