//! What takes part in the identity of a compiler, and what makes its witness
//! stale.

use vstd::bytes::lemma_auto_spec_u32_to_from_le_bytes;
use vstd::bytes::lemma_auto_spec_u64_to_from_le_bytes;
use vstd::bytes::spec_u32_to_le_bytes;
use vstd::bytes::spec_u64_to_le_bytes;
use vstd::prelude::*;
use vstd::string::*;

use crate::bytes::lemma_split_parts;
use crate::bytes::utf8;
use crate::compiler_identity::directories_bytes;
use crate::compiler_identity::directory_bytes;
use crate::compiler_identity::directory_marks;
use crate::compiler_identity::directory_unchanged;
use crate::compiler_identity::file_bytes;
use crate::compiler_identity::file_marks;
use crate::compiler_identity::file_unchanged;
use crate::compiler_identity::files_bytes;
use crate::compiler_identity::time_bytes;
use crate::compiler_identity::ArtifactCacheIdentityWitness;
use crate::compiler_identity::DirectoryMark;
use crate::compiler_identity::FileMark;
use crate::digest::lossy_text;
use crate::disk::Disk;
use crate::disk::FileKind;
use crate::disk::Lookup;
use crate::disk::Timestamp;
use crate::installation::deduplicated;
use crate::installation::file_order;
use crate::installation::found_files;
use crate::installation::identity_parts;
use crate::installation::input_bytes;
use crate::installation::inputs_bytes;
use crate::installation::item_order;
use crate::installation::mark_of;
use crate::installation::marks_of;
use crate::installation::FileItem;
use crate::installation::Installation;
use crate::loader_inputs::sysroot_of;
use crate::ordering::lemma_sorted_holds;
use crate::ordering::lemma_sorted_keys;
use crate::ordering::lemma_sorted_members;
use crate::ordering::sorted;
use crate::unix_path::components;
use crate::unix_path::path_below;
use crate::unix_path::path_less;

verus! {

/// The files of an installation, in the order of their paths.
pub open spec fn installed_files(installation: Installation, linux: bool) -> Seq<FileItem> {
    deduplicated(
        sorted(
            found_files(installation, sysroot_of(installation.program@)->Some_0, linux)->Some_0,
            item_order(),
        ),
    )
}

/// Whether a file is a codegen backend, whose contents take part.
pub open spec fn is_backend(file: FileItem) -> bool {
    components(file.0).contains(utf8("codegen-backends"@))
}

/// Whether an installation was read whole: the program and the codegen backends
/// are as long as their metadata say, and no installed file has the path of the
/// program.
pub open spec fn is_read_whole(installation: Installation, linux: bool) -> bool {
    let files = installed_files(installation, linux);
    &&& installation.program_contents->Some_0@.len()
        == installation.program_metadata->Found_0.len
    &&& forall|i: int|
        0 <= i < files.len() ==> (#[trigger] files[i]).0 != installation.program@ && (is_backend(
            files[i],
        ) ==> files[i].2.len() == files[i].1.len)
}

/// Whether two installations stand at the same paths: the program, the files
/// and the directories.
pub open spec fn same_layout(left: Installation, right: Installation, linux: bool) -> bool {
    let l = installed_files(left, linux);
    let r = installed_files(right, linux);
    let a = identity_parts(left, linux)->Some_0.1;
    let b = identity_parts(right, linux)->Some_0.1;
    &&& left.program@ == right.program@
    &&& l.len() == r.len()
    &&& forall|i: int| #![trigger l[i]] #![trigger r[i]] 0 <= i < l.len() ==> l[i].0 == r[i].0
    &&& a.len() == b.len()
    &&& forall|i: int| #![trigger a[i]] #![trigger b[i]] 0 <= i < a.len() ==> a[i].0 == b[i].0
}

/// Times have bytes of one length, and the same bytes only where they are the
/// same.
proof fn lemma_time_bytes(left: Timestamp, right: Timestamp)
    requires
        time_bytes(left) is Some,
        time_bytes(right) is Some,
    ensures
        time_bytes(left)->Some_0.len() == 12,
        time_bytes(left) == time_bytes(right) ==> left == right,
{
    lemma_auto_spec_u64_to_from_le_bytes();
    lemma_auto_spec_u32_to_from_le_bytes();
    let a = spec_u64_to_le_bytes(left.seconds as u64);
    let b = spec_u32_to_le_bytes(left.nanoseconds);
    let c = spec_u64_to_le_bytes(right.seconds as u64);
    let d = spec_u32_to_le_bytes(right.nanoseconds);
    if a + b == c + d {
        lemma_split_parts(a, b, c, d);
        assert(left.seconds as u64 == right.seconds as u64);
    }
}

/// Numbers have bytes of one length, and the same bytes only where they are the
/// same.
proof fn lemma_number_bytes(left: u64, right: u64)
    ensures
        spec_u64_to_le_bytes(left).len() == 8,
        spec_u64_to_le_bytes(left) == spec_u64_to_le_bytes(right) ==> left == right,
{
    lemma_auto_spec_u64_to_from_le_bytes();
}

/// What the digest says of a directory tells the directory.
proof fn lemma_directory_bytes(left: DirectoryMark, right: DirectoryMark, sysroot: Seq<u8>)
    requires
        left.0 == right.0,
        directory_bytes(left, sysroot) is Some,
        directory_bytes(right, sysroot) is Some,
    ensures
        directory_bytes(left, sysroot)->Some_0.len() == directory_bytes(
            right,
            sysroot,
        )->Some_0.len(),
        directory_bytes(left, sysroot) == directory_bytes(right, sysroot) ==> left == right,
{
    lemma_time_bytes(left.1, right.1);
    lemma_time_bytes(right.1, left.1);
    lemma_number_bytes(left.2, right.2);
    lemma_number_bytes(right.2, left.2);
    lemma_number_bytes(left.3, right.3);
    lemma_number_bytes(right.3, left.3);
    let front = utf8("\0sysroot-directory-identity\0"@) + utf8(
        lossy_text(path_below(left.0, sysroot)->Some_0),
    ) + utf8("\0"@);
    let a = time_bytes(left.1)->Some_0;
    let b = spec_u64_to_le_bytes(left.2);
    let c = spec_u64_to_le_bytes(left.3);
    let x = time_bytes(right.1)->Some_0;
    let y = spec_u64_to_le_bytes(right.2);
    let z = spec_u64_to_le_bytes(right.3);
    if front + a + b + c == front + x + y + z {
        lemma_split_parts(front + a + b, c, front + x + y, z);
        lemma_split_parts(front + a, b, front + x, y);
        lemma_split_parts(front, a, front, x);
    }
}

/// What the digest says of directories tells the directories.
proof fn lemma_directories_bytes(
    left: Seq<DirectoryMark>,
    right: Seq<DirectoryMark>,
    sysroot: Seq<u8>,
)
    requires
        left.len() == right.len(),
        forall|i: int|
            #![trigger left[i]]
            #![trigger right[i]]
            0 <= i < left.len() ==> left[i].0 == right[i].0,
        directories_bytes(left, sysroot) is Some,
        directories_bytes(right, sysroot) is Some,
    ensures
        directories_bytes(left, sysroot)->Some_0.len() == directories_bytes(
            right,
            sysroot,
        )->Some_0.len(),
        directories_bytes(left, sysroot) == directories_bytes(right, sysroot) ==> left == right,
    decreases left.len(),
{
    if left.len() > 0 {
        let l = left.drop_last();
        let r = right.drop_last();
        assert forall|i: int|
            #![trigger l[i]]
            #![trigger r[i]]
            0 <= i < l.len() implies l[i].0 == r[i].0 by {
            assert(l[i] == left[i] && r[i] == right[i]);
        }
        lemma_directories_bytes(l, r, sysroot);
        assert(left.last() == left[left.len() - 1]);
        lemma_directory_bytes(left.last(), right.last(), sysroot);
        if directories_bytes(left, sysroot) == directories_bytes(right, sysroot) {
            lemma_split_parts(
                directories_bytes(l, sysroot)->Some_0,
                directory_bytes(left.last(), sysroot)->Some_0,
                directories_bytes(r, sysroot)->Some_0,
                directory_bytes(right.last(), sysroot)->Some_0,
            );
            assert(left =~= l.push(left.last()));
            assert(right =~= r.push(right.last()));
        }
    } else {
        assert(left =~= right);
    }
}

/// What the digest says of a file tells the file.
proof fn lemma_file_bytes(left: FileMark, right: FileMark, sysroot: Seq<u8>)
    requires
        left.0 == right.0,
        file_bytes(left, sysroot) is Some,
        file_bytes(right, sysroot) is Some,
    ensures
        file_bytes(left, sysroot)->Some_0.len() == file_bytes(right, sysroot)->Some_0.len(),
        file_bytes(left, sysroot) == file_bytes(right, sysroot) ==> left == right,
{
    lemma_time_bytes(left.2, right.2);
    lemma_time_bytes(right.2, left.2);
    lemma_number_bytes(left.1, right.1);
    lemma_number_bytes(right.1, left.1);
    lemma_number_bytes(left.3, right.3);
    lemma_number_bytes(right.3, left.3);
    lemma_number_bytes(left.4, right.4);
    lemma_number_bytes(right.4, left.4);
    let front = utf8("\0sysroot-file-identity\0"@) + utf8(
        lossy_text(path_below(left.0, sysroot)->Some_0),
    ) + utf8("\0"@);
    let a = spec_u64_to_le_bytes(left.1);
    let b = time_bytes(left.2)->Some_0;
    let c = spec_u64_to_le_bytes(left.3);
    let d = spec_u64_to_le_bytes(left.4);
    let w = spec_u64_to_le_bytes(right.1);
    let x = time_bytes(right.2)->Some_0;
    let y = spec_u64_to_le_bytes(right.3);
    let z = spec_u64_to_le_bytes(right.4);
    if front + a + b + c + d == front + w + x + y + z {
        lemma_split_parts(front + a + b + c, d, front + w + x + y, z);
        lemma_split_parts(front + a + b, c, front + w + x, y);
        lemma_split_parts(front + a, b, front + w, x);
        lemma_split_parts(front, a, front, w);
    }
}

/// What the digest says of files tells the files.
proof fn lemma_files_bytes(left: Seq<FileMark>, right: Seq<FileMark>, sysroot: Seq<u8>)
    requires
        left.len() == right.len(),
        forall|i: int|
            #![trigger left[i]]
            #![trigger right[i]]
            0 <= i < left.len() ==> left[i].0 == right[i].0,
        files_bytes(left, sysroot) is Some,
        files_bytes(right, sysroot) is Some,
    ensures
        files_bytes(left, sysroot)->Some_0.len() == files_bytes(right, sysroot)->Some_0.len(),
        files_bytes(left, sysroot) == files_bytes(right, sysroot) ==> left == right,
    decreases left.len(),
{
    if left.len() > 0 {
        let l = left.drop_last();
        let r = right.drop_last();
        assert forall|i: int|
            #![trigger l[i]]
            #![trigger r[i]]
            0 <= i < l.len() implies l[i].0 == r[i].0 by {
            assert(l[i] == left[i] && r[i] == right[i]);
        }
        lemma_files_bytes(l, r, sysroot);
        assert(left.last() == left[left.len() - 1]);
        lemma_file_bytes(left.last(), right.last(), sysroot);
        if files_bytes(left, sysroot) == files_bytes(right, sysroot) {
            lemma_split_parts(
                files_bytes(l, sysroot)->Some_0,
                file_bytes(left.last(), sysroot)->Some_0,
                files_bytes(r, sysroot)->Some_0,
                file_bytes(right.last(), sysroot)->Some_0,
            );
            assert(left =~= l.push(left.last()));
            assert(right =~= r.push(right.last()));
        }
    } else {
        assert(left =~= right);
    }
}

/// Whether two files of one path have the same length, time and, where they are
/// codegen backends, contents.
pub open spec fn same_input(left: FileItem, right: FileItem) -> bool {
    &&& left.1.len == right.1.len
    &&& left.1.modified == right.1.modified
    &&& is_backend(left) ==> left.2 == right.2
}

/// What the digest says of installed files, taken from the front.
proof fn lemma_inputs_front(files: Seq<FileItem>, sysroot: Seq<u8>)
    requires
        files.len() > 0,
        inputs_bytes(files, sysroot) is Some,
    ensures
        input_bytes(files[0], sysroot) is Some,
        inputs_bytes(files.drop_first(), sysroot) is Some,
        inputs_bytes(files, sysroot)->Some_0 == input_bytes(files[0], sysroot)->Some_0
            + inputs_bytes(files.drop_first(), sysroot)->Some_0,
    decreases files.len(),
{
    let first = input_bytes(files[0], sysroot)->Some_0;
    if files.len() == 1 {
        assert(files.drop_last() =~= Seq::empty());
        assert(files.drop_first() =~= Seq::empty());
        assert(Seq::<u8>::empty() + first =~= first + Seq::<u8>::empty());
    } else {
        let before = files.drop_last();
        lemma_inputs_front(before, sysroot);
        assert(before.drop_first() =~= files.drop_first().drop_last());
        assert(files.drop_first().last() == files.last());
        let middle = inputs_bytes(before.drop_first(), sysroot)->Some_0;
        let last = input_bytes(files.last(), sysroot)->Some_0;
        assert(first + middle + last =~= first + (middle + last));
    }
}

/// What the digest says of a file, with anything behind it, tells the file and
/// what is behind.
proof fn lemma_input_bytes(
    left: FileItem,
    right: FileItem,
    left_rest: Seq<u8>,
    right_rest: Seq<u8>,
    sysroot: Seq<u8>,
)
    requires
        left.0 == right.0,
        is_backend(left) ==> left.2.len() == left.1.len && right.2.len() == right.1.len,
        input_bytes(left, sysroot) is Some,
        input_bytes(right, sysroot) is Some,
        input_bytes(left, sysroot)->Some_0 + left_rest == input_bytes(right, sysroot)->Some_0
            + right_rest,
    ensures
        same_input(left, right),
        left_rest == right_rest,
{
    let lt = left.1.modified->Some_0;
    let rt = right.1.modified->Some_0;
    lemma_time_bytes(lt, rt);
    lemma_time_bytes(rt, lt);
    lemma_number_bytes(left.1.len, right.1.len);
    lemma_number_bytes(right.1.len, left.1.len);
    let front = utf8("\0sysroot-input\0"@) + utf8(
        lossy_text(path_below(left.0, sysroot)->Some_0),
    ) + utf8("\0"@);
    let a = spec_u64_to_le_bytes(left.1.len);
    let b = time_bytes(lt)->Some_0;
    let x = spec_u64_to_le_bytes(right.1.len);
    let y = time_bytes(rt)->Some_0;
    let mark = utf8("\0sysroot-codegen-backend-content\0"@);
    let l = front + a + b;
    let r = front + x + y;
    if is_backend(left) {
        assert(l + mark + left.2 + left_rest =~= l + (mark + left.2 + left_rest));
        assert(r + mark + right.2 + right_rest =~= r + (mark + right.2 + right_rest));
        lemma_split_parts(l, mark + left.2 + left_rest, r, mark + right.2 + right_rest);
        lemma_split_parts(front + a, b, front + x, y);
        lemma_split_parts(front, a, front, x);
        lemma_split_parts(mark + left.2, left_rest, mark + right.2, right_rest);
        lemma_split_parts(mark, left.2, mark, right.2);
    } else {
        lemma_split_parts(l, left_rest, r, right_rest);
        lemma_split_parts(front + a, b, front + x, y);
        lemma_split_parts(front, a, front, x);
    }
}

/// What the digest says of installed files tells the files.
proof fn lemma_inputs_bytes(left: Seq<FileItem>, right: Seq<FileItem>, sysroot: Seq<u8>)
    requires
        left.len() == right.len(),
        forall|i: int|
            #![trigger left[i]]
            #![trigger right[i]]
            0 <= i < left.len() ==> left[i].0 == right[i].0 && (is_backend(left[i])
                ==> left[i].2.len() == left[i].1.len && right[i].2.len() == right[i].1.len),
        inputs_bytes(left, sysroot) is Some,
        inputs_bytes(right, sysroot) is Some,
        inputs_bytes(left, sysroot) == inputs_bytes(right, sysroot),
    ensures
        forall|i: int|
            #![trigger left[i]]
            #![trigger right[i]]
            0 <= i < left.len() ==> same_input(left[i], right[i]),
    decreases left.len(),
{
    if left.len() > 0 {
        let l = left.drop_first();
        let r = right.drop_first();
        lemma_inputs_front(left, sysroot);
        lemma_inputs_front(right, sysroot);
        assert(left[0].0 == right[0].0);
        lemma_input_bytes(
            left[0],
            right[0],
            inputs_bytes(l, sysroot)->Some_0,
            inputs_bytes(r, sysroot)->Some_0,
            sysroot,
        );
        assert forall|i: int|
            #![trigger l[i]]
            #![trigger r[i]]
            0 <= i < l.len() implies l[i].0 == r[i].0 && (is_backend(l[i]) ==> l[i].2.len()
            == l[i].1.len && r[i].2.len() == r[i].1.len) by {
            assert(l[i] == left[i + 1] && r[i] == right[i + 1]);
        }
        lemma_inputs_bytes(l, r, sysroot);
        assert forall|i: int|
            #![trigger left[i]]
            #![trigger right[i]]
            0 <= i < left.len() implies same_input(left[i], right[i]) by {
            if i > 0 {
                assert(left[i] == l[i - 1] && right[i] == r[i - 1]);
            }
        }
    }
}

/// Files that have marks have them one by one.
proof fn lemma_marks_of(files: Seq<FileItem>)
    requires
        marks_of(files) is Some,
    ensures
        marks_of(files)->Some_0.len() == files.len(),
        forall|i: int|
            #![trigger marks_of(files)->Some_0[i]]
            0 <= i < files.len() ==> mark_of(files[i].0, files[i].1) == Some(
                marks_of(files)->Some_0[i],
            ),
    decreases files.len(),
{
    if files.len() > 0 {
        let before = files.drop_last();
        lemma_marks_of(before);
        assert forall|i: int|
            #![trigger marks_of(files)->Some_0[i]]
            0 <= i < files.len() implies mark_of(files[i].0, files[i].1) == Some(
            marks_of(files)->Some_0[i],
        ) by {
            if i < before.len() {
                assert(marks_of(files)->Some_0[i] == marks_of(before)->Some_0[i]);
                assert(before[i] == files[i]);
            }
        }
    }
}

/// Marks of the same paths are sorted the same.
proof fn lemma_sorted_paths(left: Seq<FileMark>, right: Seq<FileMark>)
    requires
        left.len() == right.len(),
        forall|i: int|
            #![trigger left[i]]
            #![trigger right[i]]
            0 <= i < left.len() ==> left[i].0 == right[i].0,
    ensures
        ({
            let l = sorted(left, file_order());
            let r = sorted(right, file_order());
            &&& l.len() == r.len()
            &&& forall|i: int|
                #![trigger l[i]]
                #![trigger r[i]]
                0 <= i < l.len() ==> l[i].0 == r[i].0
        }),
{
    let key = |mark: FileMark| mark.0;
    let less = |a: Seq<u8>, b: Seq<u8>| path_less(a, b);
    lemma_sorted_keys(left, file_order(), key, less);
    lemma_sorted_keys(right, file_order(), key, less);
    assert(left.map_values(key) =~= right.map_values(key));
    let l = sorted(left, file_order());
    let r = sorted(right, file_order());
    assert(l.map_values(key).len() == r.map_values(key).len());
    assert forall|i: int|
        #![trigger l[i]]
        #![trigger r[i]]
        0 <= i < l.len() implies l[i].0 == r[i].0 by {
        assert(l.map_values(key)[i] == key(l[i]));
        assert(r.map_values(key)[i] == key(r[i]));
    }
}

/// The mark of the program, and the marks of the installed files.
spec fn all_marks(installation: Installation, linux: bool) -> Seq<FileMark> {
    seq![
        mark_of(installation.program@, installation.program_metadata->Found_0)->Some_0,
    ] + marks_of(installed_files(installation, linux))->Some_0
}

/// What an identity is made of.
proof fn lemma_identity_parts(installation: Installation, linux: bool)
    requires
        identity_parts(installation, linux) is Some,
    ensures
        ({
            let parts = identity_parts(installation, linux)->Some_0;
            let program = installation.program@;
            let sysroot = sysroot_of(program)->Some_0;
            let files = installed_files(installation, linux);
            &&& installation.program_metadata is Found
            &&& installation.program_contents is Some
            &&& mark_of(program, installation.program_metadata->Found_0) is Some
            &&& marks_of(files) is Some
            &&& inputs_bytes(files, sysroot) is Some
            &&& directories_bytes(parts.1, sysroot) is Some
            &&& files_bytes(parts.2, sysroot) is Some
            &&& parts.2 == sorted(all_marks(installation, linux), file_order())
            &&& parts.0 == utf8(lossy_text(program)) + utf8("\0"@)
                + installation.program_contents->Some_0@ + inputs_bytes(files, sysroot)->Some_0
                + directories_bytes(parts.1, sysroot)->Some_0 + files_bytes(
                parts.2,
                sysroot,
            )->Some_0
        }),
{
}

/// Marks of installations that stand at the same paths have the same paths.
proof fn lemma_all_marks(left: Installation, right: Installation, linux: bool)
    requires
        identity_parts(left, linux) is Some,
        identity_parts(right, linux) is Some,
        same_layout(left, right, linux),
    ensures
        ({
            let l = all_marks(left, linux);
            let r = all_marks(right, linux);
            &&& l.len() == r.len()
            &&& forall|i: int|
                #![trigger l[i]]
                #![trigger r[i]]
                0 <= i < l.len() ==> l[i].0 == r[i].0
        }),
{
    lemma_identity_parts(left, linux);
    lemma_identity_parts(right, linux);
    let lf = installed_files(left, linux);
    let rf = installed_files(right, linux);
    lemma_marks_of(lf);
    lemma_marks_of(rf);
    let l = all_marks(left, linux);
    let r = all_marks(right, linux);
    assert forall|i: int|
        #![trigger l[i]]
        #![trigger r[i]]
        0 <= i < l.len() implies l[i].0 == r[i].0 by {
        if i > 0 {
            assert(l[i] == marks_of(lf)->Some_0[i - 1]);
            assert(r[i] == marks_of(rf)->Some_0[i - 1]);
            assert(lf[i - 1].0 == rf[i - 1].0);
        }
    }
}

/// The program has one mark only.
proof fn lemma_program_mark(left: Installation, right: Installation, linux: bool)
    requires
        identity_parts(left, linux) is Some,
        identity_parts(right, linux) is Some,
        left.program@ == right.program@,
        is_read_whole(right, linux),
        identity_parts(left, linux)->Some_0.2 == identity_parts(right, linux)->Some_0.2,
    ensures
        all_marks(left, linux)[0] == all_marks(right, linux)[0],
{
    lemma_identity_parts(left, linux);
    lemma_identity_parts(right, linux);
    let l = all_marks(left, linux);
    let r = all_marks(right, linux);
    let rf = installed_files(right, linux);
    lemma_marks_of(rf);
    lemma_sorted_holds(l, file_order(), 0);
    lemma_sorted_members(r, file_order());
    let all = sorted(r, file_order());
    let k = choose|k: int| 0 <= k < all.len() && all[k] == l[0];
    assert(r.contains(all[k]));
    let m = choose|m: int| 0 <= m < r.len() && r[m] == l[0];
    if m > 0 {
        assert(r[m] == marks_of(rf)->Some_0[m - 1]);
        assert(rf[m - 1].0 != right.program@);
    }
}

/// The identity of a compiler stands for its installation: of two that stand at
/// the same paths, the hashed text is the same only where the program and the
/// codegen backends hold the same, every file has the same length, time of
/// modification, device and inode, and every directory the same time, device
/// and inode. So a change of any of these changes the text.
#[verifier::rlimit(40)]
pub proof fn law_identity_tells_the_installation(
    left: Installation,
    right: Installation,
    linux: bool,
)
    requires
        identity_parts(left, linux) is Some,
        identity_parts(right, linux) is Some,
        same_layout(left, right, linux),
        is_read_whole(left, linux),
        is_read_whole(right, linux),
        identity_parts(left, linux)->Some_0.0 == identity_parts(right, linux)->Some_0.0,
    ensures
        left.program_contents->Some_0@ == right.program_contents->Some_0@,
        identity_parts(left, linux)->Some_0.1 == identity_parts(right, linux)->Some_0.1,
        identity_parts(left, linux)->Some_0.2 == identity_parts(right, linux)->Some_0.2,
        forall|i: int|
            0 <= i < installed_files(left, linux).len() ==> same_input(
                #[trigger] installed_files(left, linux)[i],
                installed_files(right, linux)[i],
            ),
{
    lemma_identity_parts(left, linux);
    lemma_identity_parts(right, linux);
    let l = identity_parts(left, linux)->Some_0;
    let r = identity_parts(right, linux)->Some_0;
    let sysroot = sysroot_of(left.program@)->Some_0;
    lemma_all_marks(left, right, linux);
    lemma_sorted_paths(all_marks(left, linux), all_marks(right, linux));
    lemma_files_bytes(l.2, r.2, sysroot);
    lemma_directories_bytes(l.1, r.1, sysroot);
    let lf = installed_files(left, linux);
    let rf = installed_files(right, linux);
    let front = utf8(lossy_text(left.program@)) + utf8("\0"@);
    let a = left.program_contents->Some_0@;
    let b = inputs_bytes(lf, sysroot)->Some_0;
    let c = directories_bytes(l.1, sysroot)->Some_0;
    let d = files_bytes(l.2, sysroot)->Some_0;
    let w = right.program_contents->Some_0@;
    let x = inputs_bytes(rf, sysroot)->Some_0;
    let y = directories_bytes(r.1, sysroot)->Some_0;
    let z = files_bytes(r.2, sysroot)->Some_0;
    assert(front + a + b + c + d == front + w + x + y + z);
    assert((front + a + b + c + d).len() == (front + w + x + y + z).len());
    lemma_split_parts(front + a + b + c, d, front + w + x + y, z);
    lemma_split_parts(front + a + b, c, front + w + x, y);
    lemma_program_mark(left, right, linux);
    assert(a.len() == w.len());
    lemma_split_parts(front + a, b, front + w, x);
    lemma_split_parts(front, a, front, w);
    assert forall|i: int|
        #![trigger lf[i]]
        #![trigger rf[i]]
        0 <= i < lf.len() implies lf[i].0 == rf[i].0 && (is_backend(lf[i]) ==> lf[i].2.len()
        == lf[i].1.len && rf[i].2.len() == rf[i].1.len) by {
        assert(lf[i].0 == rf[i].0);
    }
    lemma_inputs_bytes(lf, rf, sysroot);
}

/// Whether a witness is that of the identity of an installation.
pub open spec fn is_witness_of(
    witness: ArtifactCacheIdentityWitness,
    installation: Installation,
    linux: bool,
) -> bool {
    match identity_parts(installation, linux) {
        Some(parts) => directory_marks(witness.directories@) == parts.1 && file_marks(
            witness.files@,
        ) == parts.2,
        None => false,
    }
}

/// A change on disk makes the witness of an identity stale: where the program,
/// an installed file or a directory has another length, time of modification,
/// device or inode than it had, or is gone, the witness is not current.
pub proof fn law_changed_installations_make_witnesses_stale(
    witness: ArtifactCacheIdentityWitness,
    installation: Installation,
    linux: bool,
    disk: Disk,
)
    requires
        is_witness_of(witness, installation, linux),
    ensures
        !file_unchanged(
            mark_of(installation.program@, installation.program_metadata->Found_0)->Some_0,
            disk,
        ) ==> !witness.unchanged(disk),
        forall|i: int|
            #![trigger installed_files(installation, linux)[i]]
            0 <= i < installed_files(installation, linux).len() && !file_unchanged(
                mark_of(
                    installed_files(installation, linux)[i].0,
                    installed_files(installation, linux)[i].1,
                )->Some_0,
                disk,
            ) ==> !witness.unchanged(disk),
        forall|i: int|
            #![trigger identity_parts(installation, linux)->Some_0.1[i]]
            0 <= i < identity_parts(installation, linux)->Some_0.1.len() && !directory_unchanged(
                identity_parts(installation, linux)->Some_0.1[i],
                disk,
            ) ==> !witness.unchanged(disk),
{
    lemma_identity_parts(installation, linux);
    let parts = identity_parts(installation, linux)->Some_0;
    let files = installed_files(installation, linux);
    let all = all_marks(installation, linux);
    lemma_marks_of(files);
    assert forall|k: int| 0 <= k < all.len() && !file_unchanged(#[trigger] all[k], disk) implies
        !witness.unchanged(disk) by {
        lemma_sorted_holds(all, file_order(), k);
        let m = choose|m: int| 0 <= m < parts.2.len() && parts.2[m] == all[k];
        assert(file_marks(witness.files@)[m] == witness.files@[m].mark());
    }
    assert(all[0] == mark_of(
        installation.program@,
        installation.program_metadata->Found_0,
    )->Some_0);
    assert forall|i: int|
        #![trigger files[i]]
        0 <= i < files.len() && !file_unchanged(
            mark_of(files[i].0, files[i].1)->Some_0,
            disk,
        ) implies !witness.unchanged(disk) by {
        assert(all[i + 1] == marks_of(files)->Some_0[i]);
    }
    assert forall|i: int|
        #![trigger parts.1[i]]
        0 <= i < parts.1.len() && !directory_unchanged(parts.1[i], disk) implies
        !witness.unchanged(disk) by {
        assert(directory_marks(witness.directories@)[i] == witness.directories@[i].mark());
    }
}

/// Whether the disk shows a regular file with a length, a time and an identity.
pub open spec fn shows_file(
    disk: Disk,
    path: Seq<u8>,
    len: u64,
    modified: Timestamp,
    device: u64,
    inode: u64,
) -> bool {
    match disk.followed(path) {
        Lookup::Found(now) => {
            &&& now.kind == FileKind::File
            &&& now.len == len
            &&& now.modified == Some(modified)
            &&& now.device == device
            &&& now.inode == inode
        },
        _ => false,
    }
}

/// Whether the disk shows a directory with a time and an identity.
pub open spec fn shows_directory(
    disk: Disk,
    path: Seq<u8>,
    modified: Timestamp,
    device: u64,
    inode: u64,
) -> bool {
    match disk.followed(path) {
        Lookup::Found(now) => {
            &&& now.kind == FileKind::Directory
            &&& now.modified == Some(modified)
            &&& now.device == device
            &&& now.inode == inode
        },
        _ => false,
    }
}

/// A witness is current exactly where the disk shows every file and every directory
/// that it holds as it was seen.
pub proof fn law_current_witnesses_match_the_disk(witness: ArtifactCacheIdentityWitness, disk: Disk)
    ensures
        witness.unchanged(disk) <==> {
            &&& forall|i: int|
                0 <= i < witness.files@.len() ==> shows_file(
                    disk,
                    (#[trigger] witness.files@[i]).path@,
                    witness.files@[i].len,
                    witness.files@[i].modified,
                    witness.files@[i].device,
                    witness.files@[i].inode,
                )
            &&& forall|i: int|
                0 <= i < witness.directories@.len() ==> shows_directory(
                    disk,
                    (#[trigger] witness.directories@[i]).path@,
                    witness.directories@[i].modified,
                    witness.directories@[i].device,
                    witness.directories@[i].inode,
                )
        },
{
    assert forall|i: int| 0 <= i < witness.files@.len() implies file_unchanged(
        (#[trigger] witness.files@[i]).mark(),
        disk,
    ) == shows_file(
        disk,
        witness.files@[i].path@,
        witness.files@[i].len,
        witness.files@[i].modified,
        witness.files@[i].device,
        witness.files@[i].inode,
    ) by {}
    assert forall|i: int| 0 <= i < witness.directories@.len() implies directory_unchanged(
        (#[trigger] witness.directories@[i]).mark(),
        disk,
    ) == shows_directory(
        disk,
        witness.directories@[i].path@,
        witness.directories@[i].modified,
        witness.directories@[i].device,
        witness.directories@[i].inode,
    ) by {}
}

} // verus!
