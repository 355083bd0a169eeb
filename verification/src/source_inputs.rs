//! The source files and variables that the compiler reports as its inputs.

use vstd::prelude::*;
use vstd::string::*;

use crate::bytes::bytes_before;
use crate::bytes::bytes_less;
use crate::bytes::optional;
use crate::bytes::optional_text;
use crate::bytes::push_bytes;
use crate::bytes::push_text;
use crate::bytes::utf8;
use crate::command::Command;
use crate::digest::blake3_hex;
use crate::digest::hex_digest;
use crate::digest::lossy_text;
use crate::digest::text_from_utf8_lossy;
use crate::disk::Timestamp;
use crate::ordering::lemma_sorted_keys;
use crate::ordering::lemma_sorted_members;
use crate::ordering::order_of;
use crate::ordering::sort;
use crate::ordering::sorted;
use crate::ordering::Ranked;
use crate::text::text_is;
use crate::text::trim;
use crate::text::trimmed;
use crate::unix_path::join_path;
use crate::unix_path::joined;
use crate::unix_path::path_before;
use crate::unix_path::path_has_prefix;
use crate::unix_path::path_less;
use crate::unix_path::path_starts_with;

verus! {

/// A source file as the compiler reported it, and as it was found.
pub struct SourceFile {
    /// The path as it was reported.
    pub path: Vec<u8>,
    /// The length that the compiler saw, and whether the contents that were
    /// found have the checksum that it saw. Nothing where it reported none.
    pub recorded: Option<RecordedChecksum>,
    /// Whether the path is a regular file.
    pub is_file: bool,
    /// The contents that were found.
    pub contents: Option<Vec<u8>>,
    /// When the file was modified.
    pub modified: Option<Timestamp>,
}

/// What the compiler saw of a source file. `matches` is whether the contents
/// that were found have its checksum, where that could be computed.
#[derive(Clone, Copy, Debug, PartialEq, Eq, Structural)]
pub struct RecordedChecksum {
    pub len: u64,
    pub matches: Option<bool>,
}

/// A variable that the compiler reported, with the value it saw.
pub struct ReportedVariable {
    pub name: String,
    pub value: Option<String>,
}

/// What the compiler reported as its inputs.
pub struct DepInfo {
    pub files: Vec<SourceFile>,
    pub env: Vec<ReportedVariable>,
}

impl Ranked for SourceFile {
    open spec fn precedes(self, other: Self) -> bool {
        path_less(self.path@, other.path@)
    }

    fn comes_before(&self, other: &Self) -> (before: bool) {
        path_before(self.path.as_slice(), other.path.as_slice())
    }
}

/// Whether the inputs of a compilation can be covered by a cache entry.
#[derive(Clone, Copy, Debug, PartialEq, Eq, Structural)]
pub enum RlibCacheInputSupport {
    Supported,
    MissingDepInfo,
    GeneratedBuildInput,
}

/// Whether a reported file stands below one of two directories.
pub open spec fn is_generated(
    path: Seq<u8>,
    cwd: Seq<u8>,
    build_dir: Seq<u8>,
    output_root: Seq<u8>,
) -> bool {
    path_starts_with(joined(cwd, path), build_dir) || path_starts_with(
        joined(cwd, path),
        output_root,
    )
}

/// Whether the inputs of a compilation can be covered by a cache entry.
pub open spec fn support_of(
    dep_info: Option<DepInfo>,
    cwd: Seq<u8>,
    build_dir: Seq<u8>,
    output_root: Seq<u8>,
) -> RlibCacheInputSupport {
    match dep_info {
        None => RlibCacheInputSupport::MissingDepInfo,
        Some(dep_info) => if exists|i: int|
            0 <= i < dep_info.files@.len() && is_generated(
                (#[trigger] dep_info.files@[i]).path@,
                cwd,
                build_dir,
                output_root,
            ) {
            RlibCacheInputSupport::GeneratedBuildInput
        } else {
            RlibCacheInputSupport::Supported
        },
    }
}

/// Whether the inputs of a compilation can be covered by a cache entry: there
/// is a report, and it names no file below the build or output directory.
pub fn rlib_cache_input_support(
    dep_info: &Option<DepInfo>,
    rustc_cwd: &[u8],
    build_dir: &[u8],
    output_root: &[u8],
) -> (support: RlibCacheInputSupport)
    ensures
        support == support_of(*dep_info, rustc_cwd@, build_dir@, output_root@),
{
    let info = match dep_info {
        Some(info) => info,
        None => {
            return RlibCacheInputSupport::MissingDepInfo;
        },
    };
    let mut index: usize = 0;
    while index < info.files.len()
        invariant
            *dep_info == Some(*info),
            index <= info.files@.len(),
            forall|i: int|
                0 <= i < index ==> !is_generated(
                    (#[trigger] info.files@[i]).path@,
                    rustc_cwd@,
                    build_dir@,
                    output_root@,
                ),
        decreases info.files@.len() - index,
    {
        let path = join_path(rustc_cwd, info.files[index].path.as_slice());
        if path_has_prefix(path.as_slice(), build_dir) || path_has_prefix(
            path.as_slice(),
            output_root,
        ) {
            return RlibCacheInputSupport::GeneratedBuildInput;
        }
        index = index + 1;
    }
    RlibCacheInputSupport::Supported
}

/// Whether one point in time is before another.
pub open spec fn earlier(left: Timestamp, right: Timestamp) -> bool {
    left.seconds < right.seconds || (left.seconds == right.seconds && left.nanoseconds
        < right.nanoseconds)
}

/// Whether one point in time is before another.
pub fn is_earlier(left: Timestamp, right: Timestamp) -> (less: bool)
    ensures
        less == earlier(left, right),
{
    left.seconds < right.seconds || (left.seconds == right.seconds && left.nanoseconds
        < right.nanoseconds)
}

/// Why the inputs have no digest.
#[derive(Clone, Copy, Debug, PartialEq, Eq, Structural)]
pub enum SourceInputsError {
    ChecksumUnavailable,
}

/// What is hashed for a file: its reported path and its contents.
pub open spec fn file_text(path: Seq<u8>, contents: Seq<u8>) -> Seq<u8> {
    path + utf8("\0"@) + contents + utf8("\0"@)
}

/// What is hashed for a file that the compiler is known to have read as it is
/// found: it has the length and checksum that the compiler saw, and was last
/// modified before the compiler was started. `None` where that is not known.
pub open spec fn matching_file_text(file: SourceFile, started: Timestamp) -> Result<
    Option<Seq<u8>>,
    SourceInputsError,
> {
    match file.contents {
        None => Ok(None),
        Some(contents) => {
            let checked = match file.recorded {
                None => Ok(true),
                Some(recorded) => if contents@.len() != recorded.len {
                    Ok(false)
                } else {
                    match recorded.matches {
                        Some(matches) => Ok(matches),
                        None => Err(SourceInputsError::ChecksumUnavailable),
                    }
                },
            };
            match checked {
                Err(error) => Err(error),
                Ok(false) => Ok(None),
                Ok(true) => match file.modified {
                    Some(modified) => if earlier(modified, started) {
                        Ok(Some(file_text(file.path@, contents@)))
                    } else {
                        Ok(None)
                    },
                    None => Ok(None),
                },
            }
        },
    }
}

/// What is hashed for a file that is there now.
pub open spec fn present_file_text(file: SourceFile) -> Option<Seq<u8>> {
    match file.contents {
        Some(contents) => if file.is_file {
            Some(file_text(file.path@, contents@))
        } else {
            None
        },
        None => None,
    }
}

/// What is hashed for files in order, each known to be what the compiler read.
pub open spec fn matching_files_text(files: Seq<SourceFile>, started: Timestamp) -> Result<
    Option<Seq<u8>>,
    SourceInputsError,
>
    decreases files.len(),
{
    if files.len() == 0 {
        Ok(Some(Seq::empty()))
    } else {
        match matching_files_text(files.drop_last(), started) {
            Ok(Some(before)) => match matching_file_text(files.last(), started) {
                Ok(Some(last)) => Ok(Some(before + last)),
                other => other,
            },
            other => other,
        }
    }
}

/// What is hashed for files in order, each there now.
pub open spec fn present_files_text(files: Seq<SourceFile>) -> Option<Seq<u8>>
    decreases files.len(),
{
    if files.len() == 0 {
        Some(Seq::empty())
    } else {
        match (present_files_text(files.drop_last()), present_file_text(files.last())) {
            (Some(before), Some(last)) => Some(before + last),
            _ => None,
        }
    }
}

/// A variable and its value.
pub type Reported = (Seq<char>, Option<Seq<char>>);

/// The order of variables by name.
pub open spec fn reported_order() -> spec_fn(Reported, Reported) -> bool {
    |a: Reported, b: Reported| bytes_less(utf8(a.0), utf8(b.0))
}

/// What is hashed for variables, in order.
pub open spec fn reported_text(list: Seq<Reported>) -> Seq<u8>
    decreases list.len(),
{
    if list.len() == 0 {
        Seq::empty()
    } else {
        reported_text(list.drop_last()) + utf8(list.last().0) + utf8("="@) + match list.last().1 {
            Some(value) => utf8("set\0"@) + utf8(value),
            None => utf8("unset\0"@),
        } + utf8("\0"@)
    }
}

/// The text that is hashed for inputs.
pub open spec fn inputs_text(files: Seq<u8>, variables: Seq<Reported>) -> Seq<u8> {
    utf8("cargo-artifact-cache-inputs-v1\0"@) + files + reported_text(
        sorted(variables, reported_order()),
    )
}

/// The reported variables with the values that the compiler saw.
pub open spec fn recorded_variables(env: Seq<ReportedVariable>) -> Seq<Reported> {
    Seq::new(env.len(), |i: int| (env[i].name@, optional_text(env[i].value)))
}

/// The reported variables with the values that an invocation gives them.
pub open spec fn current_variables(env: Seq<ReportedVariable>, rustc: &Command) -> Seq<Reported> {
    Seq::new(
        env.len(),
        |i: int|
            (
                env[i].name@,
                match rustc.effective(env[i].name@) {
                    Some(value) => Some(lossy_text(value)),
                    None => None,
                },
            ),
    )
}

impl Ranked for ReportedVariable {
    open spec fn precedes(self, other: Self) -> bool {
        bytes_less(utf8(self.name@), utf8(other.name@))
    }

    fn comes_before(&self, other: &Self) -> (before: bool) {
        bytes_before(self.name.as_str().as_bytes(), other.name.as_str().as_bytes())
    }
}

/// A variable and its value.
pub open spec fn reported_pair(variable: ReportedVariable) -> Reported {
    (variable.name@, optional_text(variable.value))
}

/// Appends what is hashed for variables.
fn hash_variables(hasher: &mut Vec<u8>, variables: Vec<ReportedVariable>)
    ensures
        final(hasher)@ == old(hasher)@ + reported_text(
            sorted(recorded_variables(variables@), reported_order()),
        ),
{
    let ghost key = |variable: ReportedVariable| reported_pair(variable);
    proof {
        lemma_sorted_keys(
            variables@,
            order_of::<ReportedVariable>(),
            key,
            reported_order(),
        );
        assert(variables@.map_values(key) =~= recorded_variables(variables@));
    }
    let ordered = sort(variables);
    let ghost all = ordered@.map_values(key);
    let ghost start = hasher@;
    let mut index: usize = 0;
    proof {
        assert(all.take(0) =~= Seq::empty());
        assert(start + Seq::<u8>::empty() =~= start);
        assert(all.len() == ordered@.len());
    }
    while index < ordered.len()
        invariant
            index <= ordered@.len(),
            key == (|variable: ReportedVariable| reported_pair(variable)),
            all == ordered@.map_values(key),
            hasher@ == start + reported_text(all.take(index as int)),
        decreases ordered@.len() - index,
    {
        let variable = &ordered[index];
        proof {
            assert(all.take(index + 1).drop_last() =~= all.take(index as int));
            assert(all.take(index + 1).last() == key(ordered@[index as int]));
        }
        push_text(hasher, variable.name.as_str());
        push_text(hasher, "=");
        match &variable.value {
            Some(value) => {
                push_text(hasher, "set\0");
                push_text(hasher, value.as_str());
            },
            None => {
                push_text(hasher, "unset\0");
            },
        }
        push_text(hasher, "\0");
        proof {
            assert(hasher@ =~= start + reported_text(all.take(index + 1)));
        }
        index = index + 1;
    }
    proof {
        assert(all.take(index as int) =~= all);
    }
}

/// The digest of inputs that the compiler is known to have read as they are
/// found. `None` where there is no report or that is not known.
pub open spec fn matching_digest(dep_info: Option<DepInfo>, started: Timestamp) -> Result<
    Option<Seq<char>>,
    SourceInputsError,
> {
    match dep_info {
        None => Ok(None),
        Some(dep_info) => match matching_files_text(
            sorted(dep_info.files@, order_of::<SourceFile>()),
            started,
        ) {
            Err(error) => Err(error),
            Ok(None) => Ok(None),
            Ok(Some(files)) => Ok(
                Some(hex_digest(inputs_text(files, recorded_variables(dep_info.env@)))),
            ),
        },
    }
}

/// The digest of inputs that are there now, with the variables as an
/// invocation sets them. `None` where there is no report or a file is absent.
pub open spec fn present_digest(dep_info: Option<DepInfo>, rustc: &Command) -> Option<Seq<char>> {
    match dep_info {
        None => None,
        Some(dep_info) => match present_files_text(
            sorted(dep_info.files@, order_of::<SourceFile>()),
        ) {
            None => None,
            Some(files) => Some(
                hex_digest(inputs_text(files, current_variables(dep_info.env@, rustc))),
            ),
        },
    }
}

/// What stops among the first files stops all of them.
proof fn lemma_matching_stops(files: Seq<SourceFile>, count: int, started: Timestamp)
    requires
        0 <= count <= files.len(),
        !(matching_files_text(files.take(count), started) is Ok && matching_files_text(
            files.take(count),
            started,
        )->Ok_0 is Some),
    ensures
        matching_files_text(files, started) == matching_files_text(files.take(count), started),
    decreases files.len() - count,
{
    if count < files.len() {
        assert(files.take(count + 1).drop_last() =~= files.take(count));
        lemma_matching_stops(files, count + 1, started);
    } else {
        assert(files.take(count) =~= files);
    }
}

/// An absent file among the first is an absent file among all.
proof fn lemma_present_stops(files: Seq<SourceFile>, count: int)
    requires
        0 <= count <= files.len(),
        present_files_text(files.take(count)) is None,
    ensures
        present_files_text(files) is None,
    decreases files.len() - count,
{
    if count < files.len() {
        assert(files.take(count + 1).drop_last() =~= files.take(count));
        lemma_present_stops(files, count + 1);
    } else {
        assert(files.take(count) =~= files);
    }
}

/// Appends what is hashed for one file that is known to be what the compiler
/// read. Tells whether it is known.
fn hash_matching_file(hasher: &mut Vec<u8>, file: &SourceFile, started: Timestamp) -> (known: Result<
    bool,
    SourceInputsError,
>)
    ensures
        match (known, matching_file_text(*file, started)) {
            (Ok(true), Ok(Some(text))) => final(hasher)@ == old(hasher)@ + text,
            (Ok(false), Ok(None)) => true,
            (Err(error), Err(expected)) => error == expected,
            _ => false,
        },
{
    let ghost start = hasher@;
    let contents = match &file.contents {
        Some(contents) => contents,
        None => {
            return Ok(false);
        },
    };
    if let Some(recorded) = file.recorded {
        if contents.len() as u64 != recorded.len {
            return Ok(false);
        }
        match recorded.matches {
            Some(matches) => {
                if !matches {
                    return Ok(false);
                }
            },
            None => {
                return Err(SourceInputsError::ChecksumUnavailable);
            },
        }
    }
    match file.modified {
        Some(modified) => {
            if !is_earlier(modified, started) {
                return Ok(false);
            }
        },
        None => {
            return Ok(false);
        },
    }
    push_bytes(hasher, file.path.as_slice());
    push_text(hasher, "\0");
    push_bytes(hasher, contents.as_slice());
    push_text(hasher, "\0");
    proof {
        assert(hasher@ =~= start + file_text(file.path@, contents@));
    }
    Ok(true)
}

/// The digest of inputs that the compiler is known to have read as they are
/// found.
pub fn rlib_cache_inputs_digest_matching_rustc_dep_info(
    dep_info: Option<DepInfo>,
    invocation_time: Timestamp,
) -> (digest: Result<Option<String>, SourceInputsError>)
    ensures
        match (digest, matching_digest(dep_info, invocation_time)) {
            (Ok(digest), Ok(expected)) => optional_text(digest) == expected,
            (Err(error), Err(expected)) => error == expected,
            _ => false,
        },
{
    let (files, env) = match dep_info {
        Some(dep_info) => (dep_info.files, dep_info.env),
        None => {
            return Ok(None);
        },
    };
    let ghost reported = files@;
    let files = sort(files);
    let mut hasher: Vec<u8> = Vec::new();
    push_text(&mut hasher, "cargo-artifact-cache-inputs-v1\0");
    let ghost start = hasher@;
    let mut index: usize = 0;
    proof {
        assert(files@.take(0) =~= Seq::empty());
        assert(start + Seq::<u8>::empty() =~= start);
    }
    while index < files.len()
        invariant
            index <= files@.len(),
            dep_info is Some,
            reported == dep_info->0.files@,
            files@ == sorted(reported, order_of::<SourceFile>()),
            matching_files_text(files@.take(index as int), invocation_time) is Ok,
            matching_files_text(files@.take(index as int), invocation_time)->Ok_0 is Some,
            hasher@ == start + matching_files_text(
                files@.take(index as int),
                invocation_time,
            )->Ok_0->0,
        decreases files@.len() - index,
    {
        let ghost before = hasher@;
        proof {
            assert(files@.take(index + 1).drop_last() =~= files@.take(index as int));
            assert(files@.take(index + 1).last() == files@[index as int]);
        }
        match hash_matching_file(&mut hasher, &files[index], invocation_time) {
            Ok(true) => {},
            Ok(false) => {
                proof {
                    lemma_matching_stops(files@, index + 1, invocation_time);
                }
                return Ok(None);
            },
            Err(error) => {
                proof {
                    lemma_matching_stops(files@, index + 1, invocation_time);
                }
                return Err(error);
            },
        }
        proof {
            let text = matching_file_text(files@[index as int], invocation_time)->Ok_0->0;
            assert(hasher@ =~= start + (matching_files_text(
                files@.take(index as int),
                invocation_time,
            )->Ok_0->0 + text));
        }
        index = index + 1;
    }
    proof {
        assert(files@.take(index as int) =~= files@);
    }
    let ghost middle = hasher@;
    hash_variables(&mut hasher, env);
    proof {
        let text = matching_files_text(files@, invocation_time)->Ok_0->0;
        assert(hasher@ =~= inputs_text(text, recorded_variables(dep_info->0.env@)));
    }
    Ok(Some(blake3_hex(hasher.as_slice())))
}

/// The digest of inputs that are there now, with the variables as an
/// invocation sets them.
pub fn rlib_cache_inputs_digest_with_env(dep_info: Option<DepInfo>, rustc: &Command) -> (digest:
    Option<String>)
    ensures
        optional_text(digest) == present_digest(dep_info, rustc),
{
    let (files, env) = match dep_info {
        Some(dep_info) => (dep_info.files, dep_info.env),
        None => {
            return None;
        },
    };
    let ghost reported = files@;
    let files = sort(files);
    let mut hasher: Vec<u8> = Vec::new();
    push_text(&mut hasher, "cargo-artifact-cache-inputs-v1\0");
    let ghost start = hasher@;
    let mut index: usize = 0;
    proof {
        assert(files@.take(0) =~= Seq::empty());
        assert(start + Seq::<u8>::empty() =~= start);
    }
    while index < files.len()
        invariant
            index <= files@.len(),
            dep_info is Some,
            reported == dep_info->0.files@,
            files@ == sorted(reported, order_of::<SourceFile>()),
            present_files_text(files@.take(index as int)) is Some,
            hasher@ == start + present_files_text(files@.take(index as int))->0,
        decreases files@.len() - index,
    {
        let file = &files[index];
        proof {
            assert(files@.take(index + 1).drop_last() =~= files@.take(index as int));
            assert(files@.take(index + 1).last() == files@[index as int]);
        }
        let contents = match &file.contents {
            Some(contents) if file.is_file => contents,
            _ => {
                proof {
                    lemma_present_stops(files@, index + 1);
                }
                return None;
            },
        };
        push_bytes(&mut hasher, file.path.as_slice());
        push_text(&mut hasher, "\0");
        push_bytes(&mut hasher, contents.as_slice());
        push_text(&mut hasher, "\0");
        proof {
            assert(hasher@ =~= start + (present_files_text(files@.take(index as int))->0
                + file_text(file.path@, contents@)));
        }
        index = index + 1;
    }
    proof {
        assert(files@.take(index as int) =~= files@);
    }
    let ghost middle = hasher@;
    let mut current: Vec<ReportedVariable> = Vec::new();
    let mut at: usize = 0;
    while at < env.len()
        invariant
            at <= env@.len(),
            current@.len() == at,
            forall|i: int|
                0 <= i < at ==> reported_pair(#[trigger] current@[i]) == current_variables(
                    env@,
                    rustc,
                )[i],
        decreases env@.len() - at,
    {
        let name = env[at].name.clone();
        let value = match rustc.get_env(name.as_str()) {
            Some(value) => Some(text_from_utf8_lossy(value.as_slice())),
            None => None,
        };
        current.push(ReportedVariable { name, value });
        at = at + 1;
    }
    proof {
        assert(recorded_variables(current@) =~= current_variables(env@, rustc)) by {
            assert forall|i: int| 0 <= i < env@.len() implies recorded_variables(current@)[i]
                == current_variables(env@, rustc)[i] by {
                assert(reported_pair(current@[i]) == current_variables(env@, rustc)[i]);
            }
        }
    }
    hash_variables(&mut hasher, current);
    proof {
        let text = present_files_text(files@)->0;
        assert(hasher@ =~= inputs_text(text, current_variables(dep_info->0.env@, rustc)));
    }
    Some(blake3_hex(hasher.as_slice()))
}

/// Whether the inputs of a cache entry are there now: their digest is the one
/// that the entry recorded.
pub fn verify_rlib_cache_inputs(
    dep_info: Option<DepInfo>,
    rustc: &Command,
    recorded: &str,
) -> (verified: bool)
    ensures
        verified == (present_digest(dep_info, rustc) == Some(trimmed(recorded@))),
{
    match rlib_cache_inputs_digest_with_env(dep_info, rustc) {
        Some(digest) => text_is(trim(recorded).as_str(), digest.as_str()),
        None => false,
    }
}

/// A file as a digest sees it: its reported path and its contents.
pub type HashedFile = (Seq<u8>, Option<Seq<u8>>);

/// A file as a digest sees it.
pub open spec fn hashed_file(file: SourceFile) -> HashedFile {
    (file.path@, optional(file.contents))
}

/// Files as a digest sees them.
pub open spec fn hashed_files(files: Seq<SourceFile>) -> Seq<HashedFile> {
    files.map_values(|file: SourceFile| hashed_file(file))
}

/// What is hashed for files that have contents.
pub open spec fn hashed_files_text(files: Seq<HashedFile>) -> Seq<u8>
    decreases files.len(),
{
    if files.len() == 0 {
        Seq::empty()
    } else {
        hashed_files_text(files.drop_last()) + file_text(files.last().0, files.last().1->Some_0)
    }
}

/// The text of files that match is that of their paths and contents.
pub proof fn lemma_matching_text(files: Seq<SourceFile>, started: Timestamp)
    requires
        matching_files_text(files, started) is Ok,
        matching_files_text(files, started)->Ok_0 is Some,
    ensures
        matching_files_text(files, started)->Ok_0->Some_0 == hashed_files_text(
            hashed_files(files),
        ),
        forall|i: int| 0 <= i < files.len() ==> (#[trigger] files[i]).contents is Some,
    decreases files.len(),
{
    if files.len() > 0 {
        lemma_matching_text(files.drop_last(), started);
        assert(hashed_files(files).drop_last() =~= hashed_files(files.drop_last()));
        assert(hashed_files(files).last() == hashed_file(files.last()));
        assert forall|i: int| 0 <= i < files.len() implies (
        #[trigger] files[i]).contents is Some by {
            if i < files.len() - 1 {
                assert(files.drop_last()[i] == files[i]);
            }
        }
    } else {
        assert(hashed_files(files) =~= Seq::empty());
    }
}

/// The text of files that are there is that of their paths and contents.
pub proof fn lemma_present_text(files: Seq<SourceFile>)
    requires
        forall|i: int|
            0 <= i < files.len() ==> (#[trigger] files[i]).contents is Some && files[i].is_file,
    ensures
        present_files_text(files) == Some(hashed_files_text(hashed_files(files))),
    decreases files.len(),
{
    if files.len() > 0 {
        let front = files.drop_last();
        assert forall|i: int| 0 <= i < front.len() implies (#[trigger] front[i]).contents is Some
            && front[i].is_file by {
            assert(front[i] == files[i]);
        }
        lemma_present_text(front);
        assert(hashed_files(files).drop_last() =~= hashed_files(front));
        assert(hashed_files(files).last() == hashed_file(files.last()));
        assert(files.last() == files[files.len() - 1]);
    } else {
        assert(hashed_files(files) =~= Seq::empty());
    }
}

/// The order of files as a digest sees them.
pub open spec fn hashed_file_order() -> spec_fn(HashedFile, HashedFile) -> bool {
    |left: HashedFile, right: HashedFile| path_less(left.0, right.0)
}

/// What was recorded when outputs were published is found again when they are
/// looked for: where the files that the compiler read are all there with the
/// same contents, and the invocation gives the variables the values that the
/// compiler saw, the digests are the same.
pub proof fn law_unchanged_inputs_are_recognized(
    stored: DepInfo,
    found: DepInfo,
    started: Timestamp,
    rustc: &Command,
)
    requires
        matching_digest(Some(stored), started) is Ok,
        matching_digest(Some(stored), started)->Ok_0 is Some,
        hashed_files(found.files@) == hashed_files(stored.files@),
        forall|i: int| 0 <= i < found.files@.len() ==> (#[trigger] found.files@[i]).is_file,
        current_variables(found.env@, rustc) == recorded_variables(stored.env@),
    ensures
        present_digest(Some(found), rustc) == matching_digest(Some(stored), started)->Ok_0,
{
    let less = order_of::<SourceFile>();
    let key = |file: SourceFile| hashed_file(file);
    let ours = sorted(stored.files@, less);
    let theirs = sorted(found.files@, less);
    lemma_sorted_keys(stored.files@, less, key, hashed_file_order());
    lemma_sorted_keys(found.files@, less, key, hashed_file_order());
    assert(hashed_files(stored.files@) =~= stored.files@.map_values(key));
    assert(hashed_files(found.files@) =~= found.files@.map_values(key));
    assert(hashed_files(ours) =~= ours.map_values(key));
    assert(hashed_files(theirs) =~= theirs.map_values(key));
    lemma_matching_text(ours, started);
    lemma_sorted_members(found.files@, less);
    assert(ours.len() == theirs.len()) by {
        assert(hashed_files(ours).len() == hashed_files(theirs).len());
    }
    assert forall|i: int| 0 <= i < theirs.len() implies (#[trigger] theirs[i]).contents is Some
        && theirs[i].is_file by {
        assert(found.files@.contains(theirs[i]));
        let k = choose|k: int| 0 <= k < found.files@.len() && found.files@[k] == theirs[i];
        assert(found.files@[k].is_file);
        assert(hashed_files(theirs)[i] == hashed_files(ours)[i]);
        assert(hashed_file(theirs[i]) == hashed_file(ours[i]));
        assert(ours[i].contents is Some);
    }
    lemma_present_text(theirs);
}

} // verus!
