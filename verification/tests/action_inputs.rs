use artifact_cache::action_inputs::ActionInputError;
use artifact_cache::action_inputs::InputFile;
use artifact_cache::action_tree::artifact_cache_action_inputs_are_current;
use artifact_cache::action_tree::artifact_cache_action_inputs_are_materialized;
use artifact_cache::action_tree::artifact_cache_action_inputs_snapshot;
use artifact_cache::action_tree::hash_path_tree;
use artifact_cache::action_tree::ActionInputs;
use artifact_cache::action_tree::InputTree;
use artifact_cache::action_tree::NamedFile;
use artifact_cache::action_tree::NamedTree;
use artifact_cache::action_tree::TreeContent;
use artifact_cache::action_tree::TreeEntry;
use artifact_cache::action_tree::TreeMode;
use artifact_cache::archive::normalize_ar_timestamps;
use artifact_cache::command::Command;
use artifact_cache::disk::Disk;
use artifact_cache::disk::FileKind;
use artifact_cache::disk::Lookup;
use artifact_cache::disk::Metadata;
use artifact_cache::disk::Node;
use artifact_cache::disk::Timestamp;

fn metadata(kind: FileKind, len: u64, inode: u64, changed: i64) -> Metadata {
    Metadata {
        kind,
        len,
        modified: Some(Timestamp {
            seconds: 1_700_000_000,
            nanoseconds: 0,
        }),
        device: 1,
        inode,
        links: 1,
        mode: 0o644,
        changed_seconds: changed,
        changed_nanoseconds: 0,
    }
}

fn read_file(contents: &[u8], changed: i64) -> InputFile {
    let found = || Lookup::Found(metadata(FileKind::File, contents.len() as u64, 7, changed));
    InputFile {
        before: found(),
        opened: found(),
        contents: contents.to_vec(),
        closed: found(),
        after: found(),
        reliable: true,
    }
}

fn disk_with(nodes: &[(&str, Metadata)]) -> Disk {
    Disk {
        nodes: nodes
            .iter()
            .map(|(path, metadata)| Node {
                path: path.as_bytes().to_vec(),
                own: Lookup::Found(*metadata),
                followed: Lookup::Found(*metadata),
                canonical: Some(path.as_bytes().to_vec()),
            })
            .collect(),
    }
}

fn file_inputs(contents: &[u8], changed: i64) -> (Disk, ActionInputs) {
    (
        disk_with(&[(
            "/t/dependency.rlib",
            metadata(FileKind::File, contents.len() as u64, 7, changed),
        )]),
        ActionInputs {
            files: vec![NamedFile {
                path: b"/t/dependency.rlib".to_vec(),
                file: read_file(contents, changed),
            }],
            trees: Vec::new(),
        },
    )
}

fn dependency_command() -> Command {
    let mut rustc = Command::new("rustc");
    rustc.arg("--extern");
    rustc.arg("dependency=/t/dependency.rlib");
    rustc
}

#[test]
fn action_input_witness_falls_back_after_same_mtime_content_change() {
    let rustc = dependency_command();
    let (disk, inputs) = file_inputs(b"before", 1);
    let snapshot = artifact_cache_action_inputs_snapshot(&rustc, b"/t", &inputs).ok().unwrap();
    let mut witness = snapshot.witness;
    assert!(witness.is_current(&disk));

    let (disk, inputs) = file_inputs(b"after!", 2);
    assert!(!witness.is_current(&disk));
    assert_eq!(
        artifact_cache_action_inputs_are_current(
            &rustc,
            b"/t",
            &snapshot.digest,
            &mut witness,
            &disk,
            &inputs,
        ),
        Ok(false)
    );
}

#[test]
fn action_input_witness_refreshes_after_unchanged_rewrite() {
    let rustc = dependency_command();
    let (_, inputs) = file_inputs(b"contents", 1);
    let snapshot = artifact_cache_action_inputs_snapshot(&rustc, b"/t", &inputs).ok().unwrap();
    let mut witness = snapshot.witness;

    let (disk, inputs) = file_inputs(b"contents", 2);
    assert!(!witness.is_current(&disk));
    assert_eq!(
        artifact_cache_action_inputs_are_current(
            &rustc,
            b"/t",
            &snapshot.digest,
            &mut witness,
            &disk,
            &inputs,
        ),
        Ok(true)
    );
    assert!(witness.is_current(&disk));
}

fn generated_tree(files: &[(&str, &[u8])], changed: i64) -> (Disk, ActionInputs) {
    let found = || Lookup::Found(metadata(FileKind::Directory, 0, 3, changed));
    let tree = InputTree {
        before: found(),
        entries: Some(
            files
                .iter()
                .map(|(name, contents)| TreeEntry {
                    name: name.as_bytes().to_vec(),
                    kind: FileKind::File,
                    content: TreeContent::File(read_file(contents, 1)),
                })
                .collect(),
        ),
        after: found(),
    };
    let mut nodes = vec![(
        "/t/out".to_owned(),
        metadata(FileKind::Directory, 0, 3, changed),
    )];
    for (name, contents) in files {
        nodes.push((
            format!("/t/out/{name}"),
            metadata(FileKind::File, contents.len() as u64, 7, 1),
        ));
    }
    let list: Vec<(&str, Metadata)> = nodes
        .iter()
        .map(|(path, metadata)| (path.as_str(), *metadata))
        .collect();
    (
        disk_with(&list),
        ActionInputs {
            files: Vec::new(),
            trees: vec![NamedTree {
                path: b"/t/out".to_vec(),
                tree,
            }],
        },
    )
}

fn generated_command() -> Command {
    let mut rustc = Command::new("rustc");
    rustc.env("OUT_DIR", b"/t/out");
    rustc
}

#[test]
fn action_input_tree_witness_detects_added_files() {
    let rustc = generated_command();
    let (disk, inputs) = generated_tree(&[("generated.rs", b"before")], 1);
    let snapshot = artifact_cache_action_inputs_snapshot(&rustc, b"/t", &inputs).ok().unwrap();
    let mut witness = snapshot.witness;
    assert!(witness.is_current(&disk));

    let (disk, inputs) = generated_tree(
        &[("generated.rs", b"before"), ("additional.rs", b"after")],
        2,
    );
    assert!(!witness.is_current(&disk));
    assert_eq!(
        artifact_cache_action_inputs_are_current(
            &rustc,
            b"/t",
            &snapshot.digest,
            &mut witness,
            &disk,
            &inputs,
        ),
        Ok(false)
    );
}

#[test]
fn action_input_witness_detects_newly_created_tree() {
    let rustc = generated_command();
    let disk = disk_with(&[]);
    let inputs = ActionInputs {
        files: Vec::new(),
        trees: Vec::new(),
    };
    let snapshot = artifact_cache_action_inputs_snapshot(&rustc, b"/t", &inputs).ok().unwrap();
    let mut witness = snapshot.witness;
    assert!(witness.is_current(&disk));

    let (disk, inputs) = generated_tree(&[("generated.rs", b"contents")], 2);
    assert!(!witness.is_current(&disk));
    assert_eq!(
        artifact_cache_action_inputs_are_current(
            &rustc,
            b"/t",
            &snapshot.digest,
            &mut witness,
            &disk,
            &inputs,
        ),
        Ok(false)
    );
}

#[test]
fn action_input_witness_rejects_symlinked_inputs() {
    let mut rustc = Command::new("rustc");
    rustc.arg("--extern");
    rustc.arg("dependency=/t/dependency-alias.rlib");
    let mut file = read_file(b"contents", 1);
    file.before = Lookup::Found(metadata(FileKind::Symlink, 8, 9, 1));
    let inputs = ActionInputs {
        files: vec![NamedFile {
            path: b"/t/dependency-alias.rlib".to_vec(),
            file,
        }],
        trees: Vec::new(),
    };
    assert!(artifact_cache_action_inputs_snapshot(&rustc, b"/t", &inputs).is_err());
}

#[test]
fn action_input_tree_rejects_symlink_cycles() {
    let found = || Lookup::Found(metadata(FileKind::Directory, 0, 3, 1));
    let tree = InputTree {
        before: found(),
        entries: Some(vec![TreeEntry {
            name: b"loop".to_vec(),
            kind: FileKind::Symlink,
            content: TreeContent::Nothing,
        }]),
        after: found(),
    };
    let mode = TreeMode {
        root: b"/t".to_vec(),
        excluded: None,
        link_search_input: false,
    };
    assert_eq!(
        hash_path_tree(&mut Vec::new(), &tree, &mode, b"/t", &mut Vec::new()),
        Err(ActionInputError::ContainsSymlink)
    );
}

#[test]
fn a_file_that_changes_while_it_is_read_has_no_digest() {
    let rustc = dependency_command();
    let mut file = read_file(b"contents", 1);
    file.closed = Lookup::Found(metadata(FileKind::File, 8, 7, 2));
    let inputs = ActionInputs {
        files: vec![NamedFile {
            path: b"/t/dependency.rlib".to_vec(),
            file,
        }],
        trees: Vec::new(),
    };
    assert_eq!(
        artifact_cache_action_inputs_snapshot(&rustc, b"/t", &inputs).err(),
        Some(ActionInputError::ChangedWhileHashing)
    );
}

#[test]
fn inputs_are_materialized_once_they_are_on_disk() {
    let rustc = dependency_command();
    assert!(!artifact_cache_action_inputs_are_materialized(
        &rustc,
        b"/t",
        &disk_with(&[])
    ));
    assert!(artifact_cache_action_inputs_are_materialized(
        &rustc,
        b"/t",
        &disk_with(&[(
            "/t/dependency.rlib",
            metadata(FileKind::File, 1, 7, 1)
        )])
    ));
}

fn archive(timestamp: &[u8; 12]) -> Vec<u8> {
    let mut contents = b"!<arch>\n".to_vec();
    contents.extend_from_slice(b"member.o/       ");
    contents.extend_from_slice(timestamp);
    contents.extend_from_slice(b"0     0     644     4         ");
    contents.extend_from_slice(b"`\n");
    contents.extend_from_slice(b"body");
    contents
}

#[test]
fn archive_timestamps_do_not_count() {
    let first = archive(b"1700000000  ");
    let second = archive(b"1800000000  ");
    assert_ne!(first, second);
    let normalized = normalize_ar_timestamps(&first);
    assert_eq!(normalized, normalize_ar_timestamps(&second));
    assert_eq!(normalized, normalize_ar_timestamps(&normalized));
    assert_ne!(normalized, first);
    assert_eq!(normalize_ar_timestamps(b"no archive"), b"no archive".to_vec());
}

#[test]
fn timestamps_of_all_members_do_not_count() {
    let members = |timestamps: [&[u8; 12]; 3]| {
        let mut contents = b"!<arch>\n".to_vec();
        for timestamp in timestamps {
            contents.extend_from_slice(&archive(timestamp)[8..]);
        }
        contents
    };
    let first = members([b"1700000000  ", b"1700000001  ", b"1700000002  "]);
    let second = members([b"1800000000  ", b"1700000001  ", b"0           "]);
    assert_ne!(first, second);
    assert_eq!(
        normalize_ar_timestamps(&first),
        normalize_ar_timestamps(&second)
    );
    let mut changed = second;
    let last = changed.len() - 1;
    changed[last] = b'!';
    assert_ne!(
        normalize_ar_timestamps(&first),
        normalize_ar_timestamps(&changed)
    );
}

#[test]
fn refreshed_witnesses_confirm_again_and_changes_leave_them() {
    let rustc = dependency_command();
    let (_, inputs) = file_inputs(b"contents", 1);
    let snapshot = artifact_cache_action_inputs_snapshot(&rustc, b"/t", &inputs).ok().unwrap();
    let mut witness = snapshot.witness;
    let (disk, inputs) = file_inputs(b"contents", 2);
    for _ in 0..2 {
        assert_eq!(
            artifact_cache_action_inputs_are_current(
                &rustc,
                b"/t",
                &snapshot.digest,
                &mut witness,
                &disk,
                &inputs,
            ),
            Ok(true)
        );
        assert!(witness.is_current(&disk));
    }
    let (changed, inputs) = file_inputs(b"others!!", 3);
    assert_eq!(
        artifact_cache_action_inputs_are_current(
            &rustc,
            b"/t",
            &snapshot.digest,
            &mut witness,
            &changed,
            &inputs,
        ),
        Ok(false)
    );
    assert!(witness.is_current(&disk));
}
