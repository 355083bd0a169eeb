use artifact_cache::action::describe_action;
use artifact_cache::action::Dismissal;
use artifact_cache::action::Identified;
use artifact_cache::action_tree::ActionInputs;
use artifact_cache::cache_key::artifact_cache_command_digest;
use artifact_cache::cache_key::artifact_cache_portable_remap;
use artifact_cache::cache_key::rlib_cache_entry;
use artifact_cache::cache_key::ArtifactCacheKey;
use artifact_cache::cache_key::KeyContext;
use artifact_cache::cache_key::KeyInputs;
use artifact_cache::cache_key::PortableRemap;
use artifact_cache::command::Command;
use artifact_cache::digest::blake3_hex;
use artifact_cache::disk::Content;
use artifact_cache::disk::Directory;
use artifact_cache::disk::Disk;
use artifact_cache::disk::Entry;
use artifact_cache::disk::FileContent;
use artifact_cache::disk::FileKind;
use artifact_cache::disk::Lookup;
use artifact_cache::disk::Metadata;
use artifact_cache::disk::Node;
use artifact_cache::disk::Timestamp;
use artifact_cache::installation::artifact_cache_identity_for_program;
use artifact_cache::installation::Installation;
use artifact_cache::loader_digest::compiler_identity_statically_covers_loader_input;
use artifact_cache::loader_digest::compiler_loader_inputs_digest;
use artifact_cache::loader_digest::is_potential_dynamic_library;
use artifact_cache::loader_digest::update_framed_loader_digest;
use artifact_cache::loader_inputs::compiler_loader_input;
use artifact_cache::loader_inputs::compiler_loader_input_paths;
use artifact_cache::loader_inputs::CompilerLoaderInputLocation;
use artifact_cache::loader_inputs::Host;
use artifact_cache::loader_inputs::Roots;
use artifact_cache::stats::IneligibleReason;

fn bytes(text: &str) -> Vec<u8> {
    text.as_bytes().to_vec()
}

fn linux() -> Host {
    Host {
        linux: true,
        macos: false,
        unix: true,
        loader_variable: "LD_LIBRARY_PATH".to_owned(),
    }
}

fn macos() -> Host {
    Host {
        linux: false,
        macos: true,
        unix: true,
        loader_variable: "DYLD_FALLBACK_LIBRARY_PATH".to_owned(),
    }
}

fn metadata(kind: FileKind, len: u64, inode: u64) -> Metadata {
    Metadata {
        kind,
        len,
        modified: Some(Timestamp {
            seconds: 1_700_000_000,
            nanoseconds: 5,
        }),
        device: 1,
        inode,
        links: 1,
        mode: 0o644,
        changed_seconds: 1_700_000_000,
        changed_nanoseconds: 5,
    }
}

fn node(path: &str, canonical: &str, inode: u64) -> Node {
    Node {
        path: bytes(path),
        own: Lookup::Found(metadata(FileKind::Directory, 0, inode)),
        followed: Lookup::Found(metadata(FileKind::Directory, 0, inode)),
        canonical: Some(bytes(canonical)),
    }
}

fn file_node(path: &str, len: u64, inode: u64) -> Node {
    Node {
        path: bytes(path),
        own: Lookup::Found(metadata(FileKind::File, len, inode)),
        followed: Lookup::Found(metadata(FileKind::File, len, inode)),
        canonical: Some(bytes(path)),
    }
}

fn library(name: &str, contents: &[u8], inode: u64) -> Entry {
    let end = contents.len().min(20);
    Entry {
        name: bytes(name),
        kind: FileKind::File,
        link: None,
        content: Content::File(FileContent {
            metadata: metadata(FileKind::File, contents.len() as u64, inode),
            header: contents[..end].to_vec(),
            contents: contents.to_vec(),
        }),
    }
}

fn directory(path: &str, inode: u64, entries: Vec<Entry>) -> Directory {
    Directory {
        canonical: Lookup::Found(bytes(path)),
        metadata: Lookup::Found(metadata(FileKind::Directory, 0, inode)),
        entries: Lookup::Found(entries),
    }
}

fn nothing() -> ActionInputs {
    ActionInputs {
        files: Vec::new(),
        trees: Vec::new(),
    }
}

fn parts(key: ArtifactCacheKey) -> (Vec<u8>, [u8; 32], [u8; 32]) {
    (
        key.entry_root,
        key.loader_inputs_digest,
        key.action_inputs_digest,
    )
}

fn runner_key(
    runner: &str,
    alternate_layout: bool,
    include_path_cfg: bool,
    relative_loader: bool,
) -> (Vec<u8>, [u8; 32], [u8; 32]) {
    let workspace = format!("{runner}/workspace");
    let build_dir = format!(
        "{workspace}/{}",
        if alternate_layout { "target-b" } else { "target-a" }
    );
    let toolchain = if alternate_layout {
        format!("{runner}/toolchain")
    } else {
        format!("{build_dir}/toolchain")
    };
    let package = format!("{workspace}/package");
    let git_checkouts = if alternate_layout {
        format!("{runner}/cargo/git/checkouts")
    } else {
        format!("{workspace}/.cargo/git/checkouts")
    };
    let output_root = format!("{runner}/target/debug/deps");
    let profile_loader = format!("{runner}/target/debug/host-loader");
    let cwd_loader = format!("{package}/relative-loader");
    let program = format!("{toolchain}/bin/rustc");
    let loader_root = format!("{toolchain}/lib");
    let (raw_host_loader, resolved_host_loader, host_library) = if relative_loader {
        (
            "relative-loader".to_owned(),
            cwd_loader.clone(),
            library("librelative.so", b"relative", 20),
        )
    } else {
        (
            profile_loader.clone(),
            profile_loader.clone(),
            library("libhost.so", b"host", 21),
        )
    };

    let disk = Disk {
        nodes: [
            profile_loader.as_str(),
            &cwd_loader,
            &build_dir,
            &output_root,
            &package,
            &loader_root,
            &toolchain,
            &format!("{runner}/target/debug"),
        ]
        .iter()
        .enumerate()
        .map(|(index, path)| node(path, path, 100 + index as u64))
        .collect(),
    };
    let mut rustc = Command::new(&format!("{toolchain}/rustup-proxy"));
    let remap_arguments = [
        format!("--remap-path-prefix={workspace}=/workspace"),
        format!("--remap-path-prefix={package}=/package"),
        format!("--remap-path-prefix={build_dir}=/cargo/build-dir"),
        format!("--remap-path-prefix={toolchain}/lib/rustlib/src/rust=/rustc/test"),
        format!("--remap-path-prefix={git_checkouts}="),
    ];
    for argument in &remap_arguments {
        rustc.arg(argument);
    }
    if include_path_cfg {
        rustc.arg(&format!("--cfg=runner_path=\"{runner}\""));
    }
    rustc.env(
        "LD_LIBRARY_PATH",
        format!("{raw_host_loader}:{loader_root}").as_bytes(),
    );
    rustc.env("CARGO", format!("{toolchain}/bin/cargo").as_bytes());
    let places = [
        "/__cargo_artifact_cache_workspace",
        "/__cargo_artifact_cache_package",
        "/__cargo_artifact_cache_build_dir",
        "/__cargo_artifact_cache_compiler_sysroot/lib/rustlib/src/rust",
        "/__cargo_artifact_cache_git_checkouts",
    ];
    let portable_remaps: Vec<PortableRemap> = remap_arguments
        .iter()
        .zip(places)
        .map(|(argument, place)| artifact_cache_portable_remap(bytes(argument), place).unwrap())
        .collect();
    let host = linux();
    let roots = Roots::new(
        program.as_bytes(),
        build_dir.as_bytes(),
        output_root.as_bytes(),
        package.as_bytes(),
    );
    let loader_inputs = vec![
        compiler_loader_input(
            &disk,
            "LD_LIBRARY_PATH",
            bytes(&raw_host_loader),
            bytes(&resolved_host_loader),
            &roots,
        ),
        compiler_loader_input(
            &disk,
            "LD_LIBRARY_PATH",
            bytes(&loader_root),
            bytes(&loader_root),
            &roots,
        ),
    ];
    let directories = vec![
        directory(&resolved_host_loader, 50, vec![host_library]),
        directory(
            &loader_root,
            51,
            vec![library("librustc_driver.so", b"driver", 22)],
        ),
    ];
    let identity = [7u8; 32];
    let context = KeyContext {
        host: &host,
        build_dir: build_dir.as_bytes(),
        output_root: output_root.as_bytes(),
        rustc_verbose_version: "rustc 1.0.0\nhost: test-host",
        compiler_identity: &identity,
        compiler_program: program.as_bytes(),
        modeled_dependency_search_paths: &Vec::new(),
        portable_remaps: &portable_remaps,
        loader_input_paths: &loader_inputs,
    };
    let action = nothing();
    let inputs = KeyInputs {
        disk: &disk,
        directories: &directories,
        action: &action,
    };
    let prepared = rlib_cache_entry(
        b"/cache",
        &rustc,
        package.as_bytes(),
        &context,
        None,
        &inputs,
    );
    match prepared {
        Ok(prepared) => parts(prepared.key),
        Err(error) => panic!("{error:?}"),
    }
}

#[test]
fn runner_locations_do_not_change_cache_key() {
    let first = "/tmp/first=runner";
    let second = "/tmp/second=runner";
    assert_eq!(
        runner_key(first, false, false, false),
        runner_key(second, true, false, false)
    );
    assert_eq!(
        runner_key(first, false, false, true),
        runner_key(second, true, false, true)
    );
    assert_ne!(
        runner_key(first, false, true, false),
        runner_key(second, true, true, false)
    );
}

#[test]
fn loader_digest_frames_fields() {
    let mut split = Vec::new();
    update_framed_loader_digest(&mut split, b"a");
    update_framed_loader_digest(&mut split, b"bc");

    let mut joined = Vec::new();
    update_framed_loader_digest(&mut joined, b"ab");
    update_framed_loader_digest(&mut joined, b"c");

    assert_ne!(blake3_hex(&split), blake3_hex(&joined));
}

#[test]
fn loader_path_escape_is_not_normalized() {
    let disk = Disk {
        nodes: vec![
            node("/t/target/debug", "/t/target/debug", 1),
            node("/t/outside", "/t/outside", 2),
            node("/t/target/debug/../../outside", "/t/outside", 2),
        ],
    };
    let roots = Roots {
        compiler_sysroot: None,
        target_profile: bytes("/t/target/debug"),
        build_dir: bytes("/t/build"),
        rustc_cwd: bytes("/t/source"),
    };
    let input = compiler_loader_input(
        &disk,
        "LD_LIBRARY_PATH",
        bytes("/t/target/debug/../../outside"),
        bytes("/t/target/debug/../../outside"),
        &roots,
    );
    assert!(matches!(
        input.location,
        CompilerLoaderInputLocation::Absolute
    ));
}

#[test]
fn loader_symlink_escape_is_not_normalized() {
    let disk = Disk {
        nodes: vec![
            node("/t/target/debug", "/t/target/debug", 1),
            node("/t/outside", "/t/outside", 2),
            node("/t/target/debug/loader", "/t/outside", 2),
        ],
    };
    let roots = Roots {
        compiler_sysroot: None,
        target_profile: bytes("/t/target/debug"),
        build_dir: bytes("/t/build"),
        rustc_cwd: bytes("/t/source"),
    };
    let input = compiler_loader_input(
        &disk,
        "LD_LIBRARY_PATH",
        bytes("/t/target/debug/loader"),
        bytes("/t/target/debug/loader"),
        &roots,
    );
    assert!(matches!(
        input.location,
        CompilerLoaderInputLocation::Absolute
    ));
}

#[test]
fn loader_path_below_a_root_is_placed_there() {
    let disk = Disk {
        nodes: vec![
            node("/t/target/debug", "/t/target/debug", 1),
            node("/t/target/debug/loader", "/t/target/debug/loader", 2),
        ],
    };
    let roots = Roots {
        compiler_sysroot: None,
        target_profile: bytes("/t/target/debug"),
        build_dir: bytes("/t/build"),
        rustc_cwd: bytes("/t/source"),
    };
    let input = compiler_loader_input(
        &disk,
        "LD_LIBRARY_PATH",
        bytes("/t/target/debug/loader"),
        bytes("/t/target/debug/loader"),
        &roots,
    );
    match input.location {
        CompilerLoaderInputLocation::TargetProfile { root, relative } => {
            assert_eq!(root, bytes("/t/target/debug"));
            assert_eq!(relative, bytes("loader"));
        }
        _ => panic!("not below the target profile"),
    }
}

fn dynamic_elf(payload: &[u8]) -> Vec<u8> {
    let mut contents = vec![0; 20];
    contents[..4].copy_from_slice(b"\x7fELF");
    contents[5] = 1;
    contents[16..18].copy_from_slice(&3u16.to_le_bytes());
    contents.extend_from_slice(payload);
    contents
}

const DRIVER: &[u8] = b"\xca\xfe\xba\xbfdriver";

fn toolchain_lib() -> Directory {
    directory(
        "/t/toolchain/lib",
        11,
        vec![
            library("librustc_driver.dylib", DRIVER, 12),
            Entry {
                name: bytes("rustlib"),
                kind: FileKind::Directory,
                link: None,
                content: Content::Directory(directory("/t/toolchain/lib/rustlib", 13, Vec::new())),
            },
        ],
    )
}

fn toolchain_bin() -> Directory {
    directory(
        "/t/toolchain/bin",
        14,
        vec![library("rustc", b"rustc", 15)],
    )
}

fn toolchain_disk(alias_target: &str) -> Disk {
    Disk {
        nodes: vec![
            node("/t/toolchain", "/t/toolchain", 10),
            node("/t/toolchain/lib", "/t/toolchain/lib", 11),
            node("/t/toolchain/lib/rustlib", "/t/toolchain/lib/rustlib", 13),
            node("/t/toolchain/bin", "/t/toolchain/bin", 14),
            file_node("/t/toolchain/bin/rustc", 5, 15),
            file_node(
                "/t/toolchain/lib/librustc_driver.dylib",
                DRIVER.len() as u64,
                12,
            ),
            node("/t/toolchain/custom-loader", "/t/toolchain/custom-loader", 16),
            node("/t/toolchain-alias/lib", alias_target, 17),
            node("/t/build", "/t/build", 18),
            node("/t/target/debug", "/t/target/debug", 19),
            node("/t/source", "/t/source", 20),
        ],
    }
}

fn installation() -> Installation {
    Installation {
        program: bytes("/t/toolchain/bin/rustc"),
        program_metadata: Lookup::Found(metadata(FileKind::File, 5, 15)),
        program_contents: Some(b"rustc".to_vec()),
        lib: toolchain_lib(),
        bin: toolchain_bin(),
        targets: Lookup::Found(Vec::new()),
        lib_after: toolchain_lib(),
        bin_after: toolchain_bin(),
        disk: toolchain_disk("/t/toolchain/lib"),
    }
}

fn custom_loader_key(contents: &[u8]) -> Vec<u8> {
    let host = linux();
    let identity = artifact_cache_identity_for_program(&installation(), true).unwrap();
    let disk = toolchain_disk("/t/toolchain/lib");
    let rustc = Command::new("/t/toolchain/rustup-proxy");
    let roots = Roots::new(
        b"/t/toolchain/bin/rustc",
        b"/t/build",
        b"/t/target/debug/deps",
        b"/t/source",
    );
    let loader_inputs = vec![compiler_loader_input(
        &disk,
        "LD_LIBRARY_PATH",
        bytes("/t/toolchain/custom-loader"),
        bytes("/t/toolchain/custom-loader"),
        &roots,
    )];
    let directories = vec![directory(
        "/t/toolchain/custom-loader",
        16,
        vec![library("rustc_driver_dependency", contents, 30)],
    )];
    let context = KeyContext {
        host: &host,
        build_dir: b"/t/build",
        output_root: b"/t/target/debug/deps",
        rustc_verbose_version: "rustc 1.0.0\nhost: test-host",
        compiler_identity: &identity.digest,
        compiler_program: b"/t/toolchain/bin/rustc",
        modeled_dependency_search_paths: &Vec::new(),
        portable_remaps: &Vec::new(),
        loader_input_paths: &loader_inputs,
    };
    let action = nothing();
    let inputs = KeyInputs {
        disk: &disk,
        directories: &directories,
        action: &action,
    };
    match rlib_cache_entry(
        b"/cache",
        &rustc,
        b"/t/source",
        &context,
        Some(&identity.witness),
        &inputs,
    ) {
        Ok(prepared) => prepared.key.entry_root,
        Err(error) => panic!("{error:?}"),
    }
}

fn output_directory_key(entries: Vec<Entry>) -> Result<Vec<u8>, Dismissal> {
    let host = linux();
    let identity = artifact_cache_identity_for_program(&installation(), true).unwrap();
    let mut disk = toolchain_disk("/t/toolchain/lib");
    disk.nodes
        .push(node("/t/target/debug/deps", "/t/target/debug/deps", 21));
    let mut rustc = Command::new("/t/toolchain/rustup-proxy");
    rustc.env("LD_LIBRARY_PATH", b"/t/target/debug/deps");
    let roots = Roots::new(
        b"/t/toolchain/bin/rustc",
        b"/t/build",
        b"/t/target/debug/deps",
        b"/t/source",
    );
    let loader_inputs = compiler_loader_input_paths(&host, &disk, None, &rustc, &roots);
    assert_eq!(loader_inputs.len(), 1);
    assert!(matches!(
        loader_inputs[0].location,
        CompilerLoaderInputLocation::TargetProfile { .. }
    ));
    let directories = vec![directory("/t/target/debug/deps", 21, entries)];
    let context = KeyContext {
        host: &host,
        build_dir: b"/t/build",
        output_root: b"/t/target/debug/deps",
        rustc_verbose_version: "rustc 1.0.0\nhost: test-host",
        compiler_identity: &identity.digest,
        compiler_program: b"/t/toolchain/bin/rustc",
        modeled_dependency_search_paths: &Vec::new(),
        portable_remaps: &Vec::new(),
        loader_input_paths: &loader_inputs,
    };
    let action = nothing();
    let inputs = KeyInputs {
        disk: &disk,
        directories: &directories,
        action: &action,
    };
    let identified = Identified {
        context: &context,
        witness: &identity.witness,
    };
    describe_action(
        &host,
        b"/cache",
        &rustc,
        b"/t/source",
        Some(identified),
        &inputs,
    )
    .map(|action| action.prepared.key.entry_root)
}

#[test]
fn loader_digests_are_shared_across_locations() {
    let digest = |root: &str, contents: &[u8]| {
        let deps = format!("{root}/target/debug/deps");
        let disk = Disk {
            nodes: vec![
                node(&format!("{root}/target/debug"), &format!("{root}/target/debug"), 19),
                node(&deps, &deps, 21),
            ],
        };
        let roots = Roots::new(
            b"/t/toolchain/bin/rustc",
            format!("{root}/build").as_bytes(),
            deps.as_bytes(),
            format!("{root}/source").as_bytes(),
        );
        let input =
            compiler_loader_input(&disk, "LD_LIBRARY_PATH", bytes(&deps), bytes(&deps), &roots);
        compiler_loader_inputs_digest(
            &linux(),
            &disk,
            &vec![input],
            &vec![directory(&deps, 21, vec![library("libplugin.so", contents, 30)])],
            None,
        )
        .ok()
        .unwrap()
    };
    assert_eq!(digest("/first", b"library"), digest("/second/tree", b"library"));
    assert_ne!(digest("/first", b"library"), digest("/first", b"changed"));
}

#[test]
fn libraries_in_the_output_directory_change_the_key() {
    let first = output_directory_key(vec![library("libcompiler_input.so", b"first", 30)]);
    let again = output_directory_key(vec![library("libcompiler_input.so", b"first", 31)]);
    let second = output_directory_key(vec![library("libcompiler_input.so", b"second", 30)]);
    let none = output_directory_key(vec![library("libcompiler_input.rlib", b"second", 30)]);
    let (Ok(first), Ok(again), Ok(second), Ok(none)) = (first, again, second, none) else {
        panic!("no key");
    };
    assert_eq!(first, again);
    assert_ne!(first, second);
    assert_ne!(first, none);
    assert_ne!(second, none);
}

#[test]
fn nested_libraries_in_the_output_directory_have_no_key() {
    let nested = Entry {
        name: bytes("glibc-hwcaps"),
        kind: FileKind::Directory,
        link: None,
        content: Content::Directory(directory(
            "/t/target/debug/deps/glibc-hwcaps",
            22,
            vec![library("libcompiler_input.so", b"library", 30)],
        )),
    };
    assert_eq!(
        output_directory_key(vec![nested]),
        Err(Dismissal::Ineligible(IneligibleReason::UnmodeledLoaderInputs))
    );
}

#[test]
fn unmodeled_sysroot_loader_contents_change_cache_key() {
    let identity = artifact_cache_identity_for_program(&installation(), true).unwrap();
    let disk = toolchain_disk("/t/toolchain/lib");
    let roots = Roots::new(
        b"/t/toolchain/bin/rustc",
        b"/t/build",
        b"/t/target/debug/deps",
        b"/t/source",
    );
    let input = |path: &str| {
        compiler_loader_input(&disk, "LD_LIBRARY_PATH", bytes(path), bytes(path), &roots)
    };
    for host in [linux(), macos()] {
        let canonical_digest = compiler_loader_inputs_digest(
            &host,
            &disk,
            &vec![input("/t/toolchain/lib")],
            &vec![toolchain_lib()],
            Some(&identity.witness),
        );
        let aliased_digest = compiler_loader_inputs_digest(
            &host,
            &disk,
            &vec![input("/t/toolchain-alias/lib")],
            &vec![toolchain_lib()],
            Some(&identity.witness),
        );
        assert_eq!(canonical_digest == aliased_digest, host.macos);
        assert_eq!(
            compiler_identity_statically_covers_loader_input(
                &host,
                &disk,
                &identity.witness,
                &input("/t/toolchain-alias/lib"),
                b"/t/toolchain",
                b"lib",
            ),
            host.macos
        );
        assert!(!compiler_identity_statically_covers_loader_input(
            &host,
            &toolchain_disk("/t/toolchain/bin"),
            &identity.witness,
            &input("/t/toolchain-alias/lib"),
            b"/t/toolchain",
            b"lib",
        ));
    }

    let first = custom_loader_key(&dynamic_elf(b"first"));
    let second = custom_loader_key(&dynamic_elf(b"other"));
    assert_ne!(first, second);
    assert_eq!(first, custom_loader_key(&dynamic_elf(b"first")));
}

#[test]
fn loader_binary_magic_distinguishes_macho_objects_and_fat_libraries() {
    let mut object_header = [0; 20];
    object_header[..4].copy_from_slice(&[0xcf, 0xfa, 0xed, 0xfe]);
    object_header[12..16].copy_from_slice(&1u32.to_le_bytes());

    assert!(is_potential_dynamic_library(
        b"extensionless-library",
        b"\xca\xfe\xba\xbfcontents"
    ));
    assert!(!is_potential_dynamic_library(
        b"extensionless-object",
        &object_header
    ));
}

#[test]
fn every_part_of_an_invocation_changes_its_digest() {
    let base = || {
        let mut rustc = Command::new("rustc");
        rustc.arg("--crate-name");
        rustc.arg("demo");
        rustc.env("SLD_RUSTC_WORK_PRODUCT_PROVENANCE", b"1");
        rustc
    };
    let digest = artifact_cache_command_digest(&base());
    assert_eq!(digest, artifact_cache_command_digest(&base()));

    let mut another_argument = base();
    another_argument.arg("-Zpreserve-duplicate-constants=yes");
    assert_ne!(digest, artifact_cache_command_digest(&another_argument));

    let mut another_value = base();
    another_value.env("SLD_RUSTC_WORK_PRODUCT_PROVENANCE", b"0");
    assert_ne!(digest, artifact_cache_command_digest(&another_value));

    let mut another_directory = base();
    another_directory.directory = Some(bytes("/elsewhere"));
    assert_ne!(digest, artifact_cache_command_digest(&another_directory));
}

#[test]
fn only_remap_arguments_are_made_portable() {
    assert!(artifact_cache_portable_remap(bytes("--cfg=x"), "/place").is_none());
    let remap = artifact_cache_portable_remap(
        bytes("--remap-path-prefix=/home/a=/workspace"),
        "/place",
    )
    .unwrap();
    assert_eq!(
        remap.original,
        bytes("--remap-path-prefix=/home/a=/workspace")
    );
    assert_eq!(
        remap.normalized,
        bytes("--remap-path-prefix=/place=/workspace")
    );
}
