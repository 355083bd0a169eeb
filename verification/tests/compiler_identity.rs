use artifact_cache::disk::Content;
use artifact_cache::disk::Directory;
use artifact_cache::disk::Disk;
use artifact_cache::disk::Entry;
use artifact_cache::disk::FileContent;
use artifact_cache::disk::FileKind;
use artifact_cache::disk::Lookup;
use artifact_cache::disk::Metadata;
use artifact_cache::disk::Node;
use artifact_cache::disk::Timestamp;
use artifact_cache::installation::artifact_cache_identity_for_program;
use artifact_cache::installation::Installation;
use artifact_cache::installation::TargetContent;
use artifact_cache::installation::TargetLibraries;

const SYSROOT: &str = "/t/toolchain";

/// A file, or a directory where there are no contents.
#[derive(Clone)]
struct Stored {
    path: String,
    contents: Option<Vec<u8>>,
    seconds: i64,
    inode: u64,
}

#[derive(Clone)]
struct Files(Vec<Stored>);

impl Files {
    fn new() -> Files {
        let mut files = Files(Vec::new());
        files.directory("");
        files.directory("/bin");
        files.file("/bin/rustc", b"rustc");
        files.directory("/lib");
        files
    }

    fn push(&mut self, path: &str, contents: Option<Vec<u8>>) {
        let inode = 100 + self.0.len() as u64;
        self.0.push(Stored {
            path: format!("{SYSROOT}{path}"),
            contents,
            seconds: 1_700_000_000,
            inode,
        });
    }

    fn directory(&mut self, path: &str) {
        self.push(path, None);
    }

    fn file(&mut self, path: &str, contents: &[u8]) {
        self.push(path, Some(contents.to_vec()));
    }

    fn at(&mut self, path: &str) -> &mut Stored {
        let path = format!("{SYSROOT}{path}");
        self.0.iter_mut().find(|stored| stored.path == path).unwrap()
    }

    fn find(&self, path: &str) -> Option<&Stored> {
        self.0.iter().find(|stored| stored.path == path)
    }

    fn children(&self, path: &str) -> Vec<&Stored> {
        let prefix = format!("{path}/");
        self.0
            .iter()
            .filter(|stored| {
                stored
                    .path
                    .strip_prefix(&prefix)
                    .is_some_and(|rest| !rest.contains('/'))
            })
            .collect()
    }

    fn metadata(&self, stored: &Stored) -> Metadata {
        Metadata {
            kind: match stored.contents {
                Some(_) => FileKind::File,
                None => FileKind::Directory,
            },
            len: stored.contents.as_ref().map_or(0, |contents| contents.len() as u64),
            modified: Some(Timestamp {
                seconds: stored.seconds,
                nanoseconds: 0,
            }),
            device: 1,
            inode: stored.inode,
            links: 1,
            mode: 0o644,
            changed_seconds: stored.seconds,
            changed_nanoseconds: 0,
        }
    }

    fn read(&self, path: &str) -> Directory {
        let Some(stored) = self.find(path) else {
            return Directory {
                canonical: Lookup::Missing,
                metadata: Lookup::Missing,
                entries: Lookup::Missing,
            };
        };
        let entries = self
            .children(path)
            .into_iter()
            .map(|child| {
                let name = child.path.rsplit('/').next().unwrap().as_bytes().to_vec();
                match &child.contents {
                    Some(contents) => Entry {
                        name,
                        kind: FileKind::File,
                        link: None,
                        content: Content::File(FileContent {
                            metadata: self.metadata(child),
                            header: contents[..contents.len().min(20)].to_vec(),
                            contents: contents.clone(),
                        }),
                    },
                    None => Entry {
                        name,
                        kind: FileKind::Directory,
                        link: None,
                        content: Content::Directory(self.read(&child.path)),
                    },
                }
            })
            .collect();
        Directory {
            canonical: Lookup::Found(path.as_bytes().to_vec()),
            metadata: Lookup::Found(self.metadata(stored)),
            entries: Lookup::Found(entries),
        }
    }

    fn disk(&self) -> Disk {
        Disk {
            nodes: self
                .0
                .iter()
                .map(|stored| Node {
                    path: stored.path.as_bytes().to_vec(),
                    own: Lookup::Found(self.metadata(stored)),
                    followed: Lookup::Found(self.metadata(stored)),
                    canonical: Some(stored.path.as_bytes().to_vec()),
                })
                .collect(),
        }
    }

    fn installation(&self) -> Installation {
        let program = format!("{SYSROOT}/bin/rustc");
        let stored = self.find(&program).unwrap();
        let lib = format!("{SYSROOT}/lib");
        let bin = format!("{SYSROOT}/bin");
        let rustlib = format!("{SYSROOT}/lib/rustlib");
        let targets = match self.find(&rustlib) {
            None => Lookup::Missing,
            Some(_) => Lookup::Found(
                self.children(&rustlib)
                    .into_iter()
                    .map(|child| TargetLibraries {
                        name: child.path.rsplit('/').next().unwrap().as_bytes().to_vec(),
                        content: TargetContent::Directory {
                            lib: self.read(&format!("{}/lib", child.path)),
                            backends: self.read(&format!("{}/codegen-backends", child.path)),
                        },
                    })
                    .collect(),
            ),
        };
        Installation {
            program_metadata: Lookup::Found(self.metadata(stored)),
            program_contents: stored.contents.clone(),
            program: program.into_bytes(),
            lib: self.read(&lib),
            bin: self.read(&bin),
            targets,
            lib_after: self.read(&lib),
            bin_after: self.read(&bin),
            disk: self.disk(),
        }
    }

    fn digest(&self) -> [u8; 32] {
        artifact_cache_identity_for_program(&self.installation(), true)
            .unwrap()
            .digest
    }
}

#[test]
fn sysroot_codegen_backend_contents_change_compiler_identity() {
    let mut files = Files::new();
    files.directory("/lib/rustlib");
    files.directory("/lib/rustlib/test-host");
    files.directory("/lib/rustlib/test-host/codegen-backends");
    let backend = "/lib/rustlib/test-host/codegen-backends/librustc_codegen_cranelift.dylib";
    files.file(backend, b"first backend");
    let first = files.digest();

    files.at(backend).contents = Some(b"other backend".to_vec());
    let second = files.digest();

    assert_ne!(first, second);
}

#[test]
fn sysroot_compiler_library_updates_change_compiler_identity() {
    let mut files = Files::new();
    files.directory("/lib/rustlib");
    files.file("/lib/librustc_driver.dylib", b"first driver");
    let first = files.digest();

    let driver = files.at("/lib/librustc_driver.dylib");
    driver.contents = Some(b"other driver".to_vec());
    driver.seconds += 1;
    let second = files.digest();

    assert_ne!(first, second);
}

#[test]
fn replaced_sysroot_compiler_library_invalidates_identity_witness() {
    let mut files = Files::new();
    files.directory("/lib/rustlib");
    files.file("/lib/librustc_driver.dylib", b"first driver");
    let first = artifact_cache_identity_for_program(&files.installation(), true).unwrap();
    assert!(first.witness.is_current(&files.disk()));

    let driver = files.at("/lib/librustc_driver.dylib");
    driver.contents = Some(b"other driver".to_vec());
    driver.inode = 900;
    let second = artifact_cache_identity_for_program(&files.installation(), true).unwrap();

    assert!(!first.witness.is_current(&files.disk()));
    assert_ne!(first.digest, second.digest);
}

#[test]
fn replaced_sysroot_lib_tree_with_preserved_mtimes_invalidates_identity_witness() {
    let mut files = Files::new();
    files.directory("/lib/rustlib");
    files.file("/lib/librustc_driver.dylib", b"first driver");
    let identity = artifact_cache_identity_for_program(&files.installation(), true).unwrap();

    files.at("/lib").inode = 901;
    files.at("/lib/rustlib").inode = 902;
    let driver = files.at("/lib/librustc_driver.dylib");
    driver.contents = Some(b"other driver".to_vec());
    driver.inode = 903;
    let replacement = artifact_cache_identity_for_program(&files.installation(), true).unwrap();

    assert!(!identity.witness.is_current(&files.disk()));
    assert_ne!(identity.digest, replacement.digest);
}

#[test]
fn sysroot_standard_library_updates_change_compiler_identity() {
    let mut files = Files::new();
    files.directory("/lib/rustlib");
    files.directory("/lib/rustlib/test-target");
    files.directory("/lib/rustlib/test-target/lib");
    let core = "/lib/rustlib/test-target/lib/libcore.rlib";
    files.file(core, b"first core");
    let first = files.digest();

    let library = files.at(core);
    library.contents = Some(b"other core".to_vec());
    library.seconds += 1;
    let second = files.digest();

    assert_ne!(first, second);
}

#[test]
fn sysroot_hwcaps_runtime_library_disables_compiler_identity() {
    let mut files = Files::new();
    files.directory("/lib/glibc-hwcaps");
    files.directory("/lib/glibc-hwcaps/x86-64-v3");
    files.file("/lib/glibc-hwcaps/x86-64-v3/librustc_driver.so", b"driver");

    assert!(artifact_cache_identity_for_program(&files.installation(), true).is_none());
}

#[test]
fn rustlib_hwcaps_runtime_library_disables_compiler_identity() {
    let mut files = Files::new();
    files.directory("/lib/rustlib");
    files.directory("/lib/rustlib/test-host");
    files.directory("/lib/rustlib/test-host/lib");
    files.directory("/lib/rustlib/test-host/lib/glibc-hwcaps");
    files.directory("/lib/rustlib/test-host/lib/glibc-hwcaps/x86-64-v3");
    files.file(
        "/lib/rustlib/test-host/lib/glibc-hwcaps/x86-64-v3/librust_runtime.so",
        b"runtime",
    );

    assert!(artifact_cache_identity_for_program(&files.installation(), true).is_none());
}

#[test]
fn an_unchanged_sysroot_keeps_its_identity() {
    let mut files = Files::new();
    files.directory("/lib/rustlib");
    files.file("/lib/librustc_driver.so", b"driver");
    assert_eq!(files.digest(), files.clone().digest());
}
