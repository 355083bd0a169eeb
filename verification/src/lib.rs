//! A verified core for a shared compiler-artifact cache.

pub mod action;
pub mod action_inputs;
pub mod action_tree;
pub mod admission;
pub mod admission_laws;
pub mod archive;
pub mod argument_laws;
pub mod arguments;
pub mod base_arguments;
pub mod bytes;
pub mod cache_key;
pub mod cache_size;
pub mod command;
pub mod compiler_identity;
pub mod dependency_arguments;
pub mod digest;
pub mod disk;
pub mod entry;
pub mod entry_laws;
pub mod identity_laws;
pub mod input_laws;
pub mod installation;
pub mod invocation;
pub mod job;
pub mod key_laws;
pub mod link_arguments;
pub mod loader_digest;
pub mod loader_inputs;
pub mod loader_laws;
pub mod lock_server;
pub mod locking;
pub mod macho_aarch64;
pub mod manifest_spans;
pub mod messages;
pub mod ordering;
pub mod outputs;
pub mod path_laws;
pub mod preflight;
pub mod pruning;
pub mod publication;
pub mod reach;
pub mod recorder;
pub mod remap;
pub mod restoration;
pub mod rmeta_link;
pub mod rustc_info;
pub mod rustc_job;
pub mod rustdoc_job;
pub mod schedule;
pub mod size_laws;
pub mod sld;
pub mod snapshot;
pub mod snapshot_laws;
pub mod snapshot_paths;
pub mod snapshot_restore;
pub mod source_inputs;
pub mod source_laws;
pub mod staging;
pub mod stats;
pub mod text;
pub mod text_laws;
pub mod unit;
pub mod unix_path;
pub mod work_product;
