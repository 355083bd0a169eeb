//! The files that a compilation writes.

use vstd::prelude::*;

verus! {

/// What an output is for.
#[derive(Clone, Copy, Debug, PartialEq, Eq, Structural)]
pub enum FileFlavor {
    /// Not a special file type.
    Normal,
    /// A file that belongs to the primary output but cannot be linked.
    Auxiliary,
    /// An output that other crates can link.
    Linkable,
    /// Metadata of a library.
    Rmeta,
    /// Debugging information that stands in a file of its own.
    DebugInfo,
    /// A bill of materials.
    Sbom,
}

/// A file that a compilation writes.
pub struct OutputFile {
    /// Where the compiler writes it.
    pub path: Vec<u8>,
    /// The place that it is linked to once it is written.
    pub hardlink: Option<Vec<u8>>,
    /// The place that it is copied to, where the user asked for one.
    pub export_path: Option<Vec<u8>>,
    /// What it is for.
    pub flavor: FileFlavor,
}

} // verus!
