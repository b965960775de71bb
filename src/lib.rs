//! Finds the source files that make up a Rust crate, starting from its root
//! file, without compiling it.
//!
//! The library holds the rules: where a module's file lies, what an inclusion
//! names, and which files are still to be looked at. Reading files, probing
//! the disk and parsing Rust are left to the caller, who drives a
//! [`SourceWalk`] step by step.

mod finder;
mod laws;
mod paths;
mod resolve;
mod source_desc;
mod walk;

pub use paths::{child_path, dir_path, file_stem_str};
pub use source_desc::{
    DescModel, Error, ErrorModel, KindModel, ModPath, ModStack, ModType, SourceFileDesc,
    SourceFileType, StackModel,
};
pub use finder::{find_references, path_attribute, Attr, module_candidates, Reference, ReferenceModel, SyntaxEvent};
pub use resolve::{probe_paths, resolve_references};
pub use walk::{SourceWalk, SourcesAndErrors};
pub use laws::{lemma_all_branches_read, lemma_module_resolution, lemma_refs_concat, lemma_walk_invariants};
