//! Descriptions of the source files found, and of the module context that
//! decides where a module's children lie.

use vstd::prelude::*;
use vstd::string::*;
use crate::paths::{child_path, dir_of, dir_path, file_name_of, file_stem_str, join, stem_of};

verus! {

/// Type of module paths
#[derive(Debug, Clone, Copy, PartialEq, Eq, Structural)]
pub enum ModType {
    /// Module named "modname.rs"
    Adjacent,
    /// Module named "modname/mod.rs"
    ModRs,
}

/// A module's file together with its naming convention.
#[derive(Debug, Clone)]
pub struct ModPath {
    pub path: String,
    pub mod_type: ModType,
}

/// The module whose file is being read, and the names of the inline modules
/// entered inside it.
#[derive(Debug, Clone)]
pub struct ModStack {
    pub base: ModPath,
    pub names: Vec<String>,
}

/// Type of source file.
#[derive(Debug, Clone)]
pub enum SourceFileType {
    /// Rust source module.
    RustSource(ModType),
    /// Included Rust code (via `include!`).
    RustSnippet(ModStack),
    /// Included bytes (via `include_bytes!`).
    Bytes,
    /// Included string (via `include_str!`).
    String,
}

#[derive(Debug, Clone)]
pub struct SourceFileDesc {
    pub path: String,
    pub file_type: SourceFileType,
    pub parent_file: Option<String>,
}

/// What went wrong with one source.
#[derive(Debug, Clone)]
pub enum Error {
    /// A declared module has no file: every candidate that was tried.
    MissingFile(Vec<SourceFileDesc>),
    /// The file could not be parsed.
    Parse(String),
    /// The file could not be read.
    Io(String),
}

/// The abstract value of a [`ModStack`].
pub struct StackModel {
    pub base: Seq<char>,
    pub base_type: ModType,
    pub names: Seq<Seq<char>>,
}

/// The abstract value of a [`SourceFileType`].
pub enum KindModel {
    Source(ModType),
    Snippet(StackModel),
    Bytes,
    Text,
}

/// The abstract value of a [`SourceFileDesc`].
pub struct DescModel {
    pub path: Seq<char>,
    pub kind: KindModel,
    pub parent: Option<Seq<char>>,
}

/// The abstract value of an [`Error`].
pub enum ErrorModel {
    MissingFile(Seq<DescModel>),
    Parse(Seq<char>),
    Io(Seq<char>),
}

pub open spec fn strings_view(v: Seq<String>) -> Seq<Seq<char>> {
    v.map_values(|s: String| s@)
}

pub open spec fn opt_view(o: Option<String>) -> Option<Seq<char>> {
    match o {
        Some(s) => Some(s@),
        None => None,
    }
}

impl View for ModStack {
    type V = StackModel;

    open spec fn view(&self) -> StackModel {
        StackModel { base: self.base.path@, base_type: self.base.mod_type, names: strings_view(self.names@) }
    }
}

impl View for SourceFileType {
    type V = KindModel;

    open spec fn view(&self) -> KindModel {
        match self {
            SourceFileType::RustSource(t) => KindModel::Source(*t),
            SourceFileType::RustSnippet(s) => KindModel::Snippet(s@),
            SourceFileType::Bytes => KindModel::Bytes,
            SourceFileType::String => KindModel::Text,
        }
    }
}

impl View for SourceFileDesc {
    type V = DescModel;

    open spec fn view(&self) -> DescModel {
        DescModel { path: self.path@, kind: self.file_type@, parent: opt_view(self.parent_file) }
    }
}

pub open spec fn descs_view(v: Seq<SourceFileDesc>) -> Seq<DescModel> {
    v.map_values(|d: SourceFileDesc| d@)
}

impl View for Error {
    type V = ErrorModel;

    open spec fn view(&self) -> ErrorModel {
        match self {
            Error::MissingFile(c) => ErrorModel::MissingFile(descs_view(c@)),
            Error::Parse(m) => ErrorModel::Parse(m@),
            Error::Io(m) => ErrorModel::Io(m@),
        }
    }
}

pub open spec fn errors_view(v: Seq<Error>) -> Seq<ErrorModel> {
    v.map_values(|e: Error| e@)
}

/// The directory in which the children of the module in `path` lie.
pub open spec fn module_dir(path: Seq<char>, t: ModType) -> Seq<char> {
    match t {
        ModType::ModRs => dir_of(path),
        ModType::Adjacent => join(dir_of(path), stem_of(file_name_of(path))),
    }
}

/// `dir` with the inline module names appended one by one.
pub open spec fn nested_dir(dir: Seq<char>, names: Seq<Seq<char>>) -> Seq<char>
    decreases names.len(),
{
    if names.len() == 0 {
        dir
    } else {
        join(nested_dir(dir, names.drop_last()), names.last())
    }
}

impl StackModel {
    /// Where a file-backed module declared at this point is looked for.
    pub open spec fn dir(self) -> Seq<char> {
        nested_dir(module_dir(self.base, self.base_type), self.names)
    }

    pub open spec fn push(self, name: Seq<char>) -> StackModel {
        StackModel { base: self.base, base_type: self.base_type, names: self.names.push(name) }
    }
}

impl DescModel {
    pub open spec fn is_opaque(self) -> bool {
        self.kind is Bytes || self.kind is Text
    }
}

pub fn copy_strings(v: &Vec<String>) -> (r: Vec<String>)
    ensures
        r@ == v@,
{
    let mut r: Vec<String> = Vec::new();
    let mut i: usize = 0;
    while i < v.len()
        invariant
            i <= v@.len(),
            r@ == v@.subrange(0, i as int),
        decreases v@.len() - i,
    {
        r.push(v[i].clone());
        i = i + 1;
        assert(r@ =~= v@.subrange(0, i as int));
    }
    assert(v@.subrange(0, v@.len() as int) =~= v@);
    r
}

pub fn copy_opt(o: &Option<String>) -> (r: Option<String>)
    ensures
        r == *o,
{
    match o {
        Some(s) => Some(s.clone()),
        None => None,
    }
}

impl ModPath {
    pub fn new(path: String, mod_type: ModType) -> (r: ModPath)
        ensures
            r.path == path,
            r.mod_type == mod_type,
    {
        ModPath { path, mod_type }
    }

    pub fn copy(&self) -> (r: ModPath)
        ensures
            r.path@ == self.path@,
            r.mod_type == self.mod_type,
    {
        ModPath { path: self.path.clone(), mod_type: self.mod_type }
    }

    /// The directory in which this module's children lie.
    pub fn child_dir(&self) -> (r: String)
        ensures
            r@ == module_dir(self.path@, self.mod_type),
    {
        let dir = dir_path(self.path.as_str());
        match self.mod_type {
            ModType::ModRs => dir,
            ModType::Adjacent => {
                let stem = file_stem_str(self.path.as_str());
                child_path(dir.as_str(), stem.as_str())
            },
        }
    }
}

impl ModStack {
    /// The stack of a module's own file, with no inline module entered.
    pub fn new(base: ModPath) -> (r: ModStack)
        ensures
            r@.base == base.path@,
            r@.base_type == base.mod_type,
            r@.names.len() == 0,
    {
        let r = ModStack { base, names: Vec::new() };
        assert(r@.names =~= Seq::<Seq<char>>::empty());
        r
    }

    pub fn copy(&self) -> (r: ModStack)
        ensures
            r@ == self@,
    {
        ModStack { base: self.base.copy(), names: copy_strings(&self.names) }
    }

    /// The directory in which a file-backed module declared here is looked for.
    pub fn dir(&self) -> (r: String)
        ensures
            r@ == self@.dir(),
    {
        let mut d = self.base.child_dir();
        let mut i: usize = 0;
        while i < self.names.len()
            invariant
                i <= self.names@.len(),
                d@ == nested_dir(module_dir(self.base.path@, self.base.mod_type), strings_view(self.names@.subrange(0, i as int))),
            decreases self.names@.len() - i,
        {
            d = child_path(d.as_str(), self.names[i].as_str());
            proof {
                let s = strings_view(self.names@.subrange(0, i + 1));
                assert(s.drop_last() =~= strings_view(self.names@.subrange(0, i as int)));
            }
            i = i + 1;
        }
        assert(self.names@.subrange(0, self.names@.len() as int) =~= self.names@);
        d
    }
}

impl SourceFileType {
    pub fn copy(&self) -> (r: SourceFileType)
        ensures
            r@ == self@,
    {
        match self {
            SourceFileType::RustSource(t) => SourceFileType::RustSource(*t),
            SourceFileType::RustSnippet(s) => SourceFileType::RustSnippet(s.copy()),
            SourceFileType::Bytes => SourceFileType::Bytes,
            SourceFileType::String => SourceFileType::String,
        }
    }

    /// Whether the file is included as data and never read as Rust.
    pub fn is_opaque(&self) -> (r: bool)
        ensures
            r == (self@ is Bytes || self@ is Text),
    {
        match self {
            SourceFileType::Bytes | SourceFileType::String => true,
            _ => false,
        }
    }
}

impl SourceFileDesc {
    pub fn new(path: String, file_type: SourceFileType, parent_file: Option<String>) -> (r: Self)
        ensures
            r.path == path,
            r.file_type == file_type,
            r.parent_file == parent_file,
    {
        SourceFileDesc { path, file_type, parent_file }
    }

    pub fn copy(&self) -> (r: SourceFileDesc)
        ensures
            r@ == self@,
    {
        SourceFileDesc { path: self.path.clone(), file_type: self.file_type.copy(), parent_file: copy_opt(&self.parent_file) }
    }
}

impl Error {
    pub fn copy(&self) -> (r: Error)
        ensures
            r@ == self@,
    {
        match self {
            Error::MissingFile(c) => Error::MissingFile(copy_descs(c)),
            Error::Parse(m) => Error::Parse(m.clone()),
            Error::Io(m) => Error::Io(m.clone()),
        }
    }
}

pub fn copy_descs(v: &Vec<SourceFileDesc>) -> (r: Vec<SourceFileDesc>)
    ensures
        descs_view(r@) == descs_view(v@),
{
    let mut r: Vec<SourceFileDesc> = Vec::new();
    let mut i: usize = 0;
    while i < v.len()
        invariant
            i <= v@.len(),
            r@.len() == i,
            descs_view(r@) == descs_view(v@.subrange(0, i as int)),
        decreases v@.len() - i,
    {
        let ghost prev = r@;
        r.push(v[i].copy());
        proof {
            assert forall|j: int| 0 <= j < i + 1 implies descs_view(r@)[j] == descs_view(v@.subrange(0, i + 1))[j] by {
                if j < i {
                    assert(r@[j] == prev[j]);
                    assert(descs_view(prev)[j] == descs_view(v@.subrange(0, i as int))[j]);
                }
            }
        }
        i = i + 1;
        assert(descs_view(r@) =~= descs_view(v@.subrange(0, i as int)));
    }
    assert(v@.subrange(0, v@.len() as int) =~= v@);
    r
}

} // verus!
