//! The syntax walk over one file, and the resolution of what it found
//! against the files that exist.

use vstd::prelude::*;
use vstd::string::*;
use crate::paths::{child_path, dir_of, dir_path, file_name_of, file_name_str, join};
use crate::source_desc::{opt_view, strings_view, DescModel, KindModel, ModPath, ModStack, ModType, SourceFileDesc, SourceFileType, StackModel};

verus! {

/// The parts of a parsed file that decide which other files belong to the
/// crate, in the order in which they stand.
#[derive(Debug, Clone)]
pub enum SyntaxEvent {
    /// `mod name;`, with its outer attributes.
    ModDecl { name: String, attrs: Vec<Attr> },
    /// `mod name {`: the items up to the matching `ModClose` lie inside it.
    ModOpen { name: String },
    /// The end of an inline module.
    ModClose,
    /// A macro call, with its argument when that is one string literal.
    MacroCall { name: String, literal: Option<String> },
    /// The start of one attribute-gated block of a `cfg_if!` call.
    BranchOpen,
    /// The end of such a block.
    BranchClose,
}

/// An attribute `#[name = "value"]`; `value` is `None` where the attribute
/// has another shape or its value is no string literal.
#[derive(Debug, Clone)]
pub struct Attr {
    pub name: String,
    pub value: Option<String>,
}

/// The path that the first `#[path = "..."]` attribute of `attrs` gives.
pub open spec fn path_override(attrs: Seq<Attr>) -> Option<Seq<char>>
    decreases attrs.len(),
{
    if attrs.len() == 0 {
        None
    } else if attrs[0].name@ == "path"@ && attrs[0].value is Some {
        Some(attrs[0].value->0@)
    } else {
        path_override(attrs.subrange(1, attrs.len() as int))
    }
}

/// The path that the first `#[path = "..."]` attribute of `attrs` gives.
pub fn path_attribute(attrs: &Vec<Attr>) -> (r: Option<String>)
    ensures
        opt_view(r) == path_override(attrs@),
{
    let n = attrs.len();
    let mut i: usize = 0;
    assert(attrs@.subrange(0, n as int) =~= attrs@);
    while i < n
        invariant
            n == attrs@.len(),
            i <= n,
            path_override(attrs@) == path_override(attrs@.subrange(i as int, n as int)),
        decreases n - i,
    {
        let ghost sub = attrs@.subrange(i as int, n as int);
        assert(sub.subrange(1, sub.len() as int) =~= attrs@.subrange(i + 1, n as int));
        assert(sub[0] == attrs@[i as int]);
        if same_text(&attrs[i].name, "path") {
            if let Some(v) = &attrs[i].value {
                return Some(v.clone());
            }
        }
        i = i + 1;
    }
    None
}

/// Something a file points at: a module with the files it may lie in, in
/// order of priority, or an included file.
#[derive(Debug, Clone)]
pub enum Reference {
    Module(Vec<ModPath>),
    Direct(SourceFileDesc),
}

pub enum ReferenceModel {
    Module(Seq<(Seq<char>, ModType)>),
    Direct(DescModel),
}

pub open spec fn modpaths_view(v: Seq<ModPath>) -> Seq<(Seq<char>, ModType)> {
    v.map_values(|m: ModPath| (m.path@, m.mod_type))
}

impl View for Reference {
    type V = ReferenceModel;

    open spec fn view(&self) -> ReferenceModel {
        match self {
            Reference::Module(c) => ReferenceModel::Module(modpaths_view(c@)),
            Reference::Direct(d) => ReferenceModel::Direct(d@),
        }
    }
}

pub open spec fn refs_view(v: Seq<Reference>) -> Seq<ReferenceModel> {
    v.map_values(|r: Reference| r@)
}

pub open spec fn rs_suffix() -> Seq<char> {
    seq!['.', 'r', 's']
}

pub open spec fn mod_rs_name() -> Seq<char> {
    seq!['m', 'o', 'd', '.', 'r', 's']
}

/// The naming convention of a file named by a path attribute.
pub open spec fn type_of_file(path: Seq<char>) -> ModType {
    if file_name_of(path) == mod_rs_name() {
        ModType::ModRs
    } else {
        ModType::Adjacent
    }
}

/// The files, in order, in which module `name` declared at `stack` may lie.
pub open spec fn candidates(stack: StackModel, name: Seq<char>, path_attr: Option<Seq<char>>) -> Seq<(Seq<char>, ModType)> {
    match path_attr {
        Some(p) => {
            let f = join(dir_of(stack.base), p);
            seq![(f, type_of_file(f))]
        },
        None => seq![
            (join(stack.dir(), name + rs_suffix()), ModType::Adjacent),
            (join(join(stack.dir(), name), mod_rs_name()), ModType::ModRs),
        ],
    }
}

/// What a macro call with a literal argument includes, if anything.
pub open spec fn inclusion_kind(name: Seq<char>, stack: StackModel) -> Option<KindModel> {
    if name == "include"@ {
        Some(KindModel::Snippet(stack))
    } else if name == "include_str"@ {
        Some(KindModel::Text)
    } else if name == "include_bytes"@ {
        Some(KindModel::Bytes)
    } else {
        None
    }
}

pub open spec fn pop_stack(stack: StackModel) -> StackModel {
    if stack.names.len() == 0 {
        stack
    } else {
        StackModel { base: stack.base, base_type: stack.base_type, names: stack.names.drop_last() }
    }
}

/// The references of `events`, read with `stack` as the enclosing module.
pub open spec fn refs_from(events: Seq<SyntaxEvent>, stack: StackModel) -> Seq<ReferenceModel>
    decreases events.len(),
{
    if events.len() == 0 {
        Seq::empty()
    } else {
        let rest = events.subrange(1, events.len() as int);
        match events[0] {
            SyntaxEvent::ModDecl { name, attrs } => seq![
                ReferenceModel::Module(candidates(stack, name@, path_override(attrs@))),
            ] + refs_from(rest, stack),
            SyntaxEvent::ModOpen { name } => refs_from(rest, stack.push(name@)),
            SyntaxEvent::ModClose => refs_from(rest, pop_stack(stack)),
            SyntaxEvent::MacroCall { name, literal } => match (literal, inclusion_kind(name@, stack)) {
                (Some(lit), Some(kind)) => seq![
                    ReferenceModel::Direct(
                        DescModel { path: join(dir_of(stack.base), lit@), kind, parent: None },
                    ),
                ] + refs_from(rest, stack),
                _ => refs_from(rest, stack),
            },
            _ => refs_from(rest, stack),
        }
    }
}

fn same_text(s: &String, lit: &str) -> (r: bool)
    ensures
        r == (s@ == lit@),
{
    *s == String::from_str(lit)
}

fn file_type_of(path: &String) -> (r: ModType)
    ensures
        r == type_of_file(path@),
{
    proof {
        reveal_strlit("mod.rs");
        assert("mod.rs"@ =~= mod_rs_name());
    }
    if same_text(&file_name_str(path.as_str()), "mod.rs") {
        ModType::ModRs
    } else {
        ModType::Adjacent
    }
}

/// The candidate files of module `name` declared at `stack`.
pub fn module_candidates(stack: &ModStack, name: &String, path_attr: &Option<String>) -> (r: Vec<ModPath>)
    ensures
        modpaths_view(r@) == candidates(stack@, name@, opt_view(*path_attr)),
{
    proof {
        reveal_strlit(".rs");
        reveal_strlit("mod.rs");
        assert(".rs"@ =~= rs_suffix());
        assert("mod.rs"@ =~= mod_rs_name());
    }
    let mut r: Vec<ModPath> = Vec::new();
    match path_attr {
        Some(p) => {
            let dir = dir_path(stack.base.path.as_str());
            let f = child_path(dir.as_str(), p.as_str());
            let t = file_type_of(&f);
            r.push(ModPath::new(f, t));
        },
        None => {
            let dir = stack.dir();
            let adjacent = child_path(dir.as_str(), name.clone().concat(".rs").as_str());
            let sub = child_path(dir.as_str(), name.as_str());
            let index = child_path(sub.as_str(), "mod.rs");
            r.push(ModPath::new(adjacent, ModType::Adjacent));
            r.push(ModPath::new(index, ModType::ModRs));
        },
    }
    assert(modpaths_view(r@) =~= candidates(stack@, name@, opt_view(*path_attr)));
    r
}

/// What a macro call `name!("literal")` at `stack` includes, if anything.
fn inclusion(stack: &ModStack, name: &String, literal: &String) -> (r: Option<SourceFileDesc>)
    ensures
        match inclusion_kind(name@, stack@) {
            Some(kind) => r is Some && r->0@ == (DescModel { path: join(dir_of(stack@.base), literal@), kind, parent: None }),
            None => r is None,
        },
{
    let file_type = if same_text(name, "include") {
        SourceFileType::RustSnippet(stack.copy())
    } else if same_text(name, "include_str") {
        SourceFileType::String
    } else if same_text(name, "include_bytes") {
        SourceFileType::Bytes
    } else {
        return None;
    };
    let dir = dir_path(stack.base.path.as_str());
    Some(SourceFileDesc::new(child_path(dir.as_str(), literal.as_str()), file_type, None))
}

/// Walks the syntax of one file, read at `stack`, and lists what it refers
/// to. Every gated block of a `cfg_if!` is walked: none is chosen.
pub fn find_references(events: &Vec<SyntaxEvent>, stack: &ModStack) -> (r: Vec<Reference>)
    ensures
        refs_view(r@) == refs_from(events@, stack@),
{
    let mut out: Vec<Reference> = Vec::new();
    let mut cur = stack.copy();
    let mut i: usize = 0;
    let n = events.len();
    assert(events@.subrange(0, n as int) =~= events@);
    while i < n
        invariant
            n == events@.len(),
            i <= n,
            refs_from(events@, stack@) == refs_view(out@) + refs_from(events@.subrange(i as int, n as int), cur@),
        decreases n - i,
    {
        let ghost rest = events@.subrange(i + 1, n as int);
        let ghost c0 = cur@;
        let ghost prev = out@;
        assert(events@.subrange(i as int, n as int).subrange(1, n - i) =~= rest);
        assert(events@.subrange(i as int, n as int)[0] == events@[i as int]);
        match &events[i] {
            SyntaxEvent::ModDecl { name, attrs } => {
                let path_attr = path_attribute(attrs);
                out.push(Reference::Module(module_candidates(&cur, name, &path_attr)));
            },
            SyntaxEvent::ModOpen { name } => {
                cur.names.push(name.clone());
                assert(cur@.names =~= c0.names.push(name@));
            },
            SyntaxEvent::ModClose => {
                if cur.names.len() > 0 {
                    cur.names.pop();
                    assert(cur@.names =~= c0.names.drop_last());
                }
            },
            SyntaxEvent::MacroCall { name, literal } => {
                if let Some(lit) = literal {
                    if let Some(d) = inclusion(&cur, name, lit) {
                        out.push(Reference::Direct(d));
                    }
                }
            },
            _ => {},
        }
        proof {
            let emitted = refs_view(out@).subrange(prev.len() as int, out@.len() as int);
            assert(refs_view(out@) =~= refs_view(prev) + emitted);
            assert(refs_from(events@.subrange(i as int, n as int), c0) =~= emitted + refs_from(rest, cur@));
            assert((refs_view(prev) + emitted) + refs_from(rest, cur@) =~= refs_view(prev) + (emitted + refs_from(rest, cur@)));
        }
        i = i + 1;
    }
    assert(refs_view(out@) + Seq::<ReferenceModel>::empty() =~= refs_view(out@));
    out
}

} // verus!
