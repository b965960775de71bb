use srcfiles::{
    find_references, module_candidates, path_attribute, Attr, Error, ModPath, ModStack, ModType, Reference,
    SourceFileDesc, SourceFileType, SourceWalk, SourcesAndErrors, SyntaxEvent,
};
use srcfiles::{child_path, dir_path, file_stem_str};
use std::collections::HashMap;

fn decl(name: &str) -> SyntaxEvent {
    SyntaxEvent::ModDecl { name: name.to_string(), attrs: vec![] }
}

fn decl_at(name: &str, path: &str) -> SyntaxEvent {
    SyntaxEvent::ModDecl {
        name: name.to_string(),
        attrs: vec![
            Attr { name: "doc".to_string(), value: Some("x".to_string()) },
            Attr { name: "path".to_string(), value: Some(path.to_string()) },
        ],
    }
}

fn open(name: &str) -> SyntaxEvent {
    SyntaxEvent::ModOpen { name: name.to_string() }
}

fn mac(name: &str, lit: &str) -> SyntaxEvent {
    SyntaxEvent::MacroCall { name: name.to_string(), literal: Some(lit.to_string()) }
}

/// Runs a walk over files held in memory; a path exists when it is a key.
fn run(
    root: &str,
    files: &[(&str, Vec<SyntaxEvent>)],
    reads: &mut Vec<String>,
) -> Result<Vec<SourceFileDesc>, SourcesAndErrors> {
    let table: HashMap<String, Vec<SyntaxEvent>> =
        files.iter().map(|(p, e)| (p.to_string(), e.clone())).collect();
    let mut walk = SourceWalk::new(root.to_string());
    while let Some(path) = walk.advance() {
        reads.push(path.clone());
        match table.get(&path) {
            None => walk.read_failed(Error::Io(format!("cannot open {}", path))),
            Some(events) => {
                let probes = walk.parsed(events);
                let exists: Vec<bool> = probes.iter().map(|p| table.contains_key(p)).collect();
                walk.probed(&exists);
            }
        }
    }
    walk.finish()
}

fn paths(v: &[SourceFileDesc]) -> Vec<String> {
    let mut r: Vec<String> = v.iter().map(|d| d.path.clone()).collect();
    r.sort();
    r
}

#[test]
fn missing_module_lists_both_candidates() {
    let mut reads = Vec::new();
    let files = [
        ("src/main.rs", vec![decl("a"), decl("b"), decl("c")]),
        ("src/a.rs", vec![]),
        ("src/b/mod.rs", vec![]),
    ];
    let result = run("src/main.rs", &files, &mut reads).unwrap_err();
    let sources = result.get_sources();
    assert_eq!(paths(&sources), vec!["src/a.rs", "src/b/mod.rs", "src/main.rs"]);
    let errors = result.into_errors();
    assert_eq!(errors.len(), 1);
    assert_eq!(errors[0].0.path, "src/main.rs");
    match &errors[0].1 {
        Error::MissingFile(c) => {
            let p: Vec<&str> = c.iter().map(|d| d.path.as_str()).collect();
            assert_eq!(p, vec!["src/c.rs", "src/c/mod.rs"]);
        }
        other => panic!("unexpected error {:?}", other),
    }
}

#[test]
fn path_override_is_the_only_candidate() {
    let mut reads = Vec::new();
    let files = [("src/lib.rs", vec![decl_at("x", "../gone/x.rs")])];
    let result = run("src/lib.rs", &files, &mut reads).unwrap_err();
    let errors = result.into_errors();
    assert_eq!(errors.len(), 1);
    match &errors[0].1 {
        Error::MissingFile(c) => {
            assert_eq!(c.len(), 1);
            assert_eq!(c[0].path, "src/../gone/x.rs");
        }
        other => panic!("unexpected error {:?}", other),
    }
}

#[test]
fn inline_module_nests_the_search_directory() {
    let mut reads = Vec::new();
    let files = [
        ("src/lib.rs", vec![open("inner"), decl("d"), SyntaxEvent::ModClose]),
        ("src/inner/d.rs", vec![]),
        ("src/d.rs", vec![]),
    ];
    let sources = run("src/lib.rs", &files, &mut reads).unwrap();
    assert_eq!(paths(&sources), vec!["src/inner/d.rs", "src/lib.rs"]);
}

#[test]
fn included_source_keeps_the_module_stack() {
    let mut reads = Vec::new();
    let files = [
        ("src/main.rs", vec![mac("include", "../gen/part.rs")]),
        ("src/../gen/part.rs", vec![decl("m")]),
        ("src/m.rs", vec![]),
        ("gen/m.rs", vec![]),
    ];
    let sources = run("src/main.rs", &files, &mut reads).unwrap();
    assert_eq!(paths(&sources), vec!["src/../gen/part.rs", "src/m.rs", "src/main.rs"]);
    let part = sources.iter().find(|d| d.path == "src/../gen/part.rs").unwrap();
    match &part.file_type {
        SourceFileType::RustSnippet(stack) => {
            assert_eq!(stack.base.path, "src/main.rs");
            assert!(stack.names.is_empty());
        }
        other => panic!("unexpected type {:?}", other),
    }
}

#[test]
fn sibling_modules_are_not_merged() {
    let mut reads = Vec::new();
    let files = [
        ("src/lib.rs", vec![decl("p"), decl("q")]),
        ("src/p.rs", vec![decl_at("x", "shared.rs")]),
        ("src/q.rs", vec![decl_at("x", "shared.rs")]),
        ("src/shared.rs", vec![]),
    ];
    let sources = run("src/lib.rs", &files, &mut reads).unwrap();
    assert_eq!(
        paths(&sources),
        vec!["src/lib.rs", "src/p.rs", "src/q.rs", "src/shared.rs", "src/shared.rs"]
    );
}

#[test]
fn data_inclusions_are_never_read() {
    let mut reads = Vec::new();
    let files = [(
        "src/lib.rs",
        vec![mac("include_str", "data.txt"), mac("include_bytes", "blob.bin")],
    )];
    let sources = run("src/lib.rs", &files, &mut reads).unwrap();
    assert_eq!(reads, vec!["src/lib.rs"]);
    assert_eq!(paths(&sources), vec!["src/blob.bin", "src/data.txt", "src/lib.rs"]);
    assert!(sources.iter().any(|d| matches!(d.file_type, SourceFileType::String)));
    assert!(sources.iter().any(|d| matches!(d.file_type, SourceFileType::Bytes)));
}

#[test]
fn every_gated_block_is_walked() {
    let mut reads = Vec::new();
    let files = [
        (
            "src/lib.rs",
            vec![
                SyntaxEvent::BranchOpen,
                decl("unix"),
                SyntaxEvent::BranchClose,
                SyntaxEvent::BranchOpen,
                decl("windows"),
                SyntaxEvent::BranchClose,
            ],
        ),
        ("src/unix.rs", vec![]),
        ("src/windows/mod.rs", vec![]),
    ];
    let sources = run("src/lib.rs", &files, &mut reads).unwrap();
    assert_eq!(paths(&sources), vec!["src/lib.rs", "src/unix.rs", "src/windows/mod.rs"]);
}

#[test]
fn root_first_and_parents_set() {
    let mut reads = Vec::new();
    let files = [
        ("src/main.rs", vec![decl("a"), decl("gone")]),
        ("src/a.rs", vec![decl("b")]),
        ("src/a/b.rs", vec![]),
    ];
    let result = run("src/main.rs", &files, &mut reads).unwrap_err();
    let sources = result.get_sources();
    assert_eq!(sources[0].path, "src/main.rs");
    assert!(sources[0].parent_file.is_none());
    for d in &sources[1..] {
        assert!(d.parent_file.is_some());
    }
    let b = sources.iter().find(|d| d.path == "src/a/b.rs").unwrap();
    assert_eq!(b.parent_file.as_deref(), Some("src/a.rs"));
}

#[test]
fn unreadable_root_is_recorded() {
    let mut reads = Vec::new();
    let result = run("nowhere/lib.rs", &[], &mut reads).unwrap_err();
    let errors = result.into_errors();
    assert_eq!(errors.len(), 1);
    assert_eq!(errors[0].0.path, "nowhere/lib.rs");
    assert!(matches!(errors[0].1, Error::Io(_)));
}

#[test]
fn parse_failure_stops_only_that_file() {
    let mut walk = SourceWalk::new("src/lib.rs".to_string());
    assert_eq!(walk.advance().as_deref(), Some("src/lib.rs"));
    let probes = walk.parsed(&vec![decl("a")]);
    assert_eq!(probes, vec!["src/a.rs", "src/a/mod.rs"]);
    walk.probed(&vec![true, false]);
    assert_eq!(walk.advance().as_deref(), Some("src/a.rs"));
    walk.read_failed(Error::Parse("expected item".to_string()));
    assert_eq!(walk.advance(), None);
    let result = walk.finish().unwrap_err();
    assert_eq!(result.get_sources().len(), 2);
    let errors = result.into_errors();
    assert_eq!(errors.len(), 1);
    assert!(matches!(errors[0].1, Error::Parse(_)));
}

#[test]
fn candidates_follow_the_naming_convention() {
    let adjacent = ModStack::new(ModPath::new("src/a.rs".to_string(), ModType::Adjacent));
    let c = module_candidates(&adjacent, &"b".to_string(), &None);
    let p: Vec<&str> = c.iter().map(|m| m.path.as_str()).collect();
    assert_eq!(p, vec!["src/a/b.rs", "src/a/b/mod.rs"]);
    assert_eq!(c[0].mod_type, ModType::Adjacent);
    assert_eq!(c[1].mod_type, ModType::ModRs);

    let index = ModStack::new(ModPath::new("src/a/mod.rs".to_string(), ModType::ModRs));
    let c = module_candidates(&index, &"b".to_string(), &None);
    assert_eq!(c[0].path, "src/a/b.rs");

    let c = module_candidates(&adjacent, &"b".to_string(), &Some("other/mod.rs".to_string()));
    assert_eq!(c.len(), 1);
    assert_eq!(c[0].path, "src/other/mod.rs");
    assert_eq!(c[0].mod_type, ModType::ModRs);
}

#[test]
fn references_of_nested_and_unknown_macros() {
    let stack = ModStack::new(ModPath::new("lib.rs".to_string(), ModType::ModRs));
    let events = vec![
        open("a"),
        open("b"),
        decl("c"),
        SyntaxEvent::ModClose,
        decl("d"),
        SyntaxEvent::ModClose,
        mac("println", "hello"),
        SyntaxEvent::MacroCall { name: "include".to_string(), literal: None },
        decl("e"),
    ];
    let refs = find_references(&events, &stack);
    let firsts: Vec<String> = refs
        .iter()
        .map(|r| match r {
            Reference::Module(c) => c[0].path.clone(),
            Reference::Direct(d) => d.path.clone(),
        })
        .collect();
    assert_eq!(firsts, vec!["a/b/c.rs", "a/d.rs", "e.rs"]);
}

#[test]
fn path_helpers() {
    assert_eq!(dir_path("a/b/c.rs"), "a/b");
    assert_eq!(dir_path("c.rs"), "");
    assert_eq!(dir_path("/c.rs"), "/");
    assert_eq!(file_stem_str("a/b/c.rs"), "c");
    assert_eq!(file_stem_str("a/.hidden"), ".hidden");
    assert_eq!(file_stem_str("a/x.tar.gz"), "x.tar");
    assert_eq!(child_path("a/b", "c.rs"), "a/b/c.rs");
    assert_eq!(child_path("a/b/", "c.rs"), "a/b/c.rs");
    assert_eq!(child_path("", "c.rs"), "c.rs");
    assert_eq!(child_path("a", "/abs/c.rs"), "/abs/c.rs");
}

#[test]
fn descriptor_new_keeps_fields() {
    let d = SourceFileDesc::new(
        "x.rs".to_string(),
        SourceFileType::RustSource(ModType::Adjacent),
        Some("lib.rs".to_string()),
    );
    assert_eq!(d.path, "x.rs");
    assert!(matches!(d.file_type, SourceFileType::RustSource(ModType::Adjacent)));
    assert_eq!(d.parent_file.as_deref(), Some("lib.rs"));
}

#[test]
fn first_path_attribute_with_a_value_wins() {
    let attr = |n: &str, v: Option<&str>| Attr { name: n.to_string(), value: v.map(|v| v.to_string()) };
    assert_eq!(path_attribute(&vec![]), None);
    assert_eq!(path_attribute(&vec![attr("cfg", None), attr("doc", Some("a.rs"))]), None);
    assert_eq!(
        path_attribute(&vec![attr("path", None), attr("path", Some("b.rs")), attr("path", Some("c.rs"))]),
        Some("b.rs".to_string())
    );
}
