use i_lang::ast::File;
use i_lang::error::ErrorKind;
use i_lang::lex::lex;
use i_lang::parse::parse;
use i_lang::resolve::module_set::{resolve_project, ModuleSet};
use i_lang::resolve::resolve_file;
use i_lang::resolve::types::{DefKind, ResolvedName};
use i_lang::span::Span;

fn file(src: &str) -> File {
    parse(&lex(src).unwrap()).unwrap()
}

#[test]
fn top_level_definitions_are_numbered_in_order() {
    let f = file("type Point\n  x : Int\nx = 1\ntrait Show a\n  show : a -> String\n");
    let res = resolve_file(&f).unwrap();
    assert_eq!(res.defs.len(), 3);
    assert_eq!(res.defs[0].name, "Point");
    assert_eq!(res.defs[0].kind, DefKind::Type);
    assert_eq!(res.defs[1].name, "x");
    assert_eq!(res.defs[1].kind, DefKind::Value);
    assert_eq!(res.defs[2].kind, DefKind::Trait);
    assert_eq!(res.defs[2].id.0, 2);
}

#[test]
fn value_reference_resolves_to_its_definition() {
    let f = file("x = 1\ny = x + 1\n");
    let res = resolve_file(&f).unwrap();
    // `x` in `y = x + 1` is at bytes 10..11.
    assert_eq!(res.refs.get(&Span::new(10, 11)), Some(&ResolvedName::TopLevel(res.defs[0].id)));
}

#[test]
fn unknown_names_are_each_reported() {
    let f = file("y = a + b\n");
    let errs = resolve_file(&f).unwrap_err();
    assert_eq!(errs.len(), 2);
    match &errs[0].kind {
        ErrorKind::Unresolved { name } => assert_eq!(name, "a"),
        other => panic!("unexpected {:?}", other),
    }
    assert_eq!(errs[0].span, Span::new(4, 5));
}

#[test]
fn construction_resolves_type_name() {
    let f = file("type Point\n  x : Int\np = Point(x = 1)\n");
    let res = resolve_file(&f).unwrap();
    assert_eq!(res.refs.len(), 1);
}

#[test]
fn module_cycle_is_reported() {
    let a = file("use B\nx = 1\n");
    let b = file("use A\ny = 2\n");
    let set: ModuleSet = vec![(vec!["A".to_string()], a), (vec!["B".to_string()], b)];
    let errs = resolve_project(&set).unwrap_err();
    assert!(!errs.is_empty());
    match &errs[0].kind {
        ErrorKind::ModuleCycle { members } => {
            assert_eq!(members.len(), 2);
            assert_eq!(members[0], vec!["A".to_string()]);
            assert_eq!(members[1], vec!["B".to_string()]);
        }
        other => panic!("unexpected {:?}", other),
    }
}

#[test]
fn acyclic_project_resolves_every_module() {
    let a = file("use B\nx = 1\n");
    let b = file("y = 2\n");
    let set: ModuleSet = vec![(vec!["A".to_string()], a), (vec!["B".to_string()], b)];
    let out = resolve_project(&set).unwrap();
    assert_eq!(out.len(), 2);
    assert_eq!(out[0].0, vec!["A".to_string()]);
    assert_eq!(out[1].1.defs.len(), 1);
}

#[test]
fn cycles_reached_from_other_modules_are_found() {
    // C uses A, A uses B, B uses C: a cycle of three, entered from A.
    let a = file("use B\nx = 1\n");
    let b = file("use C\ny = 2\n");
    let c = file("use A\nz = 3\n");
    let d = file("use D\nw = 4\n");
    let set: ModuleSet = vec![
        (vec!["A".to_string()], a),
        (vec!["B".to_string()], b),
        (vec!["C".to_string()], c),
    ];
    let errs = resolve_project(&set).unwrap_err();
    assert_eq!(errs.len(), 1);
    match &errs[0].kind {
        ErrorKind::ModuleCycle { members } => assert_eq!(members.len(), 3),
        other => panic!("unexpected {:?}", other),
    }
    let own: ModuleSet = vec![(vec!["D".to_string()], d)];
    let errs = resolve_project(&own).unwrap_err();
    match &errs[0].kind {
        ErrorKind::ModuleCycle { members } => assert_eq!(members, &vec![vec!["D".to_string()]]),
        other => panic!("unexpected {:?}", other),
    }
}
