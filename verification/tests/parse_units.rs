use i_lang::ast::{DeclKind, ExprKind};
use i_lang::error::ErrorKind;
use i_lang::lex::lex;
use i_lang::parse::{parse, parse_expr_for_test};

fn p(src: &str) -> String {
    parse_expr_for_test(&lex(src).unwrap()).unwrap().node.to_string()
}

#[test]
fn atoms_print_as_s_expressions() {
    assert_eq!(p("42"), "(int 42)");
    assert_eq!(p("2.50"), "(float 2.5)");
    assert_eq!(p("3.0"), "(float 3)");
    assert_eq!(p("\"hi\""), "(str \"hi\")");
    assert_eq!(p("x"), "(var x)");
    assert_eq!(p("Some"), "(ctor Some)");
    assert_eq!(p("[1, 2]"), "(list (int 1) (int 2))");
    assert_eq!(p("[]"), "(list)");
}

#[test]
fn precedence_and_associativity() {
    assert_eq!(p("1 + 2 * 3"), "(+ (int 1) (* (int 2) (int 3)))");
    assert_eq!(p("1 - 2 - 3"), "(- (- (int 1) (int 2)) (int 3))");
    assert_eq!(p("2 ^ 3 ^ 4"), "(^ (int 2) (^ (int 3) (int 4)))");
    assert_eq!(p("-x + 1"), "(+ (neg (var x)) (int 1))");
    assert_eq!(p("not a and b"), "(and (not (var a)) (var b))");
    assert_eq!(p("a or b and c"), "(or (var a) (and (var b) (var c)))");
}

#[test]
fn chained_comparison_is_an_error() {
    let err = parse_expr_for_test(&lex("a < b < c").unwrap()).unwrap_err();
    assert!(matches!(err.kind, ErrorKind::ChainedComparison));
}

#[test]
fn calls_and_lambdas() {
    assert_eq!(p("add 3, 4"), "(call (var add) (int 3) (int 4))");
    assert_eq!(p("x -> x + 1"), "(lambda ((pvar x)) (+ (var x) (int 1)))");
    assert_eq!(
        p("nums.map x -> x * 2"),
        "(call (. (var nums) map) (lambda ((pvar x)) (* (var x) (int 2))))"
    );
    assert_eq!(p("print! \"hi\""), "(call (! (var print)) (str \"hi\"))");
    assert_eq!(p("parseInt s?"), "(call (var parseInt) (? (var s)))");
}

#[test]
fn construction_and_update() {
    assert_eq!(p("Point(x = 1, y = 2)"), "(construct Point (kw x (int 1)) (kw y (int 2)))");
    assert_eq!(p("p(x = 3)"), "(update (var p) (kw x (int 3)))");
}

#[test]
fn match_arms() {
    assert_eq!(
        p("m match\n  Some n -> n\n  _ -> 0\n"),
        "(match (var m) ((arm (pctor Some (pvar n)) (var n)) (arm (wild) (int 0))))"
    );
}

#[test]
fn unexpected_token_reports_what_was_expected() {
    let err = parse_expr_for_test(&lex(")").unwrap()).unwrap_err();
    match err.kind {
        ErrorKind::Unexpected { found, expected } => {
            assert_eq!(found, "RParen");
            assert_eq!(expected, "an expression");
        }
        other => panic!("unexpected error {:?}", other),
    }
}

#[test]
fn file_with_declarations() {
    let src = "module App.Main\n  expose main, Point(..)\nuse Std.List as L\ntype Point\n  x : Float\n  y : Float\nmain : Int\nmain = 1\n";
    let file = parse(&lex(src).unwrap()).unwrap();
    assert_eq!(file.decls.len(), 4);
    assert!(matches!(file.decls[0].node, DeclKind::Use { .. }));
    assert_eq!(
        file.to_string(),
        "(file\n  (module App.Main (expose-val main) (expose-type Point *))\n  (use Std.List (alias L))\n  (type Point\n    (field x (tnamed Float))\n    (field y (tnamed Float)))\n  (sig main (tnamed Int))\n  (let main (int 1)))"
    );
}

#[test]
fn block_bodies() {
    let src = "f =\n  y = 1\n  y + 2\n";
    let file = parse(&lex(src).unwrap()).unwrap();
    match &file.decls[0].node {
        DeclKind::Binding { value: Some(v), .. } => assert!(matches!(v.node, ExprKind::Block(_))),
        _ => panic!("expected a binding"),
    }
    assert_eq!(
        file.to_string(),
        "(file\n  (let f (block\n    (let y (int 1))\n    (+ (var y) (int 2)))))"
    );
}

#[test]
fn function_types_with_effects() {
    let src = "f : Int, Int -> Int\ng : String ! Io -> Unit\n";
    let file = parse(&lex(src).unwrap()).unwrap();
    assert_eq!(
        file.to_string(),
        "(file\n  (sig f (tfun (tnamed Int) (tnamed Int) (tnamed Int)))\n  (sig g (tfun (tnamed String) (eff Io) (tnamed Unit))))"
    );
}

#[test]
fn node_eq_ignores_spans() {
    let a = parse(&lex("x = 1\n").unwrap()).unwrap();
    let b = parse(&lex("x   =   1\n").unwrap()).unwrap();
    let c = parse(&lex("x = 2\n").unwrap()).unwrap();
    assert!(a.node_eq(&b));
    assert!(!a.node_eq(&c));
}
