use i_lang::ast::{Decl, DeclKind, Expr, ExprKind, File};
use i_lang::span::Span;

fn simple_let() -> File {
    File {
        module: None,
        decls: vec![Decl {
            span: Span::new(0, 0),
            node: DeclKind::Binding {
                name: "x".into(),
                ty: None,
                value: Some(Expr { span: Span::new(0, 0), node: ExprKind::IntLit(1) }),
            },
        }],
    }
}

#[test]
fn ast_display_simple_let() {
    let out = simple_let().to_string();
    assert_eq!(out.trim(), "(file\n  (let x (int 1)))");
}

#[test]
fn mod_display_simple_let() {
    let out = simple_let().to_string();
    assert_eq!(out.trim(), "(file\n  (let x (int 1)))");
}
