use simi::ast::{Block, Expr, ExprKind, Program, Stmt, StmtKind};
use simi::local_imports::collect_local_imports;
use simi::pattern::{Pattern, PatternKind};
use simi::span::Span;

fn at(kind: ExprKind, start: usize, end: usize) -> Expr {
    Expr { kind, span: Span::new(start, end) }
}

fn require(path: &str, start: usize) -> Expr {
    let callee = at(ExprKind::Variable("require".to_owned()), start, start + 7);
    let arg = at(ExprKind::String(path.to_owned()), start + 8, start + 10);
    at(ExprKind::Call { callee: Box::new(callee), args: vec![arg] }, start, start + 11)
}

fn statement(e: Expr) -> Stmt {
    let span = e.span;
    Stmt { kind: StmtKind::Expr(e), span }
}

#[test]
fn literal_local_requires_are_found_in_source_order() {
    let nested = at(
        ExprKind::Call {
            callee: Box::new(at(ExprKind::Variable("f".to_owned()), 20, 21)),
            args: vec![require("./b.simi", 22), require("std/io", 40)],
        },
        20,
        60,
    );
    let branch = at(
        ExprKind::If {
            branches: vec![(
                at(ExprKind::Bool(true), 70, 74),
                Block { items: vec![statement(require("./c.simi", 75))], span: Span::new(75, 90) },
            )],
            else_branch: None,
        },
        70,
        90,
    );
    let binding = Stmt {
        kind: StmtKind::Let {
            pattern: Pattern { kind: PatternKind::Binding("a".to_owned()), span: Span::new(4, 5) },
            value: require("./a.simi", 8),
        },
        span: Span::new(0, 19),
    };
    let two_args = at(
        ExprKind::Call {
            callee: Box::new(at(ExprKind::Variable("require".to_owned()), 100, 107)),
            args: vec![at(ExprKind::String("./d".to_owned()), 108, 111), at(ExprKind::Nil, 112, 115)],
        },
        100,
        116,
    );
    let program = Program { items: vec![binding, statement(nested), statement(branch), statement(two_args)] };
    let imports = collect_local_imports(&program);
    let found: Vec<(&str, Span, Span)> =
        imports.iter().map(|i| (i.path.as_str(), i.span, i.callee_span)).collect();
    assert_eq!(
        found,
        vec![
            ("./a.simi", Span::new(16, 18), Span::new(8, 15)),
            ("./b.simi", Span::new(30, 32), Span::new(22, 29)),
            ("./c.simi", Span::new(83, 85), Span::new(75, 82)),
        ]
    );
}

#[test]
fn a_program_without_requires_has_no_local_imports() {
    let program = Program { items: vec![statement(at(ExprKind::Int(1), 0, 1))] };
    assert!(collect_local_imports(&program).is_empty());
}
