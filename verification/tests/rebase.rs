use simi::ast::decode_string;
use simi::ast::{Block, Expr, ExprKind, PatternClause, Program, Stmt, StmtKind};
use simi::operations::BinaryOp;
use simi::origins::{TokenOrigin, TokenOrigins};
use simi::pattern::{Pattern, PatternKind};
use simi::rebase::{rebase_expr, rebase_program};
use simi::span::Span;

fn origins() -> TokenOrigins {
    // Three tokens laid out at 0..1, 1..2, 2..3 that arrived at 10..11, 20..21, 30..31.
    TokenOrigins {
        entries: vec![
            TokenOrigin { synthetic: Span::new(0, 1), original: Span::new(10, 11) },
            TokenOrigin { synthetic: Span::new(1, 2), original: Span::new(20, 21) },
            TokenOrigin { synthetic: Span::new(2, 3), original: Span::new(30, 31) },
        ],
        eof_span: Span::new(40, 40),
    }
}

fn literal(value: i64, start: usize) -> Expr {
    Expr { kind: ExprKind::Int(value), span: Span::new(start, start + 1) }
}

#[test]
fn rebasing_an_expression_maps_every_span_and_keeps_the_rest() {
    let expression = Expr {
        kind: ExprKind::Binary { left: Box::new(literal(1, 0)), op: BinaryOp::Add, right: Box::new(literal(2, 2)) },
        span: Span::new(0, 3),
    };
    let rebased = rebase_expr(expression, &origins());
    assert_eq!(rebased.span, Span::new(10, 31));
    match rebased.kind {
        ExprKind::Binary { left, op, right } => {
            assert_eq!(op, BinaryOp::Add);
            assert_eq!(left.span, Span::new(10, 11));
            assert_eq!(right.span, Span::new(30, 31));
            assert!(matches!(left.kind, ExprKind::Int(1)));
            assert!(matches!(right.kind, ExprKind::Int(2)));
        }
        other => panic!("unexpected {other:?}"),
    }
}

#[test]
fn rebasing_a_program_reaches_blocks_clauses_and_patterns() {
    let clause = PatternClause {
        pattern: Pattern { kind: PatternKind::Binding("x".to_string()), span: Span::new(1, 2) },
        guard: None,
        body: Block { items: vec![Stmt { kind: StmtKind::Expr(literal(3, 2)), span: Span::new(2, 3) }], span: Span::new(2, 3) },
    };
    let case = Expr {
        kind: ExprKind::Case { value: Box::new(literal(0, 0)), clauses: vec![clause] },
        span: Span::new(0, 3),
    };
    let program = Program { items: vec![Stmt { kind: StmtKind::Expr(case), span: Span::new(0, 3) }] };
    let rebased = rebase_program(program, &origins());
    assert_eq!(rebased.items.len(), 1);
    assert_eq!(rebased.items[0].span, Span::new(10, 31));
    let StmtKind::Expr(case) = &rebased.items[0].kind else { panic!("expression statement") };
    let ExprKind::Case { value, clauses } = &case.kind else { panic!("case") };
    assert_eq!(value.span, Span::new(10, 11));
    assert_eq!(clauses[0].pattern.span, Span::new(20, 21));
    assert_eq!(clauses[0].body.span, Span::new(30, 31));
    assert_eq!(clauses[0].body.items[0].span, Span::new(30, 31));
}

#[test]
fn empty_ranges_rebase_to_the_end_of_input_past_every_token() {
    let rebased = rebase_expr(Expr { kind: ExprKind::Nil, span: Span::new(9, 9) }, &origins());
    assert_eq!(rebased.span, Span::new(40, 40));
}

#[test]
fn string_literals_decode_their_escapes() {
    assert_eq!(decode_string("\"\""), "");
    assert_eq!(decode_string("\"plain\""), "plain");
    assert_eq!(decode_string("\"a\\nb\\tc\\rd\""), "a\nb\tc\rd");
    assert_eq!(decode_string("\"q\\\"\\\\\""), "q\"\\");
}
