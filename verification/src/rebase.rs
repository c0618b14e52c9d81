//! Restoring source spans in a syntax tree. A tree parsed from a stream of tokens laid out one
//! after another has spans into that layout; rebasing replaces every span of every node by the
//! span the token origins give for it and leaves everything else as it was.
use vstd::prelude::*;
use crate::ast::{
    AssignmentTarget, AssignmentTargetKind, Block, Expr, ExprKind, PatternClause, PipelineStage,
    Program, Stmt, StmtKind,
};
use crate::origins::{rebase_spec, TokenOrigin, TokenOrigins};
use crate::pattern::{Pattern, PatternKind, PatternRest};
use crate::span::Span;

verus! {

/// Whether two lists of names are the same.
pub open spec fn same_names(a: Seq<String>, b: Seq<String>) -> bool {
    a.len() == b.len() && forall|i: int| 0 <= i < a.len() ==> #[trigger] a[i]@ == b[i]@
}

/// Whether two rest patterns are the same.
pub open spec fn same_rest(a: Option<PatternRest>, b: Option<PatternRest>) -> bool {
    match (a, b) {
        (None, None) => true,
        (Some(PatternRest::Discard), Some(PatternRest::Discard)) => true,
        (Some(PatternRest::Binding(x)), Some(PatternRest::Binding(y))) => x@ == y@,
        _ => false,
    }
}

/// Whether `b` is the pattern `a` with every span rebased.
pub open spec fn rebased_pattern(a: Pattern, b: Pattern, o: Seq<TokenOrigin>, eof: Span) -> bool
    decreases a, 0nat,
{
    &&& b.span == rebase_spec(o, eof, a.span)
    &&& match (a.kind, b.kind) {
        (PatternKind::Wildcard, PatternKind::Wildcard) => true,
        (PatternKind::Binding(x), PatternKind::Binding(y)) => x@ == y@,
        (PatternKind::Int(x), PatternKind::Int(y)) => x == y,
        (PatternKind::Float(x), PatternKind::Float(y)) => x.bits == y.bits && x.text@ == y.text@,
        (PatternKind::String(x), PatternKind::String(y)) => x@ == y@,
        (PatternKind::Bool(x), PatternKind::Bool(y)) => x == y,
        (PatternKind::Nil, PatternKind::Nil) => true,
        (PatternKind::List { elements: x, rest: r }, PatternKind::List { elements: y, rest: s }) =>
            same_rest(r, s) && rebased_patterns(x@, y@, o, eof),
        (PatternKind::Table { fields: x, rest: r }, PatternKind::Table { fields: y, rest: s }) =>
            same_rest(r, s) && rebased_fields(x@, y@, o, eof),
        _ => false,
    }
}

/// Whether patterns are rebased one for one.
pub open spec fn rebased_patterns(a: Seq<Pattern>, b: Seq<Pattern>, o: Seq<TokenOrigin>, eof: Span) -> bool
    decreases a, 1nat,
{
    a.len() == b.len() && forall|i: int| 0 <= i < a.len() ==> rebased_pattern(#[trigger] a[i], b[i], o, eof)
}

/// Whether the fields of map patterns are rebased one for one, names unchanged.
pub open spec fn rebased_fields(a: Seq<(String, Pattern)>, b: Seq<(String, Pattern)>, o: Seq<TokenOrigin>, eof: Span) -> bool
    decreases a, 1nat,
{
    a.len() == b.len() && forall|i: int| 0 <= i < a.len() ==> #[trigger] a[i].0@ == b[i].0@ && rebased_pattern(
        a[i].1,
        b[i].1,
        o,
        eof,
    )
}

/// Whether `b` is the expression `a` with every span rebased.
pub open spec fn rebased_expr(a: Expr, b: Expr, o: Seq<TokenOrigin>, eof: Span) -> bool
    decreases a, 0nat,
{
    &&& b.span == rebase_spec(o, eof, a.span)
    &&& match (a.kind, b.kind) {
        (ExprKind::Int(x), ExprKind::Int(y)) => x == y,
        (ExprKind::Float(x), ExprKind::Float(y)) => x.bits == y.bits && x.text@ == y.text@,
        (ExprKind::String(x), ExprKind::String(y)) => x@ == y@,
        (ExprKind::Bool(x), ExprKind::Bool(y)) => x == y,
        (ExprKind::Nil, ExprKind::Nil) => true,
        (ExprKind::Variable(x), ExprKind::Variable(y)) => x@ == y@,
        (ExprKind::List(x), ExprKind::List(y)) => rebased_exprs(x@, y@, o, eof),
        (ExprKind::Table(x), ExprKind::Table(y)) => rebased_entries(x@, y@, o, eof),
        (ExprKind::Function { params: p, body: x }, ExprKind::Function { params: q, body: y }) =>
            same_names(p@, q@) && rebased_block(x, y, o, eof),
        (ExprKind::Assign { target: t, value: x }, ExprKind::Assign { target: u, value: y }) =>
            rebased_target(t, u, o, eof) && rebased_expr(*x, *y, o, eof),
        (ExprKind::Raise { value: x }, ExprKind::Raise { value: y }) => rebased_expr(*x, *y, o, eof),
        (ExprKind::Block(x), ExprKind::Block(y)) => rebased_block(x, y, o, eof),
        (ExprKind::NilPropagate { value: x }, ExprKind::NilPropagate { value: y }) => rebased_expr(*x, *y, o, eof),
        (ExprKind::Try { protected: x, clauses: c }, ExprKind::Try { protected: y, clauses: d }) =>
            rebased_block(x, y, o, eof) && rebased_clauses(c@, d@, o, eof),
        (ExprKind::Case { value: x, clauses: c }, ExprKind::Case { value: y, clauses: d }) =>
            rebased_expr(*x, *y, o, eof) && rebased_clauses(c@, d@, o, eof),
        (ExprKind::If { branches: x, else_branch: c }, ExprKind::If { branches: y, else_branch: d }) =>
            rebased_branches(x@, y@, o, eof) && match (c, d) {
                (None, None) => true,
                (Some(c), Some(d)) => rebased_block(c, d, o, eof),
                _ => false,
            },
        (ExprKind::Loop { state: s, initial: x, body: c }, ExprKind::Loop { state: t, initial: y, body: d }) =>
            s@ == t@ && rebased_expr(*x, *y, o, eof) && rebased_block(c, d, o, eof),
        (ExprKind::Continue { value: x }, ExprKind::Continue { value: y }) => rebased_expr(*x, *y, o, eof),
        (ExprKind::Break { value: x }, ExprKind::Break { value: y }) => rebased_expr(*x, *y, o, eof),
        (ExprKind::Call { callee: x, args: c }, ExprKind::Call { callee: y, args: d }) =>
            rebased_expr(*x, *y, o, eof) && rebased_exprs(c@, d@, o, eof),
        (ExprKind::Field { object: x, name: m }, ExprKind::Field { object: y, name: n }) =>
            m@ == n@ && rebased_expr(*x, *y, o, eof),
        (ExprKind::Index { object: x, key: c }, ExprKind::Index { object: y, key: d }) =>
            rebased_expr(*x, *y, o, eof) && rebased_expr(*c, *d, o, eof),
        (ExprKind::Unary { op: p, value: x }, ExprKind::Unary { op: q, value: y }) =>
            p == q && rebased_expr(*x, *y, o, eof),
        (ExprKind::Binary { left: x, op: p, right: c }, ExprKind::Binary { left: y, op: q, right: d }) =>
            p == q && rebased_expr(*x, *y, o, eof) && rebased_expr(*c, *d, o, eof),
        (ExprKind::Pipeline { input: x, stages: c }, ExprKind::Pipeline { input: y, stages: d }) =>
            rebased_expr(*x, *y, o, eof) && rebased_stages(c@, d@, o, eof),
        _ => false,
    }
}

/// Whether expressions are rebased one for one.
pub open spec fn rebased_exprs(a: Seq<Expr>, b: Seq<Expr>, o: Seq<TokenOrigin>, eof: Span) -> bool
    decreases a, 1nat,
{
    a.len() == b.len() && forall|i: int| 0 <= i < a.len() ==> rebased_expr(#[trigger] a[i], b[i], o, eof)
}

/// Whether the entries of map expressions are rebased one for one.
pub open spec fn rebased_entries(a: Seq<(Expr, Expr)>, b: Seq<(Expr, Expr)>, o: Seq<TokenOrigin>, eof: Span) -> bool
    decreases a, 1nat,
{
    a.len() == b.len() && forall|i: int| 0 <= i < a.len() ==> rebased_expr(#[trigger] a[i].0, b[i].0, o, eof)
        && rebased_expr(a[i].1, b[i].1, o, eof)
}

/// Whether the branches of an `if` are rebased one for one.
pub open spec fn rebased_branches(a: Seq<(Expr, Block)>, b: Seq<(Expr, Block)>, o: Seq<TokenOrigin>, eof: Span) -> bool
    decreases a, 1nat,
{
    a.len() == b.len() && forall|i: int| 0 <= i < a.len() ==> rebased_expr(#[trigger] a[i].0, b[i].0, o, eof)
        && rebased_block(a[i].1, b[i].1, o, eof)
}

/// Whether pipeline stages are rebased one for one, their flags unchanged.
pub open spec fn rebased_stages(a: Seq<PipelineStage>, b: Seq<PipelineStage>, o: Seq<TokenOrigin>, eof: Span) -> bool
    decreases a, 1nat,
{
    a.len() == b.len() && forall|i: int| 0 <= i < a.len() ==> {
        &&& (#[trigger] a[i]).nil_aware == b[i].nil_aware
        &&& a[i].tap == b[i].tap
        &&& rebased_expr(a[i].callee, b[i].callee, o, eof)
        &&& rebased_exprs(a[i].args@, b[i].args@, o, eof)
        &&& b[i].span == rebase_spec(o, eof, a[i].span)
    }
}

/// Whether `b` is the assignment target `a` with every span rebased.
pub open spec fn rebased_target(a: AssignmentTarget, b: AssignmentTarget, o: Seq<TokenOrigin>, eof: Span) -> bool
    decreases a, 0nat,
{
    &&& b.span == rebase_spec(o, eof, a.span)
    &&& match (a.kind, b.kind) {
        (AssignmentTargetKind::Variable(x), AssignmentTargetKind::Variable(y)) => x@ == y@,
        (AssignmentTargetKind::Field { object: x, name: m }, AssignmentTargetKind::Field { object: y, name: n }) =>
            m@ == n@ && rebased_expr(*x, *y, o, eof),
        (AssignmentTargetKind::Index { object: x, key: c }, AssignmentTargetKind::Index { object: y, key: d }) =>
            rebased_expr(*x, *y, o, eof) && rebased_expr(*c, *d, o, eof),
        _ => false,
    }
}

/// Whether `b` is the clause `a` with every span rebased.
pub open spec fn rebased_clause(a: PatternClause, b: PatternClause, o: Seq<TokenOrigin>, eof: Span) -> bool
    decreases a, 0nat,
{
    &&& rebased_pattern(a.pattern, b.pattern, o, eof)
    &&& match (a.guard, b.guard) {
        (None, None) => true,
        (Some(x), Some(y)) => rebased_expr(x, y, o, eof),
        _ => false,
    }
    &&& rebased_block(a.body, b.body, o, eof)
}

/// Whether clauses are rebased one for one.
pub open spec fn rebased_clauses(a: Seq<PatternClause>, b: Seq<PatternClause>, o: Seq<TokenOrigin>, eof: Span) -> bool
    decreases a, 1nat,
{
    a.len() == b.len() && forall|i: int| 0 <= i < a.len() ==> rebased_clause(#[trigger] a[i], b[i], o, eof)
}

/// Whether `b` is the block `a` with every span rebased.
pub open spec fn rebased_block(a: Block, b: Block, o: Seq<TokenOrigin>, eof: Span) -> bool
    decreases a, 0nat,
{
    b.span == rebase_spec(o, eof, a.span) && rebased_stmts(a.items@, b.items@, o, eof)
}

/// Whether statements are rebased one for one.
pub open spec fn rebased_stmts(a: Seq<Stmt>, b: Seq<Stmt>, o: Seq<TokenOrigin>, eof: Span) -> bool
    decreases a, 1nat,
{
    a.len() == b.len() && forall|i: int| 0 <= i < a.len() ==> rebased_stmt(#[trigger] a[i], b[i], o, eof)
}

/// Whether `b` is the statement `a` with every span rebased.
pub open spec fn rebased_stmt(a: Stmt, b: Stmt, o: Seq<TokenOrigin>, eof: Span) -> bool
    decreases a, 0nat,
{
    &&& b.span == rebase_spec(o, eof, a.span)
    &&& match (a.kind, b.kind) {
        (StmtKind::Function { name: m, params: p, body: x }, StmtKind::Function { name: n, params: q, body: y }) =>
            m@ == n@ && same_names(p@, q@) && rebased_block(x, y, o, eof),
        (StmtKind::Let { pattern: p, value: x }, StmtKind::Let { pattern: q, value: y }) =>
            rebased_pattern(p, q, o, eof) && rebased_expr(x, y, o, eof),
        (StmtKind::Expr(x), StmtKind::Expr(y)) => rebased_expr(x, y, o, eof),
        _ => false,
    }
}

/// Rebases exprs one for one.
fn rebase_exprs(xs: Vec<Expr>, o: &TokenOrigins) -> (ys: Vec<Expr>)
    ensures
        rebased_exprs(xs@, ys@, o.entries@, o.eof_span),
    decreases xs@, 1nat,
{
    let ghost orig = xs@;
    let mut rest = xs;
    let mut ys: Vec<Expr> = Vec::new();
    proof {
        assert(rest@ =~= orig.skip(0));
    }
    while rest.len() > 0
        invariant
            orig == xs@,
            rest@.len() <= orig.len(),
            rest@ == orig.skip(orig.len() - rest@.len()),
            ys@.len() == orig.len() - rest@.len(),
            forall|j: int| 0 <= j < ys@.len() ==> rebased_expr(#[trigger] orig[j], ys@[j], o.entries@, o.eof_span),
        decreases rest@.len(),
    {
        let ghost k: int = orig.len() - rest@.len();
        let ghost before = rest@;
        let x = rest.remove(0);
        proof {
            assert(x == before[0]);
            assert(before[0] == orig[k]);
            assert(rest@ =~= orig.skip(k + 1));
            assert(decreases_to!(orig => orig[k]));
        }
        let y = rebase_expr(x, o);
        let ghost old_ys = ys@;
        ys.push(y);
        proof {
            assert forall|j: int| 0 <= j < ys@.len() implies rebased_expr(#[trigger] orig[j], ys@[j], o.entries@, o.eof_span) by {
                if j < old_ys.len() {
                    assert(ys@[j] == old_ys[j]);
                }
            }
        }
    }
    ys
}

/// Rebases patterns one for one.
fn rebase_patterns(xs: Vec<Pattern>, o: &TokenOrigins) -> (ys: Vec<Pattern>)
    ensures
        rebased_patterns(xs@, ys@, o.entries@, o.eof_span),
    decreases xs@, 1nat,
{
    let ghost orig = xs@;
    let mut rest = xs;
    let mut ys: Vec<Pattern> = Vec::new();
    proof {
        assert(rest@ =~= orig.skip(0));
    }
    while rest.len() > 0
        invariant
            orig == xs@,
            rest@.len() <= orig.len(),
            rest@ == orig.skip(orig.len() - rest@.len()),
            ys@.len() == orig.len() - rest@.len(),
            forall|j: int| 0 <= j < ys@.len() ==> rebased_pattern(#[trigger] orig[j], ys@[j], o.entries@, o.eof_span),
        decreases rest@.len(),
    {
        let ghost k: int = orig.len() - rest@.len();
        let ghost before = rest@;
        let x = rest.remove(0);
        proof {
            assert(x == before[0]);
            assert(before[0] == orig[k]);
            assert(rest@ =~= orig.skip(k + 1));
            assert(decreases_to!(orig => orig[k]));
        }
        let y = rebase_pattern(x, o);
        let ghost old_ys = ys@;
        ys.push(y);
        proof {
            assert forall|j: int| 0 <= j < ys@.len() implies rebased_pattern(#[trigger] orig[j], ys@[j], o.entries@, o.eof_span) by {
                if j < old_ys.len() {
                    assert(ys@[j] == old_ys[j]);
                }
            }
        }
    }
    ys
}

/// Rebases clauses one for one.
fn rebase_clauses(xs: Vec<PatternClause>, o: &TokenOrigins) -> (ys: Vec<PatternClause>)
    ensures
        rebased_clauses(xs@, ys@, o.entries@, o.eof_span),
    decreases xs@, 1nat,
{
    let ghost orig = xs@;
    let mut rest = xs;
    let mut ys: Vec<PatternClause> = Vec::new();
    proof {
        assert(rest@ =~= orig.skip(0));
    }
    while rest.len() > 0
        invariant
            orig == xs@,
            rest@.len() <= orig.len(),
            rest@ == orig.skip(orig.len() - rest@.len()),
            ys@.len() == orig.len() - rest@.len(),
            forall|j: int| 0 <= j < ys@.len() ==> rebased_clause(#[trigger] orig[j], ys@[j], o.entries@, o.eof_span),
        decreases rest@.len(),
    {
        let ghost k: int = orig.len() - rest@.len();
        let ghost before = rest@;
        let x = rest.remove(0);
        proof {
            assert(x == before[0]);
            assert(before[0] == orig[k]);
            assert(rest@ =~= orig.skip(k + 1));
            assert(decreases_to!(orig => orig[k]));
        }
        let y = rebase_clause(x, o);
        let ghost old_ys = ys@;
        ys.push(y);
        proof {
            assert forall|j: int| 0 <= j < ys@.len() implies rebased_clause(#[trigger] orig[j], ys@[j], o.entries@, o.eof_span) by {
                if j < old_ys.len() {
                    assert(ys@[j] == old_ys[j]);
                }
            }
        }
    }
    ys
}

/// Rebases stmts one for one.
fn rebase_stmts(xs: Vec<Stmt>, o: &TokenOrigins) -> (ys: Vec<Stmt>)
    ensures
        rebased_stmts(xs@, ys@, o.entries@, o.eof_span),
    decreases xs@, 1nat,
{
    let ghost orig = xs@;
    let mut rest = xs;
    let mut ys: Vec<Stmt> = Vec::new();
    proof {
        assert(rest@ =~= orig.skip(0));
    }
    while rest.len() > 0
        invariant
            orig == xs@,
            rest@.len() <= orig.len(),
            rest@ == orig.skip(orig.len() - rest@.len()),
            ys@.len() == orig.len() - rest@.len(),
            forall|j: int| 0 <= j < ys@.len() ==> rebased_stmt(#[trigger] orig[j], ys@[j], o.entries@, o.eof_span),
        decreases rest@.len(),
    {
        let ghost k: int = orig.len() - rest@.len();
        let ghost before = rest@;
        let x = rest.remove(0);
        proof {
            assert(x == before[0]);
            assert(before[0] == orig[k]);
            assert(rest@ =~= orig.skip(k + 1));
            assert(decreases_to!(orig => orig[k]));
        }
        let y = rebase_stmt(x, o);
        let ghost old_ys = ys@;
        ys.push(y);
        proof {
            assert forall|j: int| 0 <= j < ys@.len() implies rebased_stmt(#[trigger] orig[j], ys@[j], o.entries@, o.eof_span) by {
                if j < old_ys.len() {
                    assert(ys@[j] == old_ys[j]);
                }
            }
        }
    }
    ys
}

/// Rebases fields one for one.
fn rebase_fields(xs: Vec<(String, Pattern)>, o: &TokenOrigins) -> (ys: Vec<(String, Pattern)>)
    ensures
        rebased_fields(xs@, ys@, o.entries@, o.eof_span),
    decreases xs@, 1nat,
{
    let ghost orig = xs@;
    let mut rest = xs;
    let mut ys: Vec<(String, Pattern)> = Vec::new();
    proof {
        assert(rest@ =~= orig.skip(0));
    }
    while rest.len() > 0
        invariant
            orig == xs@,
            rest@.len() <= orig.len(),
            rest@ == orig.skip(orig.len() - rest@.len()),
            ys@.len() == orig.len() - rest@.len(),
            forall|j: int| 0 <= j < ys@.len() ==> #[trigger] orig[j].0@ == ys@[j].0@ && rebased_pattern(orig[j].1, ys@[j].1, o.entries@, o.eof_span),
        decreases rest@.len(),
    {
        let ghost k: int = orig.len() - rest@.len();
        let ghost before = rest@;
        let x = rest.remove(0);
        proof {
            assert(x == before[0]);
            assert(before[0] == orig[k]);
            assert(rest@ =~= orig.skip(k + 1));
            assert(decreases_to!(orig => orig[k]));
        }
        proof {
            assert(decreases_to!(x => x.1));
        }
        let y = { let (name, pattern) = x; (name, rebase_pattern(pattern, o)) };
        let ghost old_ys = ys@;
        ys.push(y);
        proof {
            assert forall|j: int| 0 <= j < ys@.len() implies #[trigger] orig[j].0@ == ys@[j].0@ && rebased_pattern(orig[j].1, ys@[j].1, o.entries@, o.eof_span) by {
                if j < old_ys.len() {
                    assert(ys@[j] == old_ys[j]);
                }
            }
        }
    }
    ys
}

/// Rebases entries one for one.
fn rebase_entries(xs: Vec<(Expr, Expr)>, o: &TokenOrigins) -> (ys: Vec<(Expr, Expr)>)
    ensures
        rebased_entries(xs@, ys@, o.entries@, o.eof_span),
    decreases xs@, 1nat,
{
    let ghost orig = xs@;
    let mut rest = xs;
    let mut ys: Vec<(Expr, Expr)> = Vec::new();
    proof {
        assert(rest@ =~= orig.skip(0));
    }
    while rest.len() > 0
        invariant
            orig == xs@,
            rest@.len() <= orig.len(),
            rest@ == orig.skip(orig.len() - rest@.len()),
            ys@.len() == orig.len() - rest@.len(),
            forall|j: int| 0 <= j < ys@.len() ==> rebased_expr(#[trigger] orig[j].0, ys@[j].0, o.entries@, o.eof_span) && rebased_expr(orig[j].1, ys@[j].1, o.entries@, o.eof_span),
        decreases rest@.len(),
    {
        let ghost k: int = orig.len() - rest@.len();
        let ghost before = rest@;
        let x = rest.remove(0);
        proof {
            assert(x == before[0]);
            assert(before[0] == orig[k]);
            assert(rest@ =~= orig.skip(k + 1));
            assert(decreases_to!(orig => orig[k]));
        }
        proof {
            assert(decreases_to!(x => x.0));
            assert(decreases_to!(x => x.1));
        }
        let y = { let (key, value) = x; (rebase_expr(key, o), rebase_expr(value, o)) };
        let ghost old_ys = ys@;
        ys.push(y);
        proof {
            assert forall|j: int| 0 <= j < ys@.len() implies rebased_expr(#[trigger] orig[j].0, ys@[j].0, o.entries@, o.eof_span) && rebased_expr(orig[j].1, ys@[j].1, o.entries@, o.eof_span) by {
                if j < old_ys.len() {
                    assert(ys@[j] == old_ys[j]);
                }
            }
        }
    }
    ys
}

/// Rebases branches one for one.
fn rebase_branches(xs: Vec<(Expr, Block)>, o: &TokenOrigins) -> (ys: Vec<(Expr, Block)>)
    ensures
        rebased_branches(xs@, ys@, o.entries@, o.eof_span),
    decreases xs@, 1nat,
{
    let ghost orig = xs@;
    let mut rest = xs;
    let mut ys: Vec<(Expr, Block)> = Vec::new();
    proof {
        assert(rest@ =~= orig.skip(0));
    }
    while rest.len() > 0
        invariant
            orig == xs@,
            rest@.len() <= orig.len(),
            rest@ == orig.skip(orig.len() - rest@.len()),
            ys@.len() == orig.len() - rest@.len(),
            forall|j: int| 0 <= j < ys@.len() ==> rebased_expr(#[trigger] orig[j].0, ys@[j].0, o.entries@, o.eof_span) && rebased_block(orig[j].1, ys@[j].1, o.entries@, o.eof_span),
        decreases rest@.len(),
    {
        let ghost k: int = orig.len() - rest@.len();
        let ghost before = rest@;
        let x = rest.remove(0);
        proof {
            assert(x == before[0]);
            assert(before[0] == orig[k]);
            assert(rest@ =~= orig.skip(k + 1));
            assert(decreases_to!(orig => orig[k]));
        }
        proof {
            assert(decreases_to!(x => x.0));
            assert(decreases_to!(x => x.1));
        }
        let y = { let (condition, body) = x; (rebase_expr(condition, o), rebase_block(body, o)) };
        let ghost old_ys = ys@;
        ys.push(y);
        proof {
            assert forall|j: int| 0 <= j < ys@.len() implies rebased_expr(#[trigger] orig[j].0, ys@[j].0, o.entries@, o.eof_span) && rebased_block(orig[j].1, ys@[j].1, o.entries@, o.eof_span) by {
                if j < old_ys.len() {
                    assert(ys@[j] == old_ys[j]);
                }
            }
        }
    }
    ys
}

/// Rebases stages one for one.
fn rebase_stages(xs: Vec<PipelineStage>, o: &TokenOrigins) -> (ys: Vec<PipelineStage>)
    ensures
        rebased_stages(xs@, ys@, o.entries@, o.eof_span),
    decreases xs@, 1nat,
{
    let ghost orig = xs@;
    let mut rest = xs;
    let mut ys: Vec<PipelineStage> = Vec::new();
    proof {
        assert(rest@ =~= orig.skip(0));
    }
    while rest.len() > 0
        invariant
            orig == xs@,
            rest@.len() <= orig.len(),
            rest@ == orig.skip(orig.len() - rest@.len()),
            ys@.len() == orig.len() - rest@.len(),
            forall|j: int| 0 <= j < ys@.len() ==> {
                &&& (#[trigger] orig[j]).nil_aware == ys@[j].nil_aware
                &&& orig[j].tap == ys@[j].tap
                &&& rebased_expr(orig[j].callee, ys@[j].callee, o.entries@, o.eof_span)
                &&& rebased_exprs(orig[j].args@, ys@[j].args@, o.entries@, o.eof_span)
                &&& ys@[j].span == rebase_spec(o.entries@, o.eof_span, orig[j].span)
            },
        decreases rest@.len(),
    {
        let ghost k: int = orig.len() - rest@.len();
        let ghost before = rest@;
        let x = rest.remove(0);
        proof {
            assert(x == before[0]);
            assert(before[0] == orig[k]);
            assert(rest@ =~= orig.skip(k + 1));
            assert(decreases_to!(orig => orig[k]));
        }
        let y = rebase_stage(x, o);
        let ghost old_ys = ys@;
        ys.push(y);
        proof {
            assert forall|j: int| 0 <= j < ys@.len() implies {
                &&& (#[trigger] orig[j]).nil_aware == ys@[j].nil_aware
                &&& orig[j].tap == ys@[j].tap
                &&& rebased_expr(orig[j].callee, ys@[j].callee, o.entries@, o.eof_span)
                &&& rebased_exprs(orig[j].args@, ys@[j].args@, o.entries@, o.eof_span)
                &&& ys@[j].span == rebase_spec(o.entries@, o.eof_span, orig[j].span)
            } by {
                if j < old_ys.len() {
                    assert(ys@[j] == old_ys[j]);
                }
            }
        }
    }
    ys
}

/// Rebases a pattern.
fn rebase_pattern(x: Pattern, o: &TokenOrigins) -> (y: Pattern)
    ensures
        rebased_pattern(x, y, o.entries@, o.eof_span),
    decreases x, 0nat,
{
    let Pattern { kind, span } = x;
    let kind = match kind {
        PatternKind::List { elements, rest } => PatternKind::List { elements: rebase_patterns(elements, o), rest },
        PatternKind::Table { fields, rest } => PatternKind::Table { fields: rebase_fields(fields, o), rest },
        other => other,
    };
    Pattern { kind, span: o.rebase(span) }
}

/// Rebases a pipeline stage.
fn rebase_stage(x: PipelineStage, o: &TokenOrigins) -> (y: PipelineStage)
    ensures
        x.nil_aware == y.nil_aware,
        x.tap == y.tap,
        rebased_expr(x.callee, y.callee, o.entries@, o.eof_span),
        rebased_exprs(x.args@, y.args@, o.entries@, o.eof_span),
        y.span == rebase_spec(o.entries@, o.eof_span, x.span),
    decreases x, 0nat,
{
    let PipelineStage { nil_aware, tap, callee, args, span } = x;
    PipelineStage {
        nil_aware,
        tap,
        callee: rebase_expr(callee, o),
        args: rebase_exprs(args, o),
        span: o.rebase(span),
    }
}

/// Rebases an assignment target.
fn rebase_target(x: AssignmentTarget, o: &TokenOrigins) -> (y: AssignmentTarget)
    ensures
        rebased_target(x, y, o.entries@, o.eof_span),
    decreases x, 0nat,
{
    let AssignmentTarget { kind, span } = x;
    let kind = match kind {
        AssignmentTargetKind::Variable(name) => AssignmentTargetKind::Variable(name),
        AssignmentTargetKind::Field { object, name } => AssignmentTargetKind::Field { object: Box::new(rebase_expr(*object, o)), name },
        AssignmentTargetKind::Index { object, key } => AssignmentTargetKind::Index {
            object: Box::new(rebase_expr(*object, o)),
            key: Box::new(rebase_expr(*key, o)),
        },
    };
    AssignmentTarget { kind, span: o.rebase(span) }
}

/// Rebases a clause.
fn rebase_clause(x: PatternClause, o: &TokenOrigins) -> (y: PatternClause)
    ensures
        rebased_clause(x, y, o.entries@, o.eof_span),
    decreases x, 0nat,
{
    let PatternClause { pattern, guard, body } = x;
    let guard = match guard {
        Some(g) => Some(rebase_expr(g, o)),
        None => None,
    };
    PatternClause { pattern: rebase_pattern(pattern, o), guard, body: rebase_block(body, o) }
}

/// Rebases a block and its statements.
pub fn rebase_block(x: Block, o: &TokenOrigins) -> (y: Block)
    ensures
        rebased_block(x, y, o.entries@, o.eof_span),
    decreases x, 0nat,
{
    let Block { items, span } = x;
    Block { items: rebase_stmts(items, o), span: o.rebase(span) }
}

/// Rebases a statement and everything in it.
pub fn rebase_stmt(x: Stmt, o: &TokenOrigins) -> (y: Stmt)
    ensures
        rebased_stmt(x, y, o.entries@, o.eof_span),
    decreases x, 0nat,
{
    let Stmt { kind, span } = x;
    let kind = match kind {
        StmtKind::Function { name, params, body } => StmtKind::Function { name, params, body: rebase_block(body, o) },
        StmtKind::Let { pattern, value } => StmtKind::Let { pattern: rebase_pattern(pattern, o), value: rebase_expr(value, o) },
        StmtKind::Expr(e) => StmtKind::Expr(rebase_expr(e, o)),
    };
    Stmt { kind, span: o.rebase(span) }
}

/// Rebases an expression and everything in it.
pub fn rebase_expr(x: Expr, o: &TokenOrigins) -> (y: Expr)
    ensures
        rebased_expr(x, y, o.entries@, o.eof_span),
    decreases x, 0nat,
{
    let Expr { kind, span } = x;
    let kind = match kind {
        ExprKind::List(items) => ExprKind::List(rebase_exprs(items, o)),
        ExprKind::Table(entries) => ExprKind::Table(rebase_entries(entries, o)),
        ExprKind::Function { params, body } => ExprKind::Function { params, body: rebase_block(body, o) },
        ExprKind::Assign { target, value } => ExprKind::Assign {
            target: rebase_target(target, o),
            value: Box::new(rebase_expr(*value, o)),
        },
        ExprKind::Raise { value } => ExprKind::Raise { value: Box::new(rebase_expr(*value, o)) },
        ExprKind::Block(body) => ExprKind::Block(rebase_block(body, o)),
        ExprKind::NilPropagate { value } => ExprKind::NilPropagate { value: Box::new(rebase_expr(*value, o)) },
        ExprKind::Try { protected, clauses } => ExprKind::Try {
            protected: rebase_block(protected, o),
            clauses: rebase_clauses(clauses, o),
        },
        ExprKind::Case { value, clauses } => ExprKind::Case {
            value: Box::new(rebase_expr(*value, o)),
            clauses: rebase_clauses(clauses, o),
        },
        ExprKind::If { branches, else_branch } => {
            let branches = rebase_branches(branches, o);
            let else_branch = match else_branch {
                Some(body) => Some(rebase_block(body, o)),
                None => None,
            };
            ExprKind::If { branches, else_branch }
        },
        ExprKind::Loop { state, initial, body } => ExprKind::Loop {
            state,
            initial: Box::new(rebase_expr(*initial, o)),
            body: rebase_block(body, o),
        },
        ExprKind::Continue { value } => ExprKind::Continue { value: Box::new(rebase_expr(*value, o)) },
        ExprKind::Break { value } => ExprKind::Break { value: Box::new(rebase_expr(*value, o)) },
        ExprKind::Call { callee, args } => ExprKind::Call {
            callee: Box::new(rebase_expr(*callee, o)),
            args: rebase_exprs(args, o),
        },
        ExprKind::Field { object, name } => ExprKind::Field { object: Box::new(rebase_expr(*object, o)), name },
        ExprKind::Index { object, key } => ExprKind::Index {
            object: Box::new(rebase_expr(*object, o)),
            key: Box::new(rebase_expr(*key, o)),
        },
        ExprKind::Unary { op, value } => ExprKind::Unary { op, value: Box::new(rebase_expr(*value, o)) },
        ExprKind::Binary { left, op, right } => ExprKind::Binary {
            left: Box::new(rebase_expr(*left, o)),
            op,
            right: Box::new(rebase_expr(*right, o)),
        },
        ExprKind::Pipeline { input, stages } => ExprKind::Pipeline {
            input: Box::new(rebase_expr(*input, o)),
            stages: rebase_stages(stages, o),
        },
        other => other,
    };
    Expr { kind, span: o.rebase(span) }
}

/// Rebases every statement of a program.
pub fn rebase_program(x: Program, o: &TokenOrigins) -> (y: Program)
    ensures
        rebased_stmts(x.items@, y.items@, o.entries@, o.eof_span),
{
    Program { items: rebase_stmts(x.items, o) }
}

} // verus!
