//! The package-local imports a program names: every call `require("./...")` with a single string
//! literal argument, found by walking the syntax tree in source order.
use vstd::prelude::*;
use crate::ast::{AssignmentTargetKind, Block, Expr, ExprKind, PatternClause, PipelineStage, Program, Stmt, StmtKind};
use crate::span::Span;
use crate::text::{chars_of, str_equal};

verus! {

/// A literal package-local import: the path text, the span of the argument and the span of the
/// `require` callee.
#[derive(Clone, Debug, PartialEq, Eq)]
pub struct LocalImport {
    pub path: String,
    pub span: Span,
    pub callee_span: Span,
}

/// The model of a local import.
pub open spec fn import_view(i: LocalImport) -> (Seq<char>, Span, Span) {
    (i.path@, i.span, i.callee_span)
}

/// The models of local imports.
pub open spec fn imports_view(s: Seq<LocalImport>) -> Seq<(Seq<char>, Span, Span)> {
    s.map_values(|i: LocalImport| import_view(i))
}

/// Whether a text begins with `./`.
pub open spec fn is_local_path(p: Seq<char>) -> bool {
    p.len() >= 2 && p[0] == '.' && p[1] == '/'
}

/// The import a call itself makes: `require` applied to one string literal beginning with `./`.
pub open spec fn own_import(callee: Expr, args: Seq<Expr>) -> Seq<(Seq<char>, Span, Span)> {
    match callee.kind {
        ExprKind::Variable(n) => if n@ == "require"@ && args.len() == 1 {
            match args[0].kind {
                ExprKind::String(p) => if is_local_path(p@) {
                    seq![(p@, args[0].span, callee.span)]
                } else {
                    Seq::empty()
                },
                _ => Seq::empty(),
            }
        } else {
            Seq::empty()
        },
        _ => Seq::empty(),
    }
}

/// The local imports of an expression, in source order.
pub open spec fn imports_expr(e: Expr) -> Seq<(Seq<char>, Span, Span)>
    decreases e, 0nat,
{
    match e.kind {
        ExprKind::Call { callee, args } => own_import(*callee, args@) + imports_expr(*callee)
            + imports_exprs(args@),
        ExprKind::List(items) => imports_exprs(items@),
        ExprKind::Table(entries) => imports_entries(entries@),
        ExprKind::Function { body, .. } => imports_block(body),
        ExprKind::Block(body) => imports_block(body),
        ExprKind::Assign { target, value } => match target.kind {
            AssignmentTargetKind::Variable(_) => imports_expr(*value),
            AssignmentTargetKind::Field { object, .. } => imports_expr(*object) + imports_expr(*value),
            AssignmentTargetKind::Index { object, key } => imports_expr(*object) + imports_expr(*key)
                + imports_expr(*value),
        },
        ExprKind::Raise { value } => imports_expr(*value),
        ExprKind::NilPropagate { value } => imports_expr(*value),
        ExprKind::Unary { value, .. } => imports_expr(*value),
        ExprKind::Continue { value } => imports_expr(*value),
        ExprKind::Break { value } => imports_expr(*value),
        ExprKind::Try { protected, clauses } => imports_block(protected) + imports_clauses(clauses@),
        ExprKind::Case { value, clauses } => imports_expr(*value) + imports_clauses(clauses@),
        ExprKind::If { branches, else_branch } => imports_branches(branches@) + match else_branch {
            Some(body) => imports_block(body),
            None => Seq::empty(),
        },
        ExprKind::Loop { initial, body, .. } => imports_expr(*initial) + imports_block(body),
        ExprKind::Field { object, .. } => imports_expr(*object),
        ExprKind::Index { object, key } => imports_expr(*object) + imports_expr(*key),
        ExprKind::Binary { left, right, .. } => imports_expr(*left) + imports_expr(*right),
        ExprKind::Pipeline { input, stages } => imports_expr(*input) + imports_stages(stages@),
        _ => Seq::empty(),
    }
}

/// The local imports of expressions, one after another.
pub open spec fn imports_exprs(s: Seq<Expr>) -> Seq<(Seq<char>, Span, Span)>
    decreases s, 1nat,
{
    if s.len() == 0 {
        Seq::empty()
    } else {
        imports_exprs(s.subrange(0, s.len() - 1)) + imports_expr(s[s.len() - 1])
    }
}

/// The local imports of map entries: each key, then its value.
pub open spec fn imports_entries(s: Seq<(Expr, Expr)>) -> Seq<(Seq<char>, Span, Span)>
    decreases s, 1nat,
{
    if s.len() == 0 {
        Seq::empty()
    } else {
        imports_entries(s.subrange(0, s.len() - 1)) + imports_expr(s[s.len() - 1].0)
            + imports_expr(s[s.len() - 1].1)
    }
}

/// The local imports of `if` branches: each condition, then its body.
pub open spec fn imports_branches(s: Seq<(Expr, Block)>) -> Seq<(Seq<char>, Span, Span)>
    decreases s, 1nat,
{
    if s.len() == 0 {
        Seq::empty()
    } else {
        imports_branches(s.subrange(0, s.len() - 1)) + imports_expr(s[s.len() - 1].0)
            + imports_block(s[s.len() - 1].1)
    }
}

/// The local imports of clauses: each guard, then its body.
pub open spec fn imports_clauses(s: Seq<PatternClause>) -> Seq<(Seq<char>, Span, Span)>
    decreases s, 1nat,
{
    if s.len() == 0 {
        Seq::empty()
    } else {
        imports_clauses(s.subrange(0, s.len() - 1)) + match s[s.len() - 1].guard {
            Some(g) => imports_expr(g),
            None => Seq::empty(),
        } + imports_block(s[s.len() - 1].body)
    }
}

/// The local imports of pipeline stages: each callee, then its arguments.
pub open spec fn imports_stages(s: Seq<PipelineStage>) -> Seq<(Seq<char>, Span, Span)>
    decreases s, 1nat,
{
    if s.len() == 0 {
        Seq::empty()
    } else {
        imports_stages(s.subrange(0, s.len() - 1)) + imports_expr(s[s.len() - 1].callee)
            + imports_exprs(s[s.len() - 1].args@)
    }
}

/// The local imports of a block.
pub open spec fn imports_block(b: Block) -> Seq<(Seq<char>, Span, Span)>
    decreases b, 0nat,
{
    imports_stmts(b.items@)
}

/// The local imports of statements, one after another.
pub open spec fn imports_stmts(s: Seq<Stmt>) -> Seq<(Seq<char>, Span, Span)>
    decreases s, 1nat,
{
    if s.len() == 0 {
        Seq::empty()
    } else {
        imports_stmts(s.subrange(0, s.len() - 1)) + imports_stmt(s[s.len() - 1])
    }
}

/// The local imports of a statement.
pub open spec fn imports_stmt(s: Stmt) -> Seq<(Seq<char>, Span, Span)>
    decreases s, 0nat,
{
    match s.kind {
        StmtKind::Function { body, .. } => imports_block(body),
        StmtKind::Let { value, .. } => imports_expr(value),
        StmtKind::Expr(value) => imports_expr(value),
    }
}

/// Whether a string begins with `./`.
fn local_path(p: &str) -> (r: bool)
    ensures
        r == is_local_path(p@),
{
    let cs = chars_of(p);
    cs.len() >= 2 && cs[0] == '.' && cs[1] == '/'
}

/// Appends the local imports of an expression.
pub fn collect_local_imports_expr(e: &Expr, imports: &mut Vec<LocalImport>)
    ensures
        imports_view(final(imports)@) == imports_view(old(imports)@) + imports_expr(*e),
    decreases e, 0nat,
{
    let ghost before = imports_view(imports@);
    match &e.kind {
        ExprKind::Call { callee, args } => {
            let mut own = false;
            if args.len() == 1 {
                if let ExprKind::Variable(name) = &callee.kind {
                    if str_equal(name.as_str(), "require") {
                        if let ExprKind::String(path) = &args[0].kind {
                            if local_path(path.as_str()) {
                                own = true;
                                imports.push(LocalImport {
                                    path: path.clone(),
                                    span: args[0].span,
                                    callee_span: callee.span,
                                });
                            }
                        }
                    }
                }
            }
            proof {
                assert(imports_view(imports@) =~= before + own_import(**callee, args@));
            }
            collect_local_imports_expr(callee, imports);
            collect_local_imports_exprs(args, imports);
            proof {
                assert(imports_view(imports@) =~= before + (own_import(**callee, args@)
                    + imports_expr(**callee) + imports_exprs(args@)));
            }
        },
        ExprKind::List(items) => collect_local_imports_exprs(items, imports),
        ExprKind::Table(entries) => collect_local_imports_entries(entries, imports),
        ExprKind::Function { body, .. } => collect_local_imports_block(body, imports),
        ExprKind::Block(body) => collect_local_imports_block(body, imports),
        ExprKind::Assign { target, value } => {
            match &target.kind {
                AssignmentTargetKind::Variable(_) => {
                    collect_local_imports_expr(value, imports);
                },
                AssignmentTargetKind::Field { object, .. } => {
                    collect_local_imports_expr(object, imports);
                    collect_local_imports_expr(value, imports);
                    proof {
                        assert(imports_view(imports@) =~= before + (imports_expr(**object) + imports_expr(**value)));
                    }
                },
                AssignmentTargetKind::Index { object, key } => {
                    collect_local_imports_expr(object, imports);
                    collect_local_imports_expr(key, imports);
                    collect_local_imports_expr(value, imports);
                    proof {
                        assert(imports_view(imports@) =~= before + (imports_expr(**object) + imports_expr(**key)
                            + imports_expr(**value)));
                    }
                },
            }
        },
        ExprKind::Raise { value } => collect_local_imports_expr(value, imports),
        ExprKind::NilPropagate { value } => collect_local_imports_expr(value, imports),
        ExprKind::Unary { value, .. } => collect_local_imports_expr(value, imports),
        ExprKind::Continue { value } => collect_local_imports_expr(value, imports),
        ExprKind::Break { value } => collect_local_imports_expr(value, imports),
        ExprKind::Try { protected, clauses } => {
            collect_local_imports_block(protected, imports);
            collect_local_imports_clauses(clauses, imports);
            proof {
                assert(imports_view(imports@) =~= before + (imports_block(*protected) + imports_clauses(clauses@)));
            }
        },
        ExprKind::Case { value, clauses } => {
            collect_local_imports_expr(value, imports);
            collect_local_imports_clauses(clauses, imports);
            proof {
                assert(imports_view(imports@) =~= before + (imports_expr(**value) + imports_clauses(clauses@)));
            }
        },
        ExprKind::If { branches, else_branch } => {
            collect_local_imports_branches(branches, imports);
            match else_branch {
                Some(body) => {
                    collect_local_imports_block(body, imports);
                    proof {
                        assert(imports_view(imports@) =~= before + (imports_branches(branches@) + imports_block(*body)));
                    }
                },
                None => {
                    proof {
                        assert(imports_view(imports@) =~= before + (imports_branches(branches@) + Seq::empty()));
                    }
                },
            }
        },
        ExprKind::Loop { initial, body, .. } => {
            collect_local_imports_expr(initial, imports);
            collect_local_imports_block(body, imports);
            proof {
                assert(imports_view(imports@) =~= before + (imports_expr(**initial) + imports_block(*body)));
            }
        },
        ExprKind::Field { object, .. } => collect_local_imports_expr(object, imports),
        ExprKind::Index { object, key } => {
            collect_local_imports_expr(object, imports);
            collect_local_imports_expr(key, imports);
            proof {
                assert(imports_view(imports@) =~= before + (imports_expr(**object) + imports_expr(**key)));
            }
        },
        ExprKind::Binary { left, right, .. } => {
            collect_local_imports_expr(left, imports);
            collect_local_imports_expr(right, imports);
            proof {
                assert(imports_view(imports@) =~= before + (imports_expr(**left) + imports_expr(**right)));
            }
        },
        ExprKind::Pipeline { input, stages } => {
            collect_local_imports_expr(input, imports);
            collect_local_imports_stages(stages, imports);
            proof {
                assert(imports_view(imports@) =~= before + (imports_expr(**input) + imports_stages(stages@)));
            }
        },
        _ => {
            proof {
                assert(imports_view(imports@) =~= before + Seq::<(Seq<char>, Span, Span)>::empty());
            }
        },
    }
}

/// Appends the local imports of expressions.
fn collect_local_imports_exprs(es: &Vec<Expr>, imports: &mut Vec<LocalImport>)
    ensures
        imports_view(final(imports)@) == imports_view(old(imports)@) + imports_exprs(es@),
    decreases es@, 1nat,
{
    let ghost before = imports_view(imports@);
    let mut i: usize = 0;
    proof {
        assert(es@.subrange(0, 0) =~= Seq::<Expr>::empty());
        assert(imports_view(imports@) =~= before + imports_exprs(es@.subrange(0, 0)));
    }
    while i < es.len()
        invariant
            i <= es@.len(),
            imports_view(imports@) == before + imports_exprs(es@.subrange(0, i as int)),
        decreases es@.len() - i,
    {
        proof {
            assert(decreases_to!(es@ => es@[i as int]));
        }
        collect_local_imports_expr(&es[i], imports);
        proof {
            let s = es@.subrange(0, i + 1);
            assert(s.subrange(0, s.len() - 1) =~= es@.subrange(0, i as int));
            assert(s[s.len() - 1] == es@[i as int]);
            assert(imports_view(imports@) =~= before + imports_exprs(s));
        }
        i = i + 1;
    }
    proof {
        assert(es@.subrange(0, es@.len() as int) =~= es@);
    }
}

/// Appends the local imports of map entries.
fn collect_local_imports_entries(es: &Vec<(Expr, Expr)>, imports: &mut Vec<LocalImport>)
    ensures
        imports_view(final(imports)@) == imports_view(old(imports)@) + imports_entries(es@),
    decreases es@, 1nat,
{
    let ghost before = imports_view(imports@);
    let mut i: usize = 0;
    proof {
        assert(es@.subrange(0, 0) =~= Seq::<(Expr, Expr)>::empty());
        assert(imports_view(imports@) =~= before + imports_entries(es@.subrange(0, 0)));
    }
    while i < es.len()
        invariant
            i <= es@.len(),
            imports_view(imports@) == before + imports_entries(es@.subrange(0, i as int)),
        decreases es@.len() - i,
    {
        proof {
            assert(decreases_to!(es@ => es@[i as int]));
            assert(decreases_to!(es@[i as int] => es@[i as int].0));
            assert(decreases_to!(es@[i as int] => es@[i as int].1));
        }
        collect_local_imports_expr(&es[i].0, imports);
        collect_local_imports_expr(&es[i].1, imports);
        proof {
            let s = es@.subrange(0, i + 1);
            assert(s.subrange(0, s.len() - 1) =~= es@.subrange(0, i as int));
            assert(s[s.len() - 1] == es@[i as int]);
            assert(imports_view(imports@) =~= before + imports_entries(s));
        }
        i = i + 1;
    }
    proof {
        assert(es@.subrange(0, es@.len() as int) =~= es@);
    }
}

/// Appends the local imports of `if` branches.
fn collect_local_imports_branches(es: &Vec<(Expr, Block)>, imports: &mut Vec<LocalImport>)
    ensures
        imports_view(final(imports)@) == imports_view(old(imports)@) + imports_branches(es@),
    decreases es@, 1nat,
{
    let ghost before = imports_view(imports@);
    let mut i: usize = 0;
    proof {
        assert(es@.subrange(0, 0) =~= Seq::<(Expr, Block)>::empty());
        assert(imports_view(imports@) =~= before + imports_branches(es@.subrange(0, 0)));
    }
    while i < es.len()
        invariant
            i <= es@.len(),
            imports_view(imports@) == before + imports_branches(es@.subrange(0, i as int)),
        decreases es@.len() - i,
    {
        proof {
            assert(decreases_to!(es@ => es@[i as int]));
            assert(decreases_to!(es@[i as int] => es@[i as int].0));
            assert(decreases_to!(es@[i as int] => es@[i as int].1));
        }
        collect_local_imports_expr(&es[i].0, imports);
        collect_local_imports_block(&es[i].1, imports);
        proof {
            let s = es@.subrange(0, i + 1);
            assert(s.subrange(0, s.len() - 1) =~= es@.subrange(0, i as int));
            assert(s[s.len() - 1] == es@[i as int]);
            assert(imports_view(imports@) =~= before + imports_branches(s));
        }
        i = i + 1;
    }
    proof {
        assert(es@.subrange(0, es@.len() as int) =~= es@);
    }
}

/// Appends the local imports of clauses.
fn collect_local_imports_clauses(es: &Vec<PatternClause>, imports: &mut Vec<LocalImport>)
    ensures
        imports_view(final(imports)@) == imports_view(old(imports)@) + imports_clauses(es@),
    decreases es@, 1nat,
{
    let ghost before = imports_view(imports@);
    let mut i: usize = 0;
    proof {
        assert(es@.subrange(0, 0) =~= Seq::<PatternClause>::empty());
        assert(imports_view(imports@) =~= before + imports_clauses(es@.subrange(0, 0)));
    }
    while i < es.len()
        invariant
            i <= es@.len(),
            imports_view(imports@) == before + imports_clauses(es@.subrange(0, i as int)),
        decreases es@.len() - i,
    {
        proof {
            assert(decreases_to!(es@ => es@[i as int]));
            assert(decreases_to!(es@[i as int] => es@[i as int].body));
        }
        let ghost mid0 = imports_view(imports@);
        let ghost s = es@.subrange(0, i + 1);
        proof {
            assert(s.subrange(0, s.len() - 1) =~= es@.subrange(0, i as int));
            assert(s[s.len() - 1] == es@[i as int]);
        }
        match &es[i].guard {
            Some(g) => {
                proof {
                    assert(decreases_to!(es@[i as int] => es@[i as int].guard));
                    assert(decreases_to!(es@[i as int].guard => es@[i as int].guard->Some_0));
                }
                collect_local_imports_expr(g, imports);
                collect_local_imports_block(&es[i].body, imports);
                proof {
                    assert(imports_view(imports@) =~= mid0 + (imports_expr(*g) + imports_block(es@[i as int].body)));
                    assert(imports_view(imports@) =~= before + imports_clauses(s));
                }
            },
            None => {
                collect_local_imports_block(&es[i].body, imports);
                proof {
                    assert(imports_view(imports@) =~= mid0 + (Seq::empty() + imports_block(es@[i as int].body)));
                    assert(imports_view(imports@) =~= before + imports_clauses(s));
                }
            },
        }
        i = i + 1;
    }
    proof {
        assert(es@.subrange(0, es@.len() as int) =~= es@);
    }
}

/// Appends the local imports of pipeline stages.
fn collect_local_imports_stages(es: &Vec<PipelineStage>, imports: &mut Vec<LocalImport>)
    ensures
        imports_view(final(imports)@) == imports_view(old(imports)@) + imports_stages(es@),
    decreases es@, 1nat,
{
    let ghost before = imports_view(imports@);
    let mut i: usize = 0;
    proof {
        assert(es@.subrange(0, 0) =~= Seq::<PipelineStage>::empty());
        assert(imports_view(imports@) =~= before + imports_stages(es@.subrange(0, 0)));
    }
    while i < es.len()
        invariant
            i <= es@.len(),
            imports_view(imports@) == before + imports_stages(es@.subrange(0, i as int)),
        decreases es@.len() - i,
    {
        proof {
            assert(decreases_to!(es@ => es@[i as int]));
            assert(decreases_to!(es@[i as int] => es@[i as int].callee));
            assert(decreases_to!(es@[i as int] => es@[i as int].args));
        }
        collect_local_imports_expr(&es[i].callee, imports);
        collect_local_imports_exprs(&es[i].args, imports);
        proof {
            let s = es@.subrange(0, i + 1);
            assert(s.subrange(0, s.len() - 1) =~= es@.subrange(0, i as int));
            assert(s[s.len() - 1] == es@[i as int]);
            assert(imports_view(imports@) =~= before + imports_stages(s));
        }
        i = i + 1;
    }
    proof {
        assert(es@.subrange(0, es@.len() as int) =~= es@);
    }
}

/// Appends the local imports of a block.
pub fn collect_local_imports_block(b: &Block, imports: &mut Vec<LocalImport>)
    ensures
        imports_view(final(imports)@) == imports_view(old(imports)@) + imports_block(*b),
    decreases b, 0nat,
{
    collect_local_imports_stmts(&b.items, imports);
}

/// Appends the local imports of statements.
fn collect_local_imports_stmts(es: &Vec<Stmt>, imports: &mut Vec<LocalImport>)
    ensures
        imports_view(final(imports)@) == imports_view(old(imports)@) + imports_stmts(es@),
    decreases es@, 1nat,
{
    let ghost before = imports_view(imports@);
    let mut i: usize = 0;
    proof {
        assert(es@.subrange(0, 0) =~= Seq::<Stmt>::empty());
        assert(imports_view(imports@) =~= before + imports_stmts(es@.subrange(0, 0)));
    }
    while i < es.len()
        invariant
            i <= es@.len(),
            imports_view(imports@) == before + imports_stmts(es@.subrange(0, i as int)),
        decreases es@.len() - i,
    {
        proof {
            assert(decreases_to!(es@ => es@[i as int]));
        }
        collect_local_imports_stmt(&es[i], imports);
        proof {
            let s = es@.subrange(0, i + 1);
            assert(s.subrange(0, s.len() - 1) =~= es@.subrange(0, i as int));
            assert(s[s.len() - 1] == es@[i as int]);
            assert(imports_view(imports@) =~= before + imports_stmts(s));
        }
        i = i + 1;
    }
    proof {
        assert(es@.subrange(0, es@.len() as int) =~= es@);
    }
}

/// Appends the local imports of a statement.
pub fn collect_local_imports_stmt(s: &Stmt, imports: &mut Vec<LocalImport>)
    ensures
        imports_view(final(imports)@) == imports_view(old(imports)@) + imports_stmt(*s),
    decreases s, 0nat,
{
    match &s.kind {
        StmtKind::Function { body, .. } => collect_local_imports_block(body, imports),
        StmtKind::Let { value, .. } => collect_local_imports_expr(value, imports),
        StmtKind::Expr(value) => collect_local_imports_expr(value, imports),
    }
}

/// The local imports of a program, in source order.
pub fn collect_local_imports(program: &Program) -> (imports: Vec<LocalImport>)
    ensures
        imports_view(imports@) == imports_stmts(program.items@),
{
    let mut imports: Vec<LocalImport> = Vec::new();
    proof {
        assert(imports_view(imports@) =~= Seq::<(Seq<char>, Span, Span)>::empty());
    }
    collect_local_imports_stmts(&program.items, &mut imports);
    proof {
        assert(Seq::<(Seq<char>, Span, Span)>::empty() + imports_stmts(program.items@) =~= imports_stmts(program.items@));
    }
    imports
}

} // verus!
