//! The facts the `task_group` rules read from a block: its `async let`
//! bindings, the handles it awaits, and where a handle is awaited.
//!
//! All collectors walk statements and expressions in one canonical order:
//! an expression's operands left to right, closure and match-arm bodies in
//! place, and statements in sequence. They differ in what they record and in
//! which statements they enter.
use vstd::prelude::*;
use crate::ast::{Block, CallArg, Expr, MapEntry, MatchArm, ObjectField, SelectArm, Span, Stmt};
use crate::chars::str_eq;
use crate::types::clone_span;

verus! {

/// What a walk records.
#[derive(Clone, Copy, Debug, PartialEq, Eq, Structural)]
pub enum AsyncWalk {
    /// `async let` bindings, without entering `select` arms.
    TaskGroupLets,
    /// `async let` bindings, entering `select` arms too.
    AllLets,
    /// Awaited handles with the span of their `await`.
    AwaitedHandles,
}

/// The handle an awaited operand names: an identifier, possibly under an
/// effect or `?`.
pub open spec fn handle_name(e: Expr) -> Option<Seq<char>>
    decreases e,
{
    match e {
        Expr::Ident(name, _) => Some(name@),
        Expr::Effect { value, .. } => handle_name(*value),
        Expr::Try { value, .. } => handle_name(*value),
        _ => None,
    }
}

pub open spec fn walk_expr(m: AsyncWalk, e: Expr) -> Seq<(Seq<char>, Span)>
    decreases e, 0nat,
{
    let own = match e {
        Expr::Await { value, span } => if m == AsyncWalk::AwaitedHandles {
            match handle_name(*value) {
                Some(n) => seq![(n, span)],
                None => seq![],
            }
        } else {
            seq![]
        },
        _ => seq![],
    };
    own + match e {
        Expr::Binary { left, right, .. } => walk_expr(m, *left) + walk_expr(m, *right),
        Expr::Field { base, .. } => walk_expr(m, *base),
        Expr::Index { base, index, .. } => walk_expr(m, *base) + walk_expr(m, *index),
        Expr::Call { args, .. } => walk_args(m, args@),
        Expr::Effect { value, .. } => walk_expr(m, *value),
        Expr::Manage { value, .. } => walk_expr(m, *value),
        Expr::Spawn { value, .. } => walk_expr(m, *value),
        Expr::Await { value, .. } => walk_expr(m, *value),
        Expr::Try { value, .. } => walk_expr(m, *value),
        Expr::Closure { body, .. } => walk_block(m, body),
        Expr::Match { value, arms, .. } => walk_expr(m, *value) + walk_arms(m, arms@),
        Expr::ObjectLiteral { fields, .. } => walk_fields(m, fields@),
        Expr::MapLiteral { entries, .. } => walk_entries(m, entries@),
        Expr::ArrayLiteral { items, .. } => walk_exprs(m, items@),
        _ => seq![],
    }
}

pub open spec fn walk_args(m: AsyncWalk, s: Seq<CallArg>) -> Seq<(Seq<char>, Span)>
    decreases s, 0nat,
{
    if s.len() == 0 {
        seq![]
    } else {
        walk_args(m, s.drop_last()) + walk_expr(m, s.last().value)
    }
}

pub open spec fn walk_exprs(m: AsyncWalk, s: Seq<Expr>) -> Seq<(Seq<char>, Span)>
    decreases s, 0nat,
{
    if s.len() == 0 {
        seq![]
    } else {
        walk_exprs(m, s.drop_last()) + walk_expr(m, s.last())
    }
}

pub open spec fn walk_fields(m: AsyncWalk, s: Seq<ObjectField>) -> Seq<(Seq<char>, Span)>
    decreases s, 0nat,
{
    if s.len() == 0 {
        seq![]
    } else {
        walk_fields(m, s.drop_last()) + walk_expr(m, s.last().value)
    }
}

pub open spec fn walk_entries(m: AsyncWalk, s: Seq<MapEntry>) -> Seq<(Seq<char>, Span)>
    decreases s, 0nat,
{
    if s.len() == 0 {
        seq![]
    } else {
        walk_entries(m, s.drop_last()) + walk_expr(m, s.last().key) + walk_expr(m, s.last().value)
    }
}

pub open spec fn walk_arms(m: AsyncWalk, s: Seq<MatchArm>) -> Seq<(Seq<char>, Span)>
    decreases s, 0nat,
{
    if s.len() == 0 {
        seq![]
    } else {
        walk_arms(m, s.drop_last()) + walk_block(m, s.last().body)
    }
}

pub open spec fn walk_select(m: AsyncWalk, s: Seq<SelectArm>) -> Seq<(Seq<char>, Span)>
    decreases s, 0nat,
{
    if s.len() == 0 {
        seq![]
    } else {
        walk_select(m, s.drop_last()) + walk_expr(m, s.last().operation) + walk_block(m, s.last().body)
    }
}

pub open spec fn walk_block(m: AsyncWalk, b: Block) -> Seq<(Seq<char>, Span)>
    decreases b, 0nat,
{
    walk_stmts(m, b.statements@)
}

pub open spec fn walk_stmts(m: AsyncWalk, s: Seq<Stmt>) -> Seq<(Seq<char>, Span)>
    decreases s, 0nat,
{
    if s.len() == 0 {
        seq![]
    } else {
        walk_stmts(m, s.drop_last()) + walk_stmt(m, s.last())
    }
}

pub open spec fn walk_opt(m: AsyncWalk, e: Option<Expr>) -> Seq<(Seq<char>, Span)>
    decreases e, 0nat,
{
    match e {
        Some(x) => walk_expr(m, x),
        None => seq![],
    }
}

/// A statement's records. Nested `task_group` blocks are never entered;
/// `select` arms only by `AllLets`.
pub open spec fn walk_stmt(m: AsyncWalk, s: Stmt) -> Seq<(Seq<char>, Span)>
    decreases s, 0nat,
{
    match s {
        Stmt::Let(st) => (if m != AsyncWalk::AwaitedHandles && st.is_async {
            seq![(st.name@, st.span)]
        } else {
            seq![]
        }) + walk_opt(m, st.value),
        Stmt::Return(st) => walk_opt(m, st.value),
        Stmt::With(st) => walk_expr(m, st.resource) + walk_block(m, st.body),
        Stmt::If(st) => walk_expr(m, st.condition) + walk_block(m, st.then_body) + match st.else_body {
            Some(b) => walk_block(m, b),
            None => seq![],
        },
        Stmt::Loop(st) => walk_opt(m, st.condition) + walk_block(m, st.body),
        Stmt::For(st) => walk_expr(m, st.iterable) + walk_block(m, st.body),
        Stmt::Match(st) => walk_expr(m, st.value) + walk_arms(m, st.arms@),
        Stmt::LetElse(st) => walk_expr(m, st.value) + walk_block(m, st.else_body),
        Stmt::Assign(st) => walk_expr(m, st.target) + walk_expr(m, st.value),
        Stmt::Expr(e) => walk_expr(m, e),
        Stmt::Select(st) => if m == AsyncWalk::AllLets {
            walk_select(m, st.arms@)
        } else {
            seq![]
        },
        _ => seq![],
    }
}

pub open spec fn pair_views(v: Seq<(String, Span)>) -> Seq<(Seq<char>, Span)> {
    v.map_values(|p: (String, Span)| (p.0@, p.1))
}

pub proof fn lemma_pair_views_push(v: Seq<(String, Span)>, p: (String, Span))
    ensures
        pair_views(v.push(p)) == pair_views(v).push((p.0@, p.1)),
{
    assert(pair_views(v.push(p)) =~= pair_views(v).push((p.0@, p.1)));
}

/// The operand's handle name, if it names one.
pub fn await_handle_name(e: &Expr) -> (r: Option<&str>)
    ensures
        r is None <==> handle_name(*e) is None,
        r matches Some(n) ==> handle_name(*e) == Some(n@),
    decreases e,
{
    match e {
        Expr::Ident(name, _) => Some(name.as_str()),
        Expr::Effect { value, .. } => await_handle_name(value),
        Expr::Try { value, .. } => await_handle_name(value),
        _ => None,
    }
}

fn push_pair(out: &mut Vec<(String, Span)>, name: &str, span: &Span)
    ensures
        pair_views(final(out)@) == pair_views(old(out)@).push((name@, *span)),
{
    let p = (name.to_owned(), clone_span(span));
    proof {
        lemma_pair_views_push(out@, p);
    }
    out.push(p);
}

fn walk_expr_into(m: AsyncWalk, e: &Expr, out: &mut Vec<(String, Span)>)
    ensures
        pair_views(final(out)@) == pair_views(old(out)@) + walk_expr(m, *e),
    decreases e,
{
    let ghost o0 = pair_views(out@);
    match e {
        Expr::Await { value, span } => {
            if m == AsyncWalk::AwaitedHandles {
                match await_handle_name(value) {
                    Some(n) => push_pair(out, n, span),
                    None => {},
                }
            }
        },
        _ => {},
    }
    let ghost o1 = pair_views(out@);
    match e {
        Expr::Binary { left, right, .. } => {
            walk_expr_into(m, left, out);
            walk_expr_into(m, right, out);
        },
        Expr::Field { base, .. } => walk_expr_into(m, base, out),
        Expr::Index { base, index, .. } => {
            walk_expr_into(m, base, out);
            walk_expr_into(m, index, out);
        },
        Expr::Call { args, .. } => walk_args_into(m, args, out),
        Expr::Effect { value, .. } => walk_expr_into(m, value, out),
        Expr::Manage { value, .. } => walk_expr_into(m, value, out),
        Expr::Spawn { value, .. } => walk_expr_into(m, value, out),
        Expr::Await { value, .. } => walk_expr_into(m, value, out),
        Expr::Try { value, .. } => walk_expr_into(m, value, out),
        Expr::Closure { body, .. } => walk_block_into(m, body, out),
        Expr::Match { value, arms, .. } => {
            walk_expr_into(m, value, out);
            walk_arms_into(m, arms, out);
        },
        Expr::ObjectLiteral { fields, .. } => walk_fields_into(m, fields, out),
        Expr::MapLiteral { entries, .. } => walk_entries_into(m, entries, out),
        Expr::ArrayLiteral { items, .. } => walk_exprs_into(m, items, out),
        _ => {},
    }
    assert(pair_views(out@) =~= o0 + walk_expr(m, *e));
}

fn walk_args_into(m: AsyncWalk, v: &Vec<CallArg>, out: &mut Vec<(String, Span)>)
    ensures
        pair_views(final(out)@) == pair_views(old(out)@) + walk_args(m, v@),
    decreases v,
{
    let ghost o0 = pair_views(out@);
    let mut i: usize = 0;
    while i < v.len()
        invariant
            i <= v@.len(),
            pair_views(out@) == o0 + walk_args(m, v@.take(i as int)),
        decreases v.len() - i,
    {
        proof {
            assert(decreases_to!(*v => v@[i as int].value));
        }
        walk_expr_into(m, &v[i].value, out);
        assert(v@.take(i + 1).drop_last() == v@.take(i as int));
        assert(pair_views(out@) =~= o0 + walk_args(m, v@.take(i + 1)));
        i += 1;
    }
    assert(v@.take(v@.len() as int) == v@);
}

fn walk_exprs_into(m: AsyncWalk, v: &Vec<Expr>, out: &mut Vec<(String, Span)>)
    ensures
        pair_views(final(out)@) == pair_views(old(out)@) + walk_exprs(m, v@),
    decreases v,
{
    let ghost o0 = pair_views(out@);
    let mut i: usize = 0;
    while i < v.len()
        invariant
            i <= v@.len(),
            pair_views(out@) == o0 + walk_exprs(m, v@.take(i as int)),
        decreases v.len() - i,
    {
        proof {
            assert(decreases_to!(*v => v@[i as int]));
        }
        walk_expr_into(m, &v[i], out);
        assert(v@.take(i + 1).drop_last() == v@.take(i as int));
        assert(pair_views(out@) =~= o0 + walk_exprs(m, v@.take(i + 1)));
        i += 1;
    }
    assert(v@.take(v@.len() as int) == v@);
}

fn walk_fields_into(m: AsyncWalk, v: &Vec<ObjectField>, out: &mut Vec<(String, Span)>)
    ensures
        pair_views(final(out)@) == pair_views(old(out)@) + walk_fields(m, v@),
    decreases v,
{
    let ghost o0 = pair_views(out@);
    let mut i: usize = 0;
    while i < v.len()
        invariant
            i <= v@.len(),
            pair_views(out@) == o0 + walk_fields(m, v@.take(i as int)),
        decreases v.len() - i,
    {
        proof {
            assert(decreases_to!(*v => v@[i as int].value));
        }
        walk_expr_into(m, &v[i].value, out);
        assert(v@.take(i + 1).drop_last() == v@.take(i as int));
        assert(pair_views(out@) =~= o0 + walk_fields(m, v@.take(i + 1)));
        i += 1;
    }
    assert(v@.take(v@.len() as int) == v@);
}

fn walk_entries_into(m: AsyncWalk, v: &Vec<MapEntry>, out: &mut Vec<(String, Span)>)
    ensures
        pair_views(final(out)@) == pair_views(old(out)@) + walk_entries(m, v@),
    decreases v,
{
    let ghost o0 = pair_views(out@);
    let mut i: usize = 0;
    while i < v.len()
        invariant
            i <= v@.len(),
            pair_views(out@) == o0 + walk_entries(m, v@.take(i as int)),
        decreases v.len() - i,
    {
        proof {
            assert(decreases_to!(*v => v@[i as int].key));
            assert(decreases_to!(*v => v@[i as int].value));
        }
        walk_expr_into(m, &v[i].key, out);
        walk_expr_into(m, &v[i].value, out);
        assert(v@.take(i + 1).drop_last() == v@.take(i as int));
        assert(pair_views(out@) =~= o0 + walk_entries(m, v@.take(i + 1)));
        i += 1;
    }
    assert(v@.take(v@.len() as int) == v@);
}

fn walk_arms_into(m: AsyncWalk, v: &Vec<MatchArm>, out: &mut Vec<(String, Span)>)
    ensures
        pair_views(final(out)@) == pair_views(old(out)@) + walk_arms(m, v@),
    decreases v,
{
    let ghost o0 = pair_views(out@);
    let mut i: usize = 0;
    while i < v.len()
        invariant
            i <= v@.len(),
            pair_views(out@) == o0 + walk_arms(m, v@.take(i as int)),
        decreases v.len() - i,
    {
        proof {
            assert(decreases_to!(*v => v@[i as int].body));
        }
        walk_block_into(m, &v[i].body, out);
        assert(v@.take(i + 1).drop_last() == v@.take(i as int));
        assert(pair_views(out@) =~= o0 + walk_arms(m, v@.take(i + 1)));
        i += 1;
    }
    assert(v@.take(v@.len() as int) == v@);
}

fn walk_select_into(m: AsyncWalk, v: &Vec<SelectArm>, out: &mut Vec<(String, Span)>)
    ensures
        pair_views(final(out)@) == pair_views(old(out)@) + walk_select(m, v@),
    decreases v,
{
    let ghost o0 = pair_views(out@);
    let mut i: usize = 0;
    while i < v.len()
        invariant
            i <= v@.len(),
            pair_views(out@) == o0 + walk_select(m, v@.take(i as int)),
        decreases v.len() - i,
    {
        proof {
            assert(decreases_to!(*v => v@[i as int].operation));
            assert(decreases_to!(*v => v@[i as int].body));
        }
        walk_expr_into(m, &v[i].operation, out);
        walk_block_into(m, &v[i].body, out);
        assert(v@.take(i + 1).drop_last() == v@.take(i as int));
        assert(pair_views(out@) =~= o0 + walk_select(m, v@.take(i + 1)));
        i += 1;
    }
    assert(v@.take(v@.len() as int) == v@);
}

fn walk_block_into(m: AsyncWalk, b: &Block, out: &mut Vec<(String, Span)>)
    ensures
        pair_views(final(out)@) == pair_views(old(out)@) + walk_block(m, *b),
    decreases b,
{
    let ghost o0 = pair_views(out@);
    let mut i: usize = 0;
    while i < b.statements.len()
        invariant
            i <= b.statements@.len(),
            pair_views(out@) == o0 + walk_stmts(m, b.statements@.take(i as int)),
        decreases b.statements.len() - i,
    {
        proof {
            assert(decreases_to!(*b => b.statements@[i as int]));
        }
        walk_stmt_into(m, &b.statements[i], out);
        assert(b.statements@.take(i + 1).drop_last() == b.statements@.take(i as int));
        assert(pair_views(out@) =~= o0 + walk_stmts(m, b.statements@.take(i + 1)));
        i += 1;
    }
    assert(b.statements@.take(b.statements@.len() as int) == b.statements@);
}

fn walk_opt_into(m: AsyncWalk, e: &Option<Expr>, out: &mut Vec<(String, Span)>)
    ensures
        pair_views(final(out)@) == pair_views(old(out)@) + walk_opt(m, *e),
    decreases e,
{
    match e {
        Some(x) => walk_expr_into(m, x, out),
        None => {
            assert(pair_views(out@) =~= pair_views(old(out)@) + walk_opt(m, *e));
        },
    }
}

fn walk_stmt_into(m: AsyncWalk, s: &Stmt, out: &mut Vec<(String, Span)>)
    ensures
        pair_views(final(out)@) == pair_views(old(out)@) + walk_stmt(m, *s),
    decreases s,
{
    let ghost o0 = pair_views(out@);
    match s {
        Stmt::Let(st) => {
            if m != AsyncWalk::AwaitedHandles && st.is_async {
                push_pair(out, st.name.as_str(), &st.span);
            }
            walk_opt_into(m, &st.value, out);
        },
        Stmt::Return(st) => walk_opt_into(m, &st.value, out),
        Stmt::With(st) => {
            walk_expr_into(m, &st.resource, out);
            walk_block_into(m, &st.body, out);
        },
        Stmt::If(st) => {
            walk_expr_into(m, &st.condition, out);
            walk_block_into(m, &st.then_body, out);
            match &st.else_body {
                Some(b) => walk_block_into(m, b, out),
                None => {},
            }
        },
        Stmt::Loop(st) => {
            walk_opt_into(m, &st.condition, out);
            walk_block_into(m, &st.body, out);
        },
        Stmt::For(st) => {
            walk_expr_into(m, &st.iterable, out);
            walk_block_into(m, &st.body, out);
        },
        Stmt::Match(st) => {
            walk_expr_into(m, &st.value, out);
            walk_arms_into(m, &st.arms, out);
        },
        Stmt::LetElse(st) => {
            walk_expr_into(m, &st.value, out);
            walk_block_into(m, &st.else_body, out);
        },
        Stmt::Assign(st) => {
            walk_expr_into(m, &st.target, out);
            walk_expr_into(m, &st.value, out);
        },
        Stmt::Expr(e) => walk_expr_into(m, e, out),
        Stmt::Select(st) => {
            if m == AsyncWalk::AllLets {
                walk_select_into(m, &st.arms, out);
            }
        },
        _ => {},
    }
    assert(pair_views(out@) =~= o0 + walk_stmt(m, *s));
}

// ---------------------------------------------------------------------------
// The collectors
// ---------------------------------------------------------------------------

pub open spec fn spans_of(s: Seq<(Seq<char>, Span)>) -> Seq<Span> {
    s.map_values(|p: (Seq<char>, Span)| p.1)
}

pub open spec fn names_of(s: Seq<(Seq<char>, Span)>) -> Seq<Seq<char>> {
    s.map_values(|p: (Seq<char>, Span)| p.0)
}

pub open spec fn string_views(v: Seq<String>) -> Seq<Seq<char>> {
    v.map_values(|s: String| s@)
}

fn append_spans(out: &mut Vec<Span>, pairs: &Vec<(String, Span)>)
    ensures
        final(out)@ == old(out)@ + spans_of(pair_views(pairs@)),
{
    let ghost o0 = out@;
    let mut i: usize = 0;
    while i < pairs.len()
        invariant
            i <= pairs@.len(),
            out@ == o0 + spans_of(pair_views(pairs@.take(i as int))),
        decreases pairs.len() - i,
    {
        out.push(clone_span(&pairs[i].1));
        assert(out@ =~= o0 + spans_of(pair_views(pairs@.take(i + 1))));
        i += 1;
    }
    assert(pairs@.take(pairs@.len() as int) == pairs@);
}

fn append_names(out: &mut Vec<String>, pairs: &Vec<(String, Span)>)
    ensures
        string_views(final(out)@) == string_views(old(out)@) + names_of(pair_views(pairs@)),
{
    let ghost o0 = string_views(out@);
    let mut i: usize = 0;
    while i < pairs.len()
        invariant
            i <= pairs@.len(),
            string_views(out@) == o0 + names_of(pair_views(pairs@.take(i as int))),
        decreases pairs.len() - i,
    {
        let ghost before = out@;
        let nm = pairs[i].0.clone();
        assert(nm@ == pairs@[i as int].0@);
        out.push(nm);
        assert(string_views(out@) =~= string_views(before).push(nm@));
        assert(names_of(pair_views(pairs@.take(i + 1))) =~= names_of(pair_views(pairs@.take(i as int))).push(
            pairs@[i as int].0@,
        ));
        assert(string_views(out@) =~= o0 + names_of(pair_views(pairs@.take(i + 1))));
        i += 1;
    }
    assert(pairs@.take(pairs@.len() as int) == pairs@);
}

/// The `async let` bindings of a `task_group` body, with their spans, not
/// entering `select` arms or nested task groups.
pub fn collect_task_group_async_lets(block: &Block, async_lets: &mut Vec<(String, Span)>)
    ensures
        pair_views(final(async_lets)@) == pair_views(old(async_lets)@) + walk_block(
            AsyncWalk::TaskGroupLets,
            *block,
        ),
{
    walk_block_into(AsyncWalk::TaskGroupLets, block, async_lets);
}

/// The `async let` bindings inside an expression's closures and match arms.
pub fn collect_task_group_async_lets_expr(expr: &Expr, async_lets: &mut Vec<(String, Span)>)
    ensures
        pair_views(final(async_lets)@) == pair_views(old(async_lets)@) + walk_expr(
            AsyncWalk::TaskGroupLets,
            *expr,
        ),
{
    walk_expr_into(AsyncWalk::TaskGroupLets, expr, async_lets);
}

/// The spans of every `async let` in a block, `select` arms included.
pub fn collect_all_async_let_spans(block: &Block, async_lets: &mut Vec<Span>)
    ensures
        final(async_lets)@ == old(async_lets)@ + spans_of(walk_block(AsyncWalk::AllLets, *block)),
{
    let mut pairs: Vec<(String, Span)> = Vec::new();
    walk_block_into(AsyncWalk::AllLets, block, &mut pairs);
    assert(pair_views(Seq::<(String, Span)>::empty()) =~= Seq::<(Seq<char>, Span)>::empty());
    assert(Seq::<(Seq<char>, Span)>::empty() + walk_block(AsyncWalk::AllLets, *block) =~= walk_block(
        AsyncWalk::AllLets,
        *block,
    ));
    append_spans(async_lets, &pairs);
}

/// The spans of every `async let` inside an expression.
pub fn collect_all_async_let_spans_expr(expr: &Expr, async_lets: &mut Vec<Span>)
    ensures
        final(async_lets)@ == old(async_lets)@ + spans_of(walk_expr(AsyncWalk::AllLets, *expr)),
{
    let mut pairs: Vec<(String, Span)> = Vec::new();
    walk_expr_into(AsyncWalk::AllLets, expr, &mut pairs);
    assert(pair_views(Seq::<(String, Span)>::empty()) =~= Seq::<(Seq<char>, Span)>::empty());
    assert(Seq::<(Seq<char>, Span)>::empty() + walk_expr(AsyncWalk::AllLets, *expr) =~= walk_expr(
        AsyncWalk::AllLets,
        *expr,
    ));
    append_spans(async_lets, &pairs);
}

/// A statement of a `task_group` body as the nesting rule sees it: its own
/// `async let` is not nested, and `select` and nested groups are skipped.
pub open spec fn nested_stmt(s: Stmt) -> Seq<(Seq<char>, Span)> {
    match s {
        Stmt::Let(st) => walk_opt(AsyncWalk::AllLets, st.value),
        Stmt::Select(_) => seq![],
        _ => walk_stmt(AsyncWalk::AllLets, s),
    }
}

pub open spec fn nested_stmts(s: Seq<Stmt>) -> Seq<(Seq<char>, Span)>
    decreases s.len(),
{
    if s.len() == 0 {
        seq![]
    } else {
        nested_stmts(s.drop_last()) + nested_stmt(s.last())
    }
}

/// The spans of `async let` bindings nested below the top level of a
/// `task_group` body.
pub fn collect_nested_task_group_async_lets(block: &Block, async_lets: &mut Vec<Span>)
    ensures
        final(async_lets)@ == old(async_lets)@ + spans_of(nested_stmts(block.statements@)),
{
    let mut pairs: Vec<(String, Span)> = Vec::new();
    let mut i: usize = 0;
    while i < block.statements.len()
        invariant
            i <= block.statements@.len(),
            pair_views(pairs@) == nested_stmts(block.statements@.take(i as int)),
        decreases block.statements.len() - i,
    {
        let ghost p0 = pair_views(pairs@);
        match &block.statements[i] {
            Stmt::Let(st) => walk_opt_into(AsyncWalk::AllLets, &st.value, &mut pairs),
            Stmt::Select(_) => {},
            other => walk_stmt_into(AsyncWalk::AllLets, other, &mut pairs),
        }
        assert(block.statements@.take(i + 1).drop_last() == block.statements@.take(i as int));
        assert(pair_views(pairs@) =~= nested_stmts(block.statements@.take(i + 1)));
        i += 1;
    }
    assert(block.statements@.take(block.statements@.len() as int) == block.statements@);
    append_spans(async_lets, &pairs);
}

/// The handles a block awaits, in order of their `await`s (a handle awaited
/// twice appears twice).
pub fn collect_task_group_awaited_handles(block: &Block, awaited: &mut Vec<String>)
    ensures
        string_views(final(awaited)@) == string_views(old(awaited)@) + names_of(
            walk_block(AsyncWalk::AwaitedHandles, *block),
        ),
{
    let mut pairs: Vec<(String, Span)> = Vec::new();
    walk_block_into(AsyncWalk::AwaitedHandles, block, &mut pairs);
    assert(pair_views(Seq::<(String, Span)>::empty()) =~= Seq::<(Seq<char>, Span)>::empty());
    assert(Seq::<(Seq<char>, Span)>::empty() + walk_block(AsyncWalk::AwaitedHandles, *block) =~= walk_block(
        AsyncWalk::AwaitedHandles,
        *block,
    ));
    append_names(awaited, &pairs);
}

/// The handles an expression awaits.
pub fn collect_task_group_awaited_handles_expr(expr: &Expr, awaited: &mut Vec<String>)
    ensures
        string_views(final(awaited)@) == string_views(old(awaited)@) + names_of(
            walk_expr(AsyncWalk::AwaitedHandles, *expr),
        ),
{
    let mut pairs: Vec<(String, Span)> = Vec::new();
    walk_expr_into(AsyncWalk::AwaitedHandles, expr, &mut pairs);
    assert(pair_views(Seq::<(String, Span)>::empty()) =~= Seq::<(Seq<char>, Span)>::empty());
    assert(Seq::<(Seq<char>, Span)>::empty() + walk_expr(AsyncWalk::AwaitedHandles, *expr) =~= walk_expr(
        AsyncWalk::AwaitedHandles,
        *expr,
    ));
    append_names(awaited, &pairs);
}

/// The handles a top-level statement of a block awaits: only bindings,
/// assignments and expression statements count.
pub open spec fn direct_awaits_stmt(s: Stmt) -> Seq<(Seq<char>, Span)> {
    match s {
        Stmt::Let(st) => walk_opt(AsyncWalk::AwaitedHandles, st.value),
        Stmt::Assign(st) => walk_expr(AsyncWalk::AwaitedHandles, st.target) + walk_expr(
            AsyncWalk::AwaitedHandles,
            st.value,
        ),
        Stmt::Expr(e) => walk_expr(AsyncWalk::AwaitedHandles, e),
        _ => seq![],
    }
}

pub open spec fn direct_awaits_stmts(s: Seq<Stmt>) -> Seq<(Seq<char>, Span)>
    decreases s.len(),
{
    if s.len() == 0 {
        seq![]
    } else {
        direct_awaits_stmts(s.drop_last()) + direct_awaits_stmt(s.last())
    }
}

/// The handles awaited by the top-level bindings, assignments and
/// expression statements of a block.
pub fn collect_direct_task_group_awaited_handles(block: &Block, awaited: &mut Vec<String>)
    ensures
        string_views(final(awaited)@) == string_views(old(awaited)@) + names_of(
            direct_awaits_stmts(block.statements@),
        ),
{
    let mut pairs: Vec<(String, Span)> = Vec::new();
    let mut i: usize = 0;
    while i < block.statements.len()
        invariant
            i <= block.statements@.len(),
            pair_views(pairs@) == direct_awaits_stmts(block.statements@.take(i as int)),
        decreases block.statements.len() - i,
    {
        let ghost p0 = pair_views(pairs@);
        match &block.statements[i] {
            Stmt::Let(st) => walk_opt_into(AsyncWalk::AwaitedHandles, &st.value, &mut pairs),
            Stmt::Assign(st) => {
                walk_expr_into(AsyncWalk::AwaitedHandles, &st.target, &mut pairs);
                walk_expr_into(AsyncWalk::AwaitedHandles, &st.value, &mut pairs);
            },
            Stmt::Expr(e) => walk_expr_into(AsyncWalk::AwaitedHandles, e, &mut pairs),
            _ => {},
        }
        assert(block.statements@.take(i + 1).drop_last() == block.statements@.take(i as int));
        assert(pair_views(pairs@) =~= direct_awaits_stmts(block.statements@.take(i + 1)));
        i += 1;
    }
    assert(block.statements@.take(block.statements@.len() as int) == block.statements@);
    append_names(awaited, &pairs);
}

/// The handle a statement awaits directly: an `await` of a handle as the
/// whole value, possibly under `?`.
pub open spec fn direct_await(e: Expr) -> Seq<(Seq<char>, Span)>
    decreases e,
{
    match e {
        Expr::Await { value, span } => match handle_name(*value) {
            Some(n) => seq![(n, span)],
            None => seq![],
        },
        Expr::Try { value, .. } => direct_await(*value),
        _ => seq![],
    }
}

/// Records the handle `expr` awaits directly.
pub fn direct_task_group_awaited_handles_in_expr(expr: &Expr, awaited: &mut Vec<(String, Span)>)
    ensures
        pair_views(final(awaited)@) == pair_views(old(awaited)@) + direct_await(*expr),
    decreases expr,
{
    match expr {
        Expr::Await { value, span } => {
            match await_handle_name(value) {
                Some(n) => push_pair(awaited, n, span),
                None => {},
            }
        },
        Expr::Try { value, .. } => direct_task_group_awaited_handles_in_expr(value, awaited),
        _ => {},
    }
    assert(pair_views(awaited@) =~= pair_views(old(awaited)@) + direct_await(*expr));
}

pub open spec fn direct_await_stmt(s: Stmt) -> Seq<(Seq<char>, Span)> {
    match s {
        Stmt::Let(st) => match st.value {
            Some(v) => direct_await(v),
            None => seq![],
        },
        Stmt::Assign(st) => direct_await(st.target) + direct_await(st.value),
        Stmt::Expr(e) => direct_await(e),
        _ => seq![],
    }
}

/// The handles a statement awaits directly, with their `await` spans.
pub fn direct_task_group_awaited_handles_in_stmt(statement: &Stmt) -> (r: Vec<(String, Span)>)
    ensures
        pair_views(r@) == direct_await_stmt(*statement),
{
    let mut awaited: Vec<(String, Span)> = Vec::new();
    assert(pair_views(awaited@) =~= Seq::<(Seq<char>, Span)>::empty());
    match statement {
        Stmt::Let(st) => match &st.value {
            Some(v) => direct_task_group_awaited_handles_in_expr(v, &mut awaited),
            None => {},
        },
        Stmt::Assign(st) => {
            direct_task_group_awaited_handles_in_expr(&st.target, &mut awaited);
            direct_task_group_awaited_handles_in_expr(&st.value, &mut awaited);
        },
        Stmt::Expr(e) => direct_task_group_awaited_handles_in_expr(e, &mut awaited),
        _ => {},
    }
    assert(pair_views(awaited@) =~= direct_await_stmt(*statement));
    awaited
}

/// The span of the first record named `name`.
pub open spec fn first_span(s: Seq<(Seq<char>, Span)>, name: Seq<char>) -> Option<Span>
    decreases s.len(),
{
    if s.len() == 0 {
        None
    } else if s[0].0 == name {
        Some(s[0].1)
    } else {
        first_span(s.drop_first(), name)
    }
}

fn first_span_of(pairs: &Vec<(String, Span)>, name: &str) -> (r: Option<Span>)
    ensures
        r == first_span(pair_views(pairs@), name@),
{
    let ghost pv = pair_views(pairs@);
    assert(pv.skip(0) =~= pv);
    let mut i: usize = 0;
    while i < pairs.len()
        invariant
            pv == pair_views(pairs@),
            i <= pairs@.len(),
            first_span(pv, name@) == first_span(pv.skip(i as int), name@),
        decreases pairs.len() - i,
    {
        assert(pv.skip(i as int)[0] == pv[i as int]);
        if str_eq(pairs[i].0.as_str(), name) {
            return Some(clone_span(&pairs[i].1));
        }
        assert(pv.skip(i as int).drop_first() == pv.skip(i + 1));
        i += 1;
    }
    None
}

/// The span of the first `await` of handle `name` in a block, in walk order.
pub fn find_task_group_await_span(block: &Block, name: &str) -> (r: Option<Span>)
    ensures
        r == first_span(walk_block(AsyncWalk::AwaitedHandles, *block), name@),
{
    let mut pairs: Vec<(String, Span)> = Vec::new();
    walk_block_into(AsyncWalk::AwaitedHandles, block, &mut pairs);
    assert(pair_views(Seq::<(String, Span)>::empty()) =~= Seq::<(Seq<char>, Span)>::empty());
    assert(Seq::<(Seq<char>, Span)>::empty() + walk_block(AsyncWalk::AwaitedHandles, *block) =~= walk_block(
        AsyncWalk::AwaitedHandles,
        *block,
    ));
    first_span_of(&pairs, name)
}

/// The span of the first `await` of handle `name` below a block's top level
/// statements, in walk order.
pub fn find_nested_task_group_await_span(block: &Block, name: &str) -> (r: Option<Span>)
    ensures
        r == first_span(walk_block(AsyncWalk::AwaitedHandles, *block), name@),
{
    find_task_group_await_span(block, name)
}

/// The span of the first `await` of handle `name` in an expression.
pub fn find_nested_task_group_await_span_expr(expr: &Expr, name: &str) -> (r: Option<Span>)
    ensures
        r == first_span(walk_expr(AsyncWalk::AwaitedHandles, *expr), name@),
{
    let mut pairs: Vec<(String, Span)> = Vec::new();
    walk_expr_into(AsyncWalk::AwaitedHandles, expr, &mut pairs);
    assert(pair_views(Seq::<(String, Span)>::empty()) =~= Seq::<(Seq<char>, Span)>::empty());
    assert(Seq::<(Seq<char>, Span)>::empty() + walk_expr(AsyncWalk::AwaitedHandles, *expr) =~= walk_expr(
        AsyncWalk::AwaitedHandles,
        *expr,
    ));
    first_span_of(&pairs, name)
}

/// A handle has an `await` span exactly when it is among the awaited
/// handles.
pub proof fn law_found_iff_awaited(s: Seq<(Seq<char>, Span)>, name: Seq<char>)
    ensures
        first_span(s, name) is Some <==> names_of(s).contains(name),
    decreases s.len(),
{
    if s.len() > 0 {
        law_found_iff_awaited(s.drop_first(), name);
        if s[0].0 != name {
            assert(names_of(s).contains(name) ==> names_of(s.drop_first()).contains(name)) by {
                if names_of(s).contains(name) {
                    let i = choose|i: int| 0 <= i < names_of(s).len() && names_of(s)[i] == name;
                    assert(i > 0);
                    assert(names_of(s.drop_first())[i - 1] == name);
                }
            }
            assert(names_of(s.drop_first()).contains(name) ==> names_of(s).contains(name)) by {
                if names_of(s.drop_first()).contains(name) {
                    let i = choose|i: int| 0 <= i < names_of(s.drop_first()).len() && names_of(s.drop_first())[i] == name;
                    assert(names_of(s)[i + 1] == name);
                }
            }
        } else {
            assert(names_of(s)[0] == name);
        }
    }
}

} // verus!
