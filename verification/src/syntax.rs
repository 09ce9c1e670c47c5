//! The supported-syntax check: malformed declarations, statements and
//! expressions the parser kept as placeholders, and `owned`/`noescape`
//! function types written where they cannot stand.
use vstd::prelude::*;
use crate::aliases::{canonical, canonical_type_ref, AliasTable, AliasView, table_view};
use crate::ast::{
    Block, CallArg, DataEffect, Expr, FieldDecl, Item, MapEntry, MatchArm, ObjectField, Param, SelectArm,
    Span, Stmt, TypeKind, TypeRef,
};
use crate::chars::str_eq;
use crate::diag::{dview, unsupported_syntax_code, DiagView, Diagnostic, Severity, error_with_cause};
use crate::types::{clone_span, lemma_tviews, lemma_tviews_take, tview, tviews, TypeView};

verus! {

/// What is unsupported about a piece of syntax.
#[derive(Clone, Copy, Debug, PartialEq, Eq)]
pub enum SyntaxIssue {
    MalformedGenericParam,
    MalformedParam,
    TakeCallbackNotOwned,
    MalformedField,
    OpaqueTypeFields,
    OpaqueDropBody,
    ManagedDrop,
    ConstNotLiteral,
    NoescapePosition,
    OwnedPosition,
    MalformedTypeArg,
    MalformedLet,
    AsyncLetOutsideTaskGroup,
    MalformedWith,
    MalformedIf,
    MalformedLoop,
    MalformedSelectArm,
    MalformedFor,
    MalformedMatchArm,
    MalformedMatch,
    UnknownStatement,
    MalformedCallArg,
    SpawnExpression,
    UnknownExpression,
}

/// One unsupported piece of syntax and where it is.
#[derive(Clone, Debug, PartialEq, Eq)]
pub struct SyntaxFinding {
    pub issue: SyntaxIssue,
    pub span: Span,
}

impl SyntaxIssue {
    pub open spec fn label_text(self) -> Seq<char> {
        match self {
            SyntaxIssue::MalformedGenericParam => "malformed generic parameter declaration"@,
            SyntaxIssue::MalformedParam => "malformed parameter declaration"@,
            SyntaxIssue::TakeCallbackNotOwned => "unsupported by-value callback parameter"@,
            SyntaxIssue::MalformedField => "malformed field declaration"@,
            SyntaxIssue::OpaqueTypeFields => "unsupported opaque type body"@,
            SyntaxIssue::OpaqueDropBody => "unsupported opaque type body"@,
            SyntaxIssue::ManagedDrop => "unsupported managed drop"@,
            SyntaxIssue::ConstNotLiteral => "unsupported const initializer"@,
            SyntaxIssue::NoescapePosition => "unsupported noescape position"@,
            SyntaxIssue::OwnedPosition => "unsupported owned position"@,
            SyntaxIssue::MalformedTypeArg => "malformed type argument"@,
            SyntaxIssue::MalformedLet => "malformed statement"@,
            SyntaxIssue::AsyncLetOutsideTaskGroup => "`async let` outside task_group"@,
            SyntaxIssue::MalformedWith => "malformed with statement"@,
            SyntaxIssue::MalformedIf => "malformed if statement"@,
            SyntaxIssue::MalformedLoop => "malformed loop statement"@,
            SyntaxIssue::MalformedSelectArm => "malformed select arm"@,
            SyntaxIssue::MalformedFor => "malformed for statement"@,
            SyntaxIssue::MalformedMatchArm => "malformed match arm"@,
            SyntaxIssue::MalformedMatch => "malformed match statement"@,
            SyntaxIssue::UnknownStatement => "unsupported statement"@,
            SyntaxIssue::MalformedCallArg => "malformed call argument"@,
            SyntaxIssue::SpawnExpression => "unsupported spawn expression"@,
            SyntaxIssue::UnknownExpression => "unsupported expression"@,
        }
    }

    /// The label the diagnostic for this issue carries.
    pub fn label(&self) -> (r: &'static str)
        ensures
            r@ == self.label_text(),
    {
        match self {
            SyntaxIssue::MalformedGenericParam => "malformed generic parameter declaration",
            SyntaxIssue::MalformedParam => "malformed parameter declaration",
            SyntaxIssue::TakeCallbackNotOwned => "unsupported by-value callback parameter",
            SyntaxIssue::MalformedField => "malformed field declaration",
            SyntaxIssue::OpaqueTypeFields => "unsupported opaque type body",
            SyntaxIssue::OpaqueDropBody => "unsupported opaque type body",
            SyntaxIssue::ManagedDrop => "unsupported managed drop",
            SyntaxIssue::ConstNotLiteral => "unsupported const initializer",
            SyntaxIssue::NoescapePosition => "unsupported noescape position",
            SyntaxIssue::OwnedPosition => "unsupported owned position",
            SyntaxIssue::MalformedTypeArg => "malformed type argument",
            SyntaxIssue::MalformedLet => "malformed statement",
            SyntaxIssue::AsyncLetOutsideTaskGroup => "`async let` outside task_group",
            SyntaxIssue::MalformedWith => "malformed with statement",
            SyntaxIssue::MalformedIf => "malformed if statement",
            SyntaxIssue::MalformedLoop => "malformed loop statement",
            SyntaxIssue::MalformedSelectArm => "malformed select arm",
            SyntaxIssue::MalformedFor => "malformed for statement",
            SyntaxIssue::MalformedMatchArm => "malformed match arm",
            SyntaxIssue::MalformedMatch => "malformed match statement",
            SyntaxIssue::UnknownStatement => "unsupported statement",
            SyntaxIssue::MalformedCallArg => "malformed call argument",
            SyntaxIssue::SpawnExpression => "unsupported spawn expression",
            SyntaxIssue::UnknownExpression => "unsupported expression",
        }
    }

    pub open spec fn cause_text(self) -> Seq<char> {
        match self {
            SyntaxIssue::MalformedGenericParam => "Generic parameters must use `T`, `T: Managed`, `T: Struct`, `T: Resource`, or a single protocol bound such as `T: Writer`."@,
            SyntaxIssue::MalformedParam => "Function parameters must use `name: Type`, `name: read Type`, `name: mut Type`, or `name: take Type`."@,
            SyntaxIssue::TakeCallbackNotOwned => "A callback passed with `take` must use `owned Fn(...)` so the Rust representation is sized. Use `read Fn(...)`, `mut Fn(...)`, or `take owned Fn(...)`."@,
            SyntaxIssue::MalformedField => "Type fields must use `name: Type`, `name: handle Type`, or `name: weak Type`."@,
            SyntaxIssue::OpaqueTypeFields => "Opaque interface types hide their representation. Declare `opaque struct Name`, `opaque class Name`, or `opaque resource Name` without fields."@,
            SyntaxIssue::OpaqueDropBody => "Opaque resource contracts hide their implementation details, including drop bodies. Resource cleanup belongs to the implementation, not the `.rssi` contract."@,
            SyntaxIssue::ManagedDrop => "Managed class and struct values do not have user-observable destructors in v0.7. Use `resource` with `with` for deterministic cleanup."@,
            SyntaxIssue::ConstNotLiteral => "A v0.7 `const` initializer must be a literal (number, string, or `true`/`false`). Compute the value and write it as a literal; expressions and calls in `const` position are not supported yet."@,
            SyntaxIssue::NoescapePosition => "`noescape Fn(...)` is only supported as a direct function parameter type."@,
            SyntaxIssue::OwnedPosition => "`owned Fn(...)` is supported as a function parameter and in storable positions (generic argument, struct field, binding, or return type)."@,
            SyntaxIssue::MalformedTypeArg => "Type arguments must be valid type references; empty or unsupported type argument slots are not allowed."@,
            SyntaxIssue::MalformedLet => "`let` and `local` bindings need a binding name, and an `=` must be followed by an expression."@,
            SyntaxIssue::AsyncLetOutsideTaskGroup => "`async let` can only be used inside a `task_group { ... }` block."@,
            SyntaxIssue::MalformedWith => "`with` statements must use `with resource as name { ... }`."@,
            SyntaxIssue::MalformedIf => "`if` statements must use `if condition { ... }` with optional `else { ... }` or `else if ...`."@,
            SyntaxIssue::MalformedLoop => "`loop` statements must use `loop { ... }`; `while` statements must use `while condition { ... }`."@,
            SyntaxIssue::MalformedSelectArm => "Select arms must use `name = await operation => { ... }`."@,
            SyntaxIssue::MalformedFor => "`for` statements must use `for name in iterable { ... }`."@,
            SyntaxIssue::MalformedMatchArm => "Match arms must use `pattern => statement` or `pattern => { ... }`."@,
            SyntaxIssue::MalformedMatch => "`match` statements must use `match value { pattern => ... }`."@,
            SyntaxIssue::UnknownStatement => "This statement is outside the current RSScript parser surface."@,
            SyntaxIssue::MalformedCallArg => "Call arguments cannot contain empty argument slots."@,
            SyntaxIssue::SpawnExpression => "`spawn` is not a v0.7 source-level task feature. Use `task_group { async let ... }` for structured isolate-local async work."@,
            SyntaxIssue::UnknownExpression => "This expression is outside the current RSScript parser surface."@,
        }
    }

    /// Why the construct is rejected, and what to write instead.
    pub fn cause(&self) -> (r: &'static str)
        ensures
            r@ == self.cause_text(),
    {
        match self {
            SyntaxIssue::MalformedGenericParam => "Generic parameters must use `T`, `T: Managed`, `T: Struct`, `T: Resource`, or a single protocol bound such as `T: Writer`.",
            SyntaxIssue::MalformedParam => "Function parameters must use `name: Type`, `name: read Type`, `name: mut Type`, or `name: take Type`.",
            SyntaxIssue::TakeCallbackNotOwned => "A callback passed with `take` must use `owned Fn(...)` so the Rust representation is sized. Use `read Fn(...)`, `mut Fn(...)`, or `take owned Fn(...)`.",
            SyntaxIssue::MalformedField => "Type fields must use `name: Type`, `name: handle Type`, or `name: weak Type`.",
            SyntaxIssue::OpaqueTypeFields => "Opaque interface types hide their representation. Declare `opaque struct Name`, `opaque class Name`, or `opaque resource Name` without fields.",
            SyntaxIssue::OpaqueDropBody => "Opaque resource contracts hide their implementation details, including drop bodies. Resource cleanup belongs to the implementation, not the `.rssi` contract.",
            SyntaxIssue::ManagedDrop => "Managed class and struct values do not have user-observable destructors in v0.7. Use `resource` with `with` for deterministic cleanup.",
            SyntaxIssue::ConstNotLiteral => "A v0.7 `const` initializer must be a literal (number, string, or `true`/`false`). Compute the value and write it as a literal; expressions and calls in `const` position are not supported yet.",
            SyntaxIssue::NoescapePosition => "`noescape Fn(...)` is only supported as a direct function parameter type.",
            SyntaxIssue::OwnedPosition => "`owned Fn(...)` is supported as a function parameter and in storable positions (generic argument, struct field, binding, or return type).",
            SyntaxIssue::MalformedTypeArg => "Type arguments must be valid type references; empty or unsupported type argument slots are not allowed.",
            SyntaxIssue::MalformedLet => "`let` and `local` bindings need a binding name, and an `=` must be followed by an expression.",
            SyntaxIssue::AsyncLetOutsideTaskGroup => "`async let` can only be used inside a `task_group { ... }` block.",
            SyntaxIssue::MalformedWith => "`with` statements must use `with resource as name { ... }`.",
            SyntaxIssue::MalformedIf => "`if` statements must use `if condition { ... }` with optional `else { ... }` or `else if ...`.",
            SyntaxIssue::MalformedLoop => "`loop` statements must use `loop { ... }`; `while` statements must use `while condition { ... }`.",
            SyntaxIssue::MalformedSelectArm => "Select arms must use `name = await operation => { ... }`.",
            SyntaxIssue::MalformedFor => "`for` statements must use `for name in iterable { ... }`.",
            SyntaxIssue::MalformedMatchArm => "Match arms must use `pattern => statement` or `pattern => { ... }`.",
            SyntaxIssue::MalformedMatch => "`match` statements must use `match value { pattern => ... }`.",
            SyntaxIssue::UnknownStatement => "This statement is outside the current RSScript parser surface.",
            SyntaxIssue::MalformedCallArg => "Call arguments cannot contain empty argument slots.",
            SyntaxIssue::SpawnExpression => "`spawn` is not a v0.7 source-level task feature. Use `task_group { async let ... }` for structured isolate-local async work.",
            SyntaxIssue::UnknownExpression => "This expression is outside the current RSScript parser surface.",
        }
    }
}

// ---------------------------------------------------------------------------
// What the check reports
// ---------------------------------------------------------------------------

pub open spec fn one(issue: SyntaxIssue, span: Span) -> Seq<SyntaxFinding> {
    seq![SyntaxFinding { issue, span }]
}

pub open spec fn when(c: bool, s: Seq<SyntaxFinding>) -> Seq<SyntaxFinding> {
    if c {
        s
    } else {
        seq![]
    }
}

/// `issue` at each of `spans`, in order.
pub open spec fn at(issue: SyntaxIssue, spans: Seq<Span>) -> Seq<SyntaxFinding> {
    spans.map_values(|s: Span| SyntaxFinding { issue, span: s })
}

/// The findings for a type written in a position that admits `noescape`
/// only when `allow_noescape` and `owned` only when `allow_owned`. Below the
/// top level `noescape` is never admitted, while `owned` keeps the outer
/// position's verdict.
pub open spec fn type_issues(t: TypeView, allow_noescape: bool, allow_owned: bool) -> Seq<SyntaxFinding>
    decreases t, 0nat,
{
    when(t.is_noescape && (!allow_noescape || t.name != "Fn"@), one(SyntaxIssue::NoescapePosition, t.span))
        + when(t.is_owned && (!allow_owned || t.name != "Fn"@), one(SyntaxIssue::OwnedPosition, t.span))
        + at(SyntaxIssue::MalformedTypeArg, t.malformed_arg_spans) + type_issues_list(t.args, allow_owned)
        + type_issues_list(t.fn_params, allow_owned) + match t.fn_return {
        Some(b) => type_issues(*b, false, allow_owned),
        None => seq![],
    }
}

pub open spec fn type_issues_list(ts: Seq<TypeView>, allow_owned: bool) -> Seq<SyntaxFinding>
    decreases ts, 0nat,
{
    if ts.len() == 0 {
        seq![]
    } else {
        type_issues_list(ts.drop_last(), allow_owned) + type_issues(ts.last(), false, allow_owned)
    }
}

/// The operation of a `select` arm: the operand of `await`, or of `await`
/// under `?`.
pub open spec fn await_operand(e: Expr) -> Option<Expr> {
    match e {
        Expr::Try { value, .. } => match *value {
            Expr::Await { value: inner, .. } => Some(*inner),
            _ => None,
        },
        Expr::Await { value, .. } => Some(*value),
        _ => None,
    }
}

pub open spec fn expr_issues(tab: Seq<AliasView>, e: Expr, tg: bool) -> Seq<SyntaxFinding>
    decreases e, 0nat,
{
    match e {
        Expr::Binary { left, right, .. } => expr_issues(tab, *left, tg) + expr_issues(tab, *right, tg),
        Expr::Field { base, .. } => expr_issues(tab, *base, tg),
        Expr::Index { base, index, .. } => expr_issues(tab, *base, tg) + expr_issues(tab, *index, tg),
        Expr::Call { args, .. } => args_issues(tab, args@, tg),
        Expr::Effect { value, .. } => expr_issues(tab, *value, tg),
        Expr::Manage { value, .. } => expr_issues(tab, *value, tg),
        Expr::Try { value, .. } => expr_issues(tab, *value, tg),
        Expr::Spawn { value, span } => one(SyntaxIssue::SpawnExpression, span) + expr_issues(tab, *value, tg),
        Expr::Await { value, .. } => expr_issues(tab, *value, tg),
        Expr::Closure { body, .. } => block_issues(tab, body, tg),
        Expr::Match { value, arms, malformed_arm_spans, .. } => expr_issues(tab, *value, tg) + at(
            SyntaxIssue::MalformedMatchArm,
            malformed_arm_spans@,
        ) + arms_issues(tab, arms@, tg),
        Expr::ObjectLiteral { fields, .. } => fields_issues(tab, fields@, tg),
        Expr::MapLiteral { entries, .. } => entries_issues(tab, entries@, tg),
        Expr::ArrayLiteral { items, .. } => exprs_issues(tab, items@, tg),
        Expr::Unknown(span) => one(SyntaxIssue::UnknownExpression, span),
        _ => seq![],
    }
}

pub open spec fn args_issues(tab: Seq<AliasView>, s: Seq<CallArg>, tg: bool) -> Seq<SyntaxFinding>
    decreases s, 0nat,
{
    if s.len() == 0 {
        seq![]
    } else {
        args_issues(tab, s.drop_last(), tg) + if s.last().malformed {
            one(SyntaxIssue::MalformedCallArg, s.last().span)
        } else {
            expr_issues(tab, s.last().value, tg)
        }
    }
}

pub open spec fn exprs_issues(tab: Seq<AliasView>, s: Seq<Expr>, tg: bool) -> Seq<SyntaxFinding>
    decreases s, 0nat,
{
    if s.len() == 0 {
        seq![]
    } else {
        exprs_issues(tab, s.drop_last(), tg) + expr_issues(tab, s.last(), tg)
    }
}

pub open spec fn fields_issues(tab: Seq<AliasView>, s: Seq<ObjectField>, tg: bool) -> Seq<SyntaxFinding>
    decreases s, 0nat,
{
    if s.len() == 0 {
        seq![]
    } else {
        fields_issues(tab, s.drop_last(), tg) + expr_issues(tab, s.last().value, tg)
    }
}

pub open spec fn entries_issues(tab: Seq<AliasView>, s: Seq<MapEntry>, tg: bool) -> Seq<SyntaxFinding>
    decreases s, 0nat,
{
    if s.len() == 0 {
        seq![]
    } else {
        entries_issues(tab, s.drop_last(), tg) + expr_issues(tab, s.last().key, tg) + expr_issues(
            tab,
            s.last().value,
            tg,
        )
    }
}

pub open spec fn arms_issues(tab: Seq<AliasView>, s: Seq<MatchArm>, tg: bool) -> Seq<SyntaxFinding>
    decreases s, 0nat,
{
    if s.len() == 0 {
        seq![]
    } else {
        arms_issues(tab, s.drop_last(), tg) + block_issues(tab, s.last().body, tg)
    }
}

pub open spec fn select_issues(tab: Seq<AliasView>, s: Seq<SelectArm>, tg: bool) -> Seq<SyntaxFinding>
    decreases s, 0nat,
{
    if s.len() == 0 {
        seq![]
    } else {
        let arm = s.last();
        select_issues(tab, s.drop_last(), tg) + when(
            await_operand(arm.operation) is None,
            one(SyntaxIssue::MalformedSelectArm, arm.span),
        ) + expr_issues(tab, arm.operation, tg) + block_issues(tab, arm.body, tg)
    }
}

pub open spec fn block_issues(tab: Seq<AliasView>, b: Block, tg: bool) -> Seq<SyntaxFinding>
    decreases b, 0nat,
{
    stmts_issues(tab, b.statements@, tg)
}

pub open spec fn stmts_issues(tab: Seq<AliasView>, s: Seq<Stmt>, tg: bool) -> Seq<SyntaxFinding>
    decreases s, 0nat,
{
    if s.len() == 0 {
        seq![]
    } else {
        stmts_issues(tab, s.drop_last(), tg) + stmt_issues(tab, s.last(), tg)
    }
}

pub open spec fn opt_expr_issues(tab: Seq<AliasView>, e: Option<Expr>, tg: bool) -> Seq<SyntaxFinding>
    decreases e, 0nat,
{
    match e {
        Some(x) => expr_issues(tab, x, tg),
        None => seq![],
    }
}

pub open spec fn stmt_issues(tab: Seq<AliasView>, s: Stmt, tg: bool) -> Seq<SyntaxFinding>
    decreases s, 0nat,
{
    match s {
        Stmt::Let(st) => when(st.malformed, one(SyntaxIssue::MalformedLet, st.span)) + when(
            st.is_async && !tg,
            one(SyntaxIssue::AsyncLetOutsideTaskGroup, st.span),
        ) + match st.type_annotation {
            Some(t) => type_issues(canonical(tab, tview(t)), false, true),
            None => seq![],
        } + opt_expr_issues(tab, st.value, tg),
        Stmt::Return(st) => opt_expr_issues(tab, st.value, tg),
        Stmt::With(st) => expr_issues(tab, st.resource, tg) + block_issues(tab, st.body, tg),
        Stmt::MalformedWith(span) => one(SyntaxIssue::MalformedWith, span),
        Stmt::If(st) => expr_issues(tab, st.condition, tg) + block_issues(tab, st.then_body, tg)
            + match st.else_body {
            Some(b) => block_issues(tab, b, tg),
            None => seq![],
        },
        Stmt::MalformedIf(span) => one(SyntaxIssue::MalformedIf, span),
        Stmt::Loop(st) => opt_expr_issues(tab, st.condition, tg) + block_issues(tab, st.body, tg),
        Stmt::MalformedLoop(span) => one(SyntaxIssue::MalformedLoop, span),
        Stmt::For(st) => expr_issues(tab, st.iterable, tg) + block_issues(tab, st.body, tg),
        Stmt::TaskGroup(st) => block_issues(tab, st.body, true),
        Stmt::Select(st) => select_issues(tab, st.arms@, tg),
        Stmt::MalformedFor(span) => one(SyntaxIssue::MalformedFor, span),
        Stmt::Match(st) => expr_issues(tab, st.value, tg) + at(SyntaxIssue::MalformedMatchArm, st.malformed_arm_spans@)
            + arms_issues(tab, st.arms@, tg),
        Stmt::LetElse(st) => expr_issues(tab, st.value, tg) + block_issues(tab, st.else_body, tg),
        Stmt::MalformedMatch(span) => one(SyntaxIssue::MalformedMatch, span),
        Stmt::Assign(st) => expr_issues(tab, st.target, tg) + expr_issues(tab, st.value, tg),
        Stmt::Expr(e) => expr_issues(tab, e, tg),
        Stmt::Break(_) => seq![],
        Stmt::Continue(_) => seq![],
        Stmt::Unknown(span) => one(SyntaxIssue::UnknownStatement, span),
    }
}

pub open spec fn param_issues(tab: Seq<AliasView>, p: Param) -> Seq<SyntaxFinding> {
    let c = canonical(tab, tview(p.ty));
    when(
        p.effect == Some(DataEffect::Take) && c.name == "Fn"@ && !c.is_owned,
        one(SyntaxIssue::TakeCallbackNotOwned, p.span),
    ) + type_issues(c, true, true)
}

pub open spec fn params_issues(tab: Seq<AliasView>, ps: Seq<Param>) -> Seq<SyntaxFinding>
    decreases ps.len(),
{
    if ps.len() == 0 {
        seq![]
    } else {
        params_issues(tab, ps.drop_last()) + param_issues(tab, ps.last())
    }
}

pub open spec fn field_type_issues(tab: Seq<AliasView>, fs: Seq<FieldDecl>) -> Seq<SyntaxFinding>
    decreases fs.len(),
{
    if fs.len() == 0 {
        seq![]
    } else {
        field_type_issues(tab, fs.drop_last()) + type_issues(canonical(tab, tview(fs.last().ty)), false, true)
    }
}

pub open spec fn variants_issues(tab: Seq<AliasView>, vs: Seq<crate::ast::VariantDecl>) -> Seq<SyntaxFinding>
    decreases vs.len(),
{
    if vs.len() == 0 {
        seq![]
    } else {
        variants_issues(tab, vs.drop_last()) + field_type_issues(tab, vs.last().fields@)
    }
}

/// Whether a `const` initializer is a literal: a number, a string, or
/// `true`/`false`.
pub open spec fn const_is_literal(e: Expr) -> bool {
    match e {
        Expr::Number(_, _) => true,
        Expr::String(_, _) => true,
        Expr::MultilineString(_, _) => true,
        Expr::Ident(name, _) => name@ == "true"@ || name@ == "false"@,
        _ => false,
    }
}

/// The findings for one top-level declaration. Parameter, return, field and
/// binding types are judged in their canonical (alias-expanded) form.
pub open spec fn item_issues(tab: Seq<AliasView>, item: Item) -> Seq<SyntaxFinding> {
    match item {
        Item::Function(f) => at(SyntaxIssue::MalformedGenericParam, f.malformed_generic_param_spans@) + at(
            SyntaxIssue::MalformedParam,
            f.malformed_param_spans@,
        ) + params_issues(tab, f.params@) + match f.return_ty {
            Some(t) => type_issues(canonical(tab, tview(t)), false, true),
            None => seq![],
        } + block_issues(tab, f.body, false),
        Item::Type(d) => at(SyntaxIssue::MalformedGenericParam, d.malformed_generic_param_spans@) + at(
            SyntaxIssue::MalformedField,
            d.malformed_field_spans@,
        ) + when(d.is_opaque && d.fields@.len() > 0, one(SyntaxIssue::OpaqueTypeFields, d.span)) + when(
            d.is_opaque && d.drop_body is Some,
            one(SyntaxIssue::OpaqueDropBody, d.span),
        ) + field_type_issues(tab, d.fields@) + match d.drop_body {
            Some(b) => when(d.kind != TypeKind::Resource, one(SyntaxIssue::ManagedDrop, b.span)),
            None => seq![],
        },
        Item::SumType(d) => variants_issues(tab, d.variants@),
        Item::Const(d) => when(!const_is_literal(d.value), one(SyntaxIssue::ConstNotLiteral, d.span)),
        _ => seq![],
    }
}

pub open spec fn items_issues(tab: Seq<AliasView>, items: Seq<Item>) -> Seq<SyntaxFinding>
    decreases items.len(),
{
    if items.len() == 0 {
        seq![]
    } else {
        items_issues(tab, items.drop_last()) + item_issues(tab, items.last())
    }
}

// ---------------------------------------------------------------------------
// The check
// ---------------------------------------------------------------------------

fn push_finding(out: &mut Vec<SyntaxFinding>, issue: SyntaxIssue, span: &Span)
    ensures
        final(out)@ == old(out)@ + one(issue, *span),
{
    out.push(SyntaxFinding { issue, span: clone_span(span) });
    assert(final(out)@ =~= old(out)@ + one(issue, *span));
}

fn push_spans(out: &mut Vec<SyntaxFinding>, issue: SyntaxIssue, spans: &Vec<Span>)
    ensures
        final(out)@ == old(out)@ + at(issue, spans@),
{
    let ghost o0 = out@;
    let mut i: usize = 0;
    while i < spans.len()
        invariant
            i <= spans@.len(),
            out@ == o0 + at(issue, spans@.take(i as int)),
        decreases spans.len() - i,
    {
        push_finding(out, issue, &spans[i]);
        assert(at(issue, spans@.take(i + 1)) =~= at(issue, spans@.take(i as int)) + one(issue, spans@[i as int]));
        assert(out@ =~= o0 + at(issue, spans@.take(i + 1)));
        i += 1;
    }
    assert(spans@.take(spans@.len() as int) == spans@);
}

/// Checks where `owned` and `noescape` stand in `t`.
pub fn check_unsupported_syntax_type_ref(t: &TypeRef, allow_noescape: bool, allow_owned: bool, out: &mut Vec<SyntaxFinding>)
    ensures
        final(out)@ == old(out)@ + type_issues(tview(*t), allow_noescape, allow_owned),
    decreases t, 0nat,
{
    let ghost o0 = out@;
    let ghost tv = tview(*t);
    let ghost a = when(tv.is_noescape && (!allow_noescape || tv.name != "Fn"@), one(SyntaxIssue::NoescapePosition, tv.span));
    let ghost b = when(tv.is_owned && (!allow_owned || tv.name != "Fn"@), one(SyntaxIssue::OwnedPosition, tv.span));
    let ghost c = at(SyntaxIssue::MalformedTypeArg, tv.malformed_arg_spans);
    let ghost d = type_issues_list(tv.args, allow_owned);
    let ghost e = type_issues_list(tv.fn_params, allow_owned);
    let ghost f = match tv.fn_return {
        Some(r) => type_issues(*r, false, allow_owned),
        None => seq![],
    };
    assert(type_issues(tv, allow_noescape, allow_owned) == a + b + c + d + e + f);
    let is_fn = str_eq(t.name.as_str(), "Fn");
    if t.is_noescape && (!allow_noescape || !is_fn) {
        push_finding(out, SyntaxIssue::NoescapePosition, &t.span);
    }
    assert(out@ =~= o0 + a);
    if t.is_owned && (!allow_owned || !is_fn) {
        push_finding(out, SyntaxIssue::OwnedPosition, &t.span);
    }
    assert(out@ =~= o0 + a + b);
    push_spans(out, SyntaxIssue::MalformedTypeArg, &t.malformed_arg_spans);
    check_type_list(&t.args, allow_owned, out);
    check_type_list(&t.fn_params, allow_owned, out);
    assert(out@ =~= o0 + a + b + c + d + e);
    match &t.fn_return {
        Some(r) => check_unsupported_syntax_type_ref(r, false, allow_owned, out),
        None => {},
    }
    assert(out@ =~= o0 + (a + b + c + d + e + f));
}

fn check_type_list(v: &Vec<TypeRef>, allow_owned: bool, out: &mut Vec<SyntaxFinding>)
    ensures
        final(out)@ == old(out)@ + type_issues_list(tviews(v@), allow_owned),
    decreases v, 1nat,
{
    let ghost o0 = out@;
    let mut i: usize = 0;
    while i < v.len()
        invariant
            i <= v@.len(),
            out@ == o0 + type_issues_list(tviews(v@.take(i as int)), allow_owned),
        decreases v.len() - i,
    {
        proof {
            assert(decreases_to!(*v => v@[i as int]));
        }
        check_unsupported_syntax_type_ref(&v[i], false, allow_owned, out);
        proof {
            lemma_tviews_take(v@, i as int);
            assert(tviews(v@.take(i + 1)).drop_last() == tviews(v@.take(i as int)));
        }
        assert(out@ =~= o0 + type_issues_list(tviews(v@.take(i + 1)), allow_owned));
        i += 1;
    }
    assert(v@.take(v@.len() as int) == v@);
}

/// The operand a `select` arm awaits, if its operation has the required
/// shape.
pub fn async_await_inner_ast(e: &Expr) -> (r: Option<&Expr>)
    ensures
        r is None <==> await_operand(*e) is None,
        r matches Some(x) ==> await_operand(*e) == Some(*x),
{
    match e {
        Expr::Try { value, .. } => match &**value {
            Expr::Await { value: inner, .. } => Some(&**inner),
            _ => None,
        },
        Expr::Await { value, .. } => Some(&**value),
        _ => None,
    }
}

fn check_unsupported_syntax_expr(tab: &AliasTable, e: &Expr, tg: bool, out: &mut Vec<SyntaxFinding>)
    ensures
        final(out)@ == old(out)@ + expr_issues(table_view(*tab), *e, tg),
    decreases e,
{
    let ghost o0 = out@;
    let ghost tb = table_view(*tab);
    match e {
        Expr::Binary { left, right, .. } => {
            check_unsupported_syntax_expr(tab, left, tg, out);
            check_unsupported_syntax_expr(tab, right, tg, out);
        },
        Expr::Field { base, .. } => check_unsupported_syntax_expr(tab, base, tg, out),
        Expr::Index { base, index, .. } => {
            check_unsupported_syntax_expr(tab, base, tg, out);
            check_unsupported_syntax_expr(tab, index, tg, out);
        },
        Expr::Call { args, .. } => check_args(tab, args, tg, out),
        Expr::Effect { value, .. } => check_unsupported_syntax_expr(tab, value, tg, out),
        Expr::Manage { value, .. } => check_unsupported_syntax_expr(tab, value, tg, out),
        Expr::Try { value, .. } => check_unsupported_syntax_expr(tab, value, tg, out),
        Expr::Spawn { value, span } => {
            push_finding(out, SyntaxIssue::SpawnExpression, span);
            check_unsupported_syntax_expr(tab, value, tg, out);
        },
        Expr::Await { value, .. } => check_unsupported_syntax_expr(tab, value, tg, out),
        Expr::Closure { body, .. } => check_unsupported_syntax_block(tab, body, tg, out),
        Expr::Match { value, arms, malformed_arm_spans, .. } => {
            check_unsupported_syntax_expr(tab, value, tg, out);
            push_spans(out, SyntaxIssue::MalformedMatchArm, malformed_arm_spans);
            check_arms(tab, arms, tg, out);
        },
        Expr::ObjectLiteral { fields, .. } => check_fields(tab, fields, tg, out),
        Expr::MapLiteral { entries, .. } => check_entries(tab, entries, tg, out),
        Expr::ArrayLiteral { items, .. } => check_exprs(tab, items, tg, out),
        Expr::Unknown(span) => push_finding(out, SyntaxIssue::UnknownExpression, span),
        _ => {},
    }
    assert(out@ =~= o0 + expr_issues(tb, *e, tg));
}

fn check_args(tab: &AliasTable, v: &Vec<CallArg>, tg: bool, out: &mut Vec<SyntaxFinding>)
    ensures
        final(out)@ == old(out)@ + args_issues(table_view(*tab), v@, tg),
    decreases v,
{
    let ghost o0 = out@;
    let ghost tb = table_view(*tab);
    let mut i: usize = 0;
    while i < v.len()
        invariant
            tb == table_view(*tab),
            i <= v@.len(),
            out@ == o0 + args_issues(tb, v@.take(i as int), tg),
        decreases v.len() - i,
    {
        proof {
            assert(decreases_to!(*v => v@[i as int].value));
        }
        if v[i].malformed {
            push_finding(out, SyntaxIssue::MalformedCallArg, &v[i].span);
        } else {
            check_unsupported_syntax_expr(tab, &v[i].value, tg, out);
        }
        assert(v@.take(i + 1).drop_last() == v@.take(i as int));
        assert(out@ =~= o0 + args_issues(tb, v@.take(i + 1), tg));
        i += 1;
    }
    assert(v@.take(v@.len() as int) == v@);
}

fn check_exprs(tab: &AliasTable, v: &Vec<Expr>, tg: bool, out: &mut Vec<SyntaxFinding>)
    ensures
        final(out)@ == old(out)@ + exprs_issues(table_view(*tab), v@, tg),
    decreases v,
{
    let ghost o0 = out@;
    let ghost tb = table_view(*tab);
    let mut i: usize = 0;
    while i < v.len()
        invariant
            tb == table_view(*tab),
            i <= v@.len(),
            out@ == o0 + exprs_issues(tb, v@.take(i as int), tg),
        decreases v.len() - i,
    {
        proof {
            assert(decreases_to!(*v => v@[i as int]));
        }
        check_unsupported_syntax_expr(tab, &v[i], tg, out);
        assert(v@.take(i + 1).drop_last() == v@.take(i as int));
        assert(out@ =~= o0 + exprs_issues(tb, v@.take(i + 1), tg));
        i += 1;
    }
    assert(v@.take(v@.len() as int) == v@);
}

fn check_fields(tab: &AliasTable, v: &Vec<ObjectField>, tg: bool, out: &mut Vec<SyntaxFinding>)
    ensures
        final(out)@ == old(out)@ + fields_issues(table_view(*tab), v@, tg),
    decreases v,
{
    let ghost o0 = out@;
    let ghost tb = table_view(*tab);
    let mut i: usize = 0;
    while i < v.len()
        invariant
            tb == table_view(*tab),
            i <= v@.len(),
            out@ == o0 + fields_issues(tb, v@.take(i as int), tg),
        decreases v.len() - i,
    {
        proof {
            assert(decreases_to!(*v => v@[i as int].value));
        }
        check_unsupported_syntax_expr(tab, &v[i].value, tg, out);
        assert(v@.take(i + 1).drop_last() == v@.take(i as int));
        assert(out@ =~= o0 + fields_issues(tb, v@.take(i + 1), tg));
        i += 1;
    }
    assert(v@.take(v@.len() as int) == v@);
}

fn check_entries(tab: &AliasTable, v: &Vec<MapEntry>, tg: bool, out: &mut Vec<SyntaxFinding>)
    ensures
        final(out)@ == old(out)@ + entries_issues(table_view(*tab), v@, tg),
    decreases v,
{
    let ghost o0 = out@;
    let ghost tb = table_view(*tab);
    let mut i: usize = 0;
    while i < v.len()
        invariant
            tb == table_view(*tab),
            i <= v@.len(),
            out@ == o0 + entries_issues(tb, v@.take(i as int), tg),
        decreases v.len() - i,
    {
        proof {
            assert(decreases_to!(*v => v@[i as int].key));
            assert(decreases_to!(*v => v@[i as int].value));
        }
        check_unsupported_syntax_expr(tab, &v[i].key, tg, out);
        check_unsupported_syntax_expr(tab, &v[i].value, tg, out);
        assert(v@.take(i + 1).drop_last() == v@.take(i as int));
        assert(out@ =~= o0 + entries_issues(tb, v@.take(i + 1), tg));
        i += 1;
    }
    assert(v@.take(v@.len() as int) == v@);
}

fn check_arms(tab: &AliasTable, v: &Vec<MatchArm>, tg: bool, out: &mut Vec<SyntaxFinding>)
    ensures
        final(out)@ == old(out)@ + arms_issues(table_view(*tab), v@, tg),
    decreases v,
{
    let ghost o0 = out@;
    let ghost tb = table_view(*tab);
    let mut i: usize = 0;
    while i < v.len()
        invariant
            tb == table_view(*tab),
            i <= v@.len(),
            out@ == o0 + arms_issues(tb, v@.take(i as int), tg),
        decreases v.len() - i,
    {
        proof {
            assert(decreases_to!(*v => v@[i as int].body));
        }
        check_unsupported_syntax_block(tab, &v[i].body, tg, out);
        assert(v@.take(i + 1).drop_last() == v@.take(i as int));
        assert(out@ =~= o0 + arms_issues(tb, v@.take(i + 1), tg));
        i += 1;
    }
    assert(v@.take(v@.len() as int) == v@);
}

fn check_select(tab: &AliasTable, v: &Vec<SelectArm>, tg: bool, out: &mut Vec<SyntaxFinding>)
    ensures
        final(out)@ == old(out)@ + select_issues(table_view(*tab), v@, tg),
    decreases v,
{
    let ghost o0 = out@;
    let ghost tb = table_view(*tab);
    let mut i: usize = 0;
    while i < v.len()
        invariant
            tb == table_view(*tab),
            i <= v@.len(),
            out@ == o0 + select_issues(tb, v@.take(i as int), tg),
        decreases v.len() - i,
    {
        proof {
            assert(decreases_to!(*v => v@[i as int].operation));
            assert(decreases_to!(*v => v@[i as int].body));
        }
        if async_await_inner_ast(&v[i].operation).is_none() {
            push_finding(out, SyntaxIssue::MalformedSelectArm, &v[i].span);
        }
        check_unsupported_syntax_expr(tab, &v[i].operation, tg, out);
        check_unsupported_syntax_block(tab, &v[i].body, tg, out);
        assert(v@.take(i + 1).drop_last() == v@.take(i as int));
        assert(out@ =~= o0 + select_issues(tb, v@.take(i + 1), tg));
        i += 1;
    }
    assert(v@.take(v@.len() as int) == v@);
}

fn check_unsupported_syntax_block(tab: &AliasTable, b: &Block, tg: bool, out: &mut Vec<SyntaxFinding>)
    ensures
        final(out)@ == old(out)@ + block_issues(table_view(*tab), *b, tg),
    decreases b,
{
    let ghost o0 = out@;
    let ghost tb = table_view(*tab);
    let mut i: usize = 0;
    while i < b.statements.len()
        invariant
            tb == table_view(*tab),
            i <= b.statements@.len(),
            out@ == o0 + stmts_issues(tb, b.statements@.take(i as int), tg),
        decreases b.statements.len() - i,
    {
        proof {
            assert(decreases_to!(*b => b.statements@[i as int]));
        }
        check_unsupported_syntax_stmt(tab, &b.statements[i], tg, out);
        assert(b.statements@.take(i + 1).drop_last() == b.statements@.take(i as int));
        assert(out@ =~= o0 + stmts_issues(tb, b.statements@.take(i + 1), tg));
        i += 1;
    }
    assert(b.statements@.take(b.statements@.len() as int) == b.statements@);
}

fn check_opt_expr(tab: &AliasTable, e: &Option<Expr>, tg: bool, out: &mut Vec<SyntaxFinding>)
    ensures
        final(out)@ == old(out)@ + opt_expr_issues(table_view(*tab), *e, tg),
    decreases e,
{
    match e {
        Some(x) => check_unsupported_syntax_expr(tab, x, tg, out),
        None => {
            assert(out@ =~= old(out)@ + opt_expr_issues(table_view(*tab), *e, tg));
        },
    }
}

fn check_unsupported_syntax_stmt(tab: &AliasTable, s: &Stmt, tg: bool, out: &mut Vec<SyntaxFinding>)
    ensures
        final(out)@ == old(out)@ + stmt_issues(table_view(*tab), *s, tg),
    decreases s,
{
    let ghost o0 = out@;
    let ghost tb = table_view(*tab);
    match s {
        Stmt::Let(st) => {
            if st.malformed {
                push_finding(out, SyntaxIssue::MalformedLet, &st.span);
            }
            if st.is_async && !tg {
                push_finding(out, SyntaxIssue::AsyncLetOutsideTaskGroup, &st.span);
            }
            match &st.type_annotation {
                Some(t) => {
                    let c = canonical_type_ref(tab, t);
                    check_unsupported_syntax_type_ref(&c, false, true, out);
                },
                None => {},
            }
            check_opt_expr(tab, &st.value, tg, out);
        },
        Stmt::Return(st) => check_opt_expr(tab, &st.value, tg, out),
        Stmt::With(st) => {
            check_unsupported_syntax_expr(tab, &st.resource, tg, out);
            check_unsupported_syntax_block(tab, &st.body, tg, out);
        },
        Stmt::MalformedWith(span) => push_finding(out, SyntaxIssue::MalformedWith, span),
        Stmt::If(st) => {
            check_unsupported_syntax_expr(tab, &st.condition, tg, out);
            check_unsupported_syntax_block(tab, &st.then_body, tg, out);
            match &st.else_body {
                Some(b) => check_unsupported_syntax_block(tab, b, tg, out),
                None => {},
            }
        },
        Stmt::MalformedIf(span) => push_finding(out, SyntaxIssue::MalformedIf, span),
        Stmt::Loop(st) => {
            check_opt_expr(tab, &st.condition, tg, out);
            check_unsupported_syntax_block(tab, &st.body, tg, out);
        },
        Stmt::MalformedLoop(span) => push_finding(out, SyntaxIssue::MalformedLoop, span),
        Stmt::For(st) => {
            check_unsupported_syntax_expr(tab, &st.iterable, tg, out);
            check_unsupported_syntax_block(tab, &st.body, tg, out);
        },
        Stmt::TaskGroup(st) => check_unsupported_syntax_block(tab, &st.body, true, out),
        Stmt::Select(st) => check_select(tab, &st.arms, tg, out),
        Stmt::MalformedFor(span) => push_finding(out, SyntaxIssue::MalformedFor, span),
        Stmt::Match(st) => {
            check_unsupported_syntax_expr(tab, &st.value, tg, out);
            push_spans(out, SyntaxIssue::MalformedMatchArm, &st.malformed_arm_spans);
            check_arms(tab, &st.arms, tg, out);
        },
        Stmt::LetElse(st) => {
            check_unsupported_syntax_expr(tab, &st.value, tg, out);
            check_unsupported_syntax_block(tab, &st.else_body, tg, out);
        },
        Stmt::MalformedMatch(span) => push_finding(out, SyntaxIssue::MalformedMatch, span),
        Stmt::Assign(st) => {
            check_unsupported_syntax_expr(tab, &st.target, tg, out);
            check_unsupported_syntax_expr(tab, &st.value, tg, out);
        },
        Stmt::Expr(e) => check_unsupported_syntax_expr(tab, e, tg, out),
        Stmt::Break(_) => {},
        Stmt::Continue(_) => {},
        Stmt::Unknown(span) => push_finding(out, SyntaxIssue::UnknownStatement, span),
    }
    assert(out@ =~= o0 + stmt_issues(tb, *s, tg));
}

fn check_params(tab: &AliasTable, ps: &Vec<Param>, out: &mut Vec<SyntaxFinding>)
    ensures
        final(out)@ == old(out)@ + params_issues(table_view(*tab), ps@),
{
    let ghost o0 = out@;
    let ghost tb = table_view(*tab);
    let mut i: usize = 0;
    while i < ps.len()
        invariant
            tb == table_view(*tab),
            i <= ps@.len(),
            out@ == o0 + params_issues(tb, ps@.take(i as int)),
        decreases ps.len() - i,
    {
        let p = &ps[i];
        let c = canonical_type_ref(tab, &p.ty);
        let is_take = match p.effect {
            Some(DataEffect::Take) => true,
            _ => false,
        };
        if is_take && str_eq(c.name.as_str(), "Fn") && !c.is_owned {
            push_finding(out, SyntaxIssue::TakeCallbackNotOwned, &p.span);
        }
        check_unsupported_syntax_type_ref(&c, true, true, out);
        assert(ps@.take(i + 1).drop_last() == ps@.take(i as int));
        assert(out@ =~= o0 + params_issues(tb, ps@.take(i + 1)));
        i += 1;
    }
    assert(ps@.take(ps@.len() as int) == ps@);
}

fn check_field_types(tab: &AliasTable, fs: &Vec<FieldDecl>, out: &mut Vec<SyntaxFinding>)
    ensures
        final(out)@ == old(out)@ + field_type_issues(table_view(*tab), fs@),
{
    let ghost o0 = out@;
    let ghost tb = table_view(*tab);
    let mut i: usize = 0;
    while i < fs.len()
        invariant
            tb == table_view(*tab),
            i <= fs@.len(),
            out@ == o0 + field_type_issues(tb, fs@.take(i as int)),
        decreases fs.len() - i,
    {
        let c = canonical_type_ref(tab, &fs[i].ty);
        check_unsupported_syntax_type_ref(&c, false, true, out);
        assert(fs@.take(i + 1).drop_last() == fs@.take(i as int));
        assert(out@ =~= o0 + field_type_issues(tb, fs@.take(i + 1)));
        i += 1;
    }
    assert(fs@.take(fs@.len() as int) == fs@);
}

fn check_variants(tab: &AliasTable, vs: &Vec<crate::ast::VariantDecl>, out: &mut Vec<SyntaxFinding>)
    ensures
        final(out)@ == old(out)@ + variants_issues(table_view(*tab), vs@),
{
    let ghost o0 = out@;
    let ghost tb = table_view(*tab);
    let mut i: usize = 0;
    while i < vs.len()
        invariant
            tb == table_view(*tab),
            i <= vs@.len(),
            out@ == o0 + variants_issues(tb, vs@.take(i as int)),
        decreases vs.len() - i,
    {
        check_field_types(tab, &vs[i].fields, out);
        assert(vs@.take(i + 1).drop_last() == vs@.take(i as int));
        assert(out@ =~= o0 + variants_issues(tb, vs@.take(i + 1)));
        i += 1;
    }
    assert(vs@.take(vs@.len() as int) == vs@);
}

/// Whether a `const` initializer is a literal.
pub fn is_literal_initializer(e: &Expr) -> (r: bool)
    ensures
        r == const_is_literal(*e),
{
    match e {
        Expr::Number(_, _) => true,
        Expr::String(_, _) => true,
        Expr::MultilineString(_, _) => true,
        Expr::Ident(name, _) => str_eq(name.as_str(), "true") || str_eq(name.as_str(), "false"),
        _ => false,
    }
}

fn check_unsupported_syntax_item(tab: &AliasTable, item: &Item, out: &mut Vec<SyntaxFinding>)
    ensures
        final(out)@ == old(out)@ + item_issues(table_view(*tab), *item),
{
    let ghost o0 = out@;
    let ghost tb = table_view(*tab);
    match item {
        Item::Function(f) => {
            push_spans(out, SyntaxIssue::MalformedGenericParam, &f.malformed_generic_param_spans);
            push_spans(out, SyntaxIssue::MalformedParam, &f.malformed_param_spans);
            check_params(tab, &f.params, out);
            match &f.return_ty {
                Some(t) => {
                    let c = canonical_type_ref(tab, t);
                    check_unsupported_syntax_type_ref(&c, false, true, out);
                },
                None => {},
            }
            check_unsupported_syntax_block(tab, &f.body, false, out);
        },
        Item::Type(d) => {
            push_spans(out, SyntaxIssue::MalformedGenericParam, &d.malformed_generic_param_spans);
            push_spans(out, SyntaxIssue::MalformedField, &d.malformed_field_spans);
            if d.is_opaque && d.fields.len() > 0 {
                push_finding(out, SyntaxIssue::OpaqueTypeFields, &d.span);
            }
            if d.is_opaque && d.drop_body.is_some() {
                push_finding(out, SyntaxIssue::OpaqueDropBody, &d.span);
            }
            check_field_types(tab, &d.fields, out);
            match &d.drop_body {
                Some(b) => {
                    let is_resource = match d.kind {
                        TypeKind::Resource => true,
                        _ => false,
                    };
                    if !is_resource {
                        push_finding(out, SyntaxIssue::ManagedDrop, &b.span);
                    }
                },
                None => {},
            }
        },
        Item::SumType(d) => check_variants(tab, &d.variants, out),
        Item::Const(d) => {
            if !is_literal_initializer(&d.value) {
                push_finding(out, SyntaxIssue::ConstNotLiteral, &d.span);
            }
        },
        _ => {},
    }
    assert(out@ =~= o0 + item_issues(tb, *item));
}

/// Every unsupported piece of syntax in `items`, in source order, with
/// types judged after alias expansion under `tab`.
pub fn check_unsupported_syntax(tab: &AliasTable, items: &Vec<Item>) -> (r: Vec<SyntaxFinding>)
    ensures
        r@ == items_issues(table_view(*tab), items@),
{
    let ghost tb = table_view(*tab);
    let mut out: Vec<SyntaxFinding> = Vec::new();
    let mut i: usize = 0;
    while i < items.len()
        invariant
            tb == table_view(*tab),
            i <= items@.len(),
            out@ == items_issues(tb, items@.take(i as int)),
        decreases items.len() - i,
    {
        check_unsupported_syntax_item(tab, &items[i], &mut out);
        assert(items@.take(i + 1).drop_last() == items@.take(i as int));
        i += 1;
    }
    assert(items@.take(items@.len() as int) == items@);
    out
}

/// The diagnostic reported for a finding.
pub open spec fn finding_diag(f: SyntaxFinding) -> DiagView {
    DiagView {
        code: unsupported_syntax_code(),
        severity: Severity::Error,
        message: "unsupported syntax: "@ + f.issue.label_text(),
        span: f.span,
        label: f.issue.label_text(),
        causes: seq![f.issue.cause_text()],
        fixes: seq![],
    }
}

pub open spec fn finding_diags(fs: Seq<SyntaxFinding>) -> Seq<DiagView> {
    fs.map_values(|f: SyntaxFinding| finding_diag(f))
}

/// The diagnostic for one finding.
pub fn syntax_diagnostic(f: &SyntaxFinding) -> (d: Diagnostic)
    ensures
        dview(d) == finding_diag(*f),
{
    let mut message = "unsupported syntax: ".to_owned();
    crate::types::append(&mut message, f.issue.label());
    error_with_cause("UNSUPPORTED_SYNTAX", message, clone_span(&f.span), f.issue.label().to_owned(), f.issue.cause())
}

/// The diagnostics for the findings, in order.
pub fn syntax_diagnostics(fs: &Vec<SyntaxFinding>) -> (r: Vec<Diagnostic>)
    ensures
        crate::diag::dviews(r@) == finding_diags(fs@),
{
    let mut r: Vec<Diagnostic> = Vec::new();
    let mut i: usize = 0;
    while i < fs.len()
        invariant
            i <= fs@.len(),
            crate::diag::dviews(r@) == finding_diags(fs@.take(i as int)),
        decreases fs.len() - i,
    {
        let d = syntax_diagnostic(&fs[i]);
        proof {
            crate::diag::lemma_dviews_push(r@, d);
        }
        r.push(d);
        assert(finding_diags(fs@.take(i + 1)) =~= finding_diags(fs@.take(i as int)).push(finding_diag(fs@[i as int])));
        i += 1;
    }
    assert(fs@.take(fs@.len() as int) == fs@);
    r
}

} // verus!
