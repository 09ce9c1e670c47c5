//! Whether the patterns of a `match` fit the type of its scrutinee: variant
//! families, payload arities, struct fields and list elements, checked
//! against the declared types with aliases expanded at every level.
use vstd::prelude::*;
use crate::aliases::{canonical, canonical_type_ref, strs, subst, substitute_alias_type_ref, table_view, AliasTable};
use crate::ast::{FieldPattern, MatchArm, MatchPattern, Span, TypeRef};
use crate::chars::str_eq;
use crate::types::{clone_span, clone_type_ref, lemma_tviews, tview, tviews, TypeView};

verus! {

/// What a declared type is.
#[derive(Clone, Copy, Debug, PartialEq, Eq, Structural)]
pub enum DeclaredKind {
    Struct,
    Class,
    Resource,
    Sum,
}

/// A declared field and its type.
pub struct DeclaredField {
    pub name: String,
    pub ty: TypeRef,
}

/// A declared type: its kind, generic parameters and fields.
pub struct DeclaredType {
    pub name: String,
    pub kind: DeclaredKind,
    pub type_params: Vec<String>,
    pub fields: Vec<DeclaredField>,
}

/// A variant of a declared sum type, with its positional fields.
pub struct DeclaredVariant {
    pub sum: String,
    pub name: String,
    pub fields: Vec<DeclaredField>,
}

/// The declarations a pattern is checked against: the alias table, the
/// declared types, and the variants of the sum types in declaration order.
pub struct PatternTypes {
    pub aliases: AliasTable,
    pub types: Vec<DeclaredType>,
    pub variants: Vec<DeclaredVariant>,
}

/// A finding about one pattern.
#[derive(Debug)]
pub enum PatternIssue {
    /// A literal pattern, with the type it must fit; the literal rules
    /// themselves (which literal fits which type, valid character scalars)
    /// belong to the semantic checker.
    Literal { value: String, against: TypeRef, span: Span },
    /// A variant that is not one of the scrutinee's variants.
    VariantFamily { variant: String, scrutinee: TypeRef, allowed: Vec<String>, span: Span },
    /// A positional payload with the wrong number of sub-patterns.
    Arity { variant: String, expected: usize, found: usize, span: Span },
    /// A pattern that cannot match the scrutinee's type at all.
    PatternType { pattern: String, scrutinee: TypeRef, span: Span },
}

/// The abstract value of a finding.
pub enum IssueView {
    Literal { value: Seq<char>, against: TypeView, span: Span },
    VariantFamily { variant: Seq<char>, scrutinee: TypeView, allowed: Seq<Seq<char>>, span: Span },
    Arity { variant: Seq<char>, expected: nat, found: nat, span: Span },
    PatternType { pattern: Seq<char>, scrutinee: TypeView, span: Span },
}

pub open spec fn issue_view(i: PatternIssue) -> IssueView {
    match i {
        PatternIssue::Literal { value, against, span } => IssueView::Literal {
            value: value@,
            against: tview(against),
            span,
        },
        PatternIssue::VariantFamily { variant, scrutinee, allowed, span } => IssueView::VariantFamily {
            variant: variant@,
            scrutinee: tview(scrutinee),
            allowed: strs(allowed@),
            span,
        },
        PatternIssue::Arity { variant, expected, found, span } => IssueView::Arity {
            variant: variant@,
            expected: expected as nat,
            found: found as nat,
            span,
        },
        PatternIssue::PatternType { pattern, scrutinee, span } => IssueView::PatternType {
            pattern: pattern@,
            scrutinee: tview(scrutinee),
            span,
        },
    }
}

pub open spec fn issue_views(v: Seq<PatternIssue>) -> Seq<IssueView> {
    v.map_values(|i: PatternIssue| issue_view(i))
}

// ---------------------------------------------------------------------------
// Lookups in the declarations
// ---------------------------------------------------------------------------

/// The first declared type named `name` at or after position `i`.
pub open spec fn find_type(ts: Seq<DeclaredType>, name: Seq<char>, i: int) -> Option<int>
    decreases ts.len() - i,
{
    if i < 0 || i >= ts.len() {
        None
    } else if ts[i].name@ == name {
        Some(i)
    } else {
        find_type(ts, name, i + 1)
    }
}

/// The first declared variant named `name` at or after position `i`.
pub open spec fn find_variant(vs: Seq<DeclaredVariant>, name: Seq<char>, i: int) -> Option<int>
    decreases vs.len() - i,
{
    if i < 0 || i >= vs.len() {
        None
    } else if vs[i].name@ == name {
        Some(i)
    } else {
        find_variant(vs, name, i + 1)
    }
}

/// The first declared field named `name` at or after position `i`.
pub open spec fn find_field(fs: Seq<DeclaredField>, name: Seq<char>, i: int) -> Option<int>
    decreases fs.len() - i,
{
    if i < 0 || i >= fs.len() {
        None
    } else if fs[i].name@ == name {
        Some(i)
    } else {
        find_field(fs, name, i + 1)
    }
}

/// The fields of variant `name` when it belongs to the sum type `root`.
pub open spec fn variant_fields(tab: PatternTypes, root: Seq<char>, name: Seq<char>) -> Option<Seq<DeclaredField>> {
    match find_variant(tab.variants@, name, 0) {
        Some(i) => if tab.variants@[i].sum@ == root {
            Some(tab.variants@[i].fields@)
        } else {
            None
        },
        None => None,
    }
}

/// The variants of the sum type `root`, in declaration order.
pub open spec fn sum_variant_names(vs: Seq<DeclaredVariant>, root: Seq<char>) -> Seq<Seq<char>>
    decreases vs.len(),
{
    if vs.len() == 0 {
        seq![]
    } else if vs.last().sum@ == root {
        sum_variant_names(vs.drop_last(), root).push(vs.last().name@)
    } else {
        sum_variant_names(vs.drop_last(), root)
    }
}

/// The fields a struct pattern named `name` is checked against: those of
/// the scrutinee's own struct or class when the pattern names it, else
/// those of the scrutinee's variant `name`.
pub open spec fn struct_pattern_fields(tab: PatternTypes, root: Seq<char>, name: Seq<char>) -> Option<Seq<DeclaredField>> {
    match find_type(tab.types@, root, 0) {
        Some(i) if name == root && (tab.types@[i].kind == DeclaredKind::Struct || tab.types@[i].kind
            == DeclaredKind::Class) => Some(tab.types@[i].fields@),
        _ => variant_fields(tab, root, name),
    }
}

/// The generic parameters declared for `root` (none when it is not declared).
pub open spec fn declared_params(tab: PatternTypes, root: Seq<char>) -> Seq<Seq<char>> {
    match find_type(tab.types@, root, 0) {
        Some(i) => strs(tab.types@[i].type_params@),
        None => seq![],
    }
}

pub open spec fn field_types(fs: Seq<DeclaredField>) -> Seq<TypeView> {
    fs.map_values(|f: DeclaredField| tview(f.ty))
}

// ---------------------------------------------------------------------------
// The findings
// ---------------------------------------------------------------------------

/// The findings for pattern `p` against the type `ty0`, which is first
/// expanded through the alias table.
/// - A binding or wildcard fits anything.
/// - A literal is handed on with the type it must fit.
/// - Against `Option` only `Some` (one payload) and `None` (none) fit, and
///   against `Result` only `Ok` and `Err` (one payload each); a payload
///   pattern is checked against the matching type argument.
/// - Another variant must be a variant of the scrutinee's sum type; a
///   written payload must have one sub-pattern per declared field, each
///   checked against its field's type.
/// - A struct pattern names the scrutinee's struct or class, or one of its
///   variants; each named field with a sub-pattern is checked against the
///   declared field type, with the type's parameters replaced by the
///   scrutinee's arguments.
/// - A list pattern fits only `List`, and each element pattern is checked
///   against the element type.
pub open spec fn pattern_issues(tab: PatternTypes, p: MatchPattern, ty0: TypeView) -> Seq<IssueView>
    decreases p, 1nat,
{
    let ty = canonical(table_view(tab.aliases), ty0);
    match p {
        MatchPattern::Binding { .. } => seq![],
        MatchPattern::Wildcard(_) => seq![],
        MatchPattern::Literal { value, span } => seq![IssueView::Literal { value: value@, against: ty, span }],
        MatchPattern::Variant { name, bindings, span } => {
            let found = bindings@.len();
            if ty.name == "Option"@ {
                if name@ != "Some"@ && name@ != "None"@ {
                    seq![IssueView::VariantFamily { variant: name@, scrutinee: ty, allowed: seq!["Some"@, "None"@], span }]
                } else {
                    let expected: nat = if name@ == "Some"@ { 1 } else { 0 };
                    if found > 0 && found != expected {
                        seq![IssueView::Arity { variant: name@, expected, found, span }]
                    } else if name@ == "Some"@ && found > 0 && ty.args.len() > 0 {
                        pattern_issues(tab, bindings@[0], ty.args[0])
                    } else {
                        seq![]
                    }
                }
            } else if ty.name == "Result"@ {
                if name@ != "Ok"@ && name@ != "Err"@ {
                    seq![IssueView::VariantFamily { variant: name@, scrutinee: ty, allowed: seq!["Ok"@, "Err"@], span }]
                } else if found > 0 && found != 1 {
                    seq![IssueView::Arity { variant: name@, expected: 1, found, span }]
                } else if found > 0 && name@ == "Ok"@ && ty.args.len() > 0 {
                    pattern_issues(tab, bindings@[0], ty.args[0])
                } else if found > 0 && name@ == "Err"@ && ty.args.len() > 1 {
                    pattern_issues(tab, bindings@[0], ty.args[1])
                } else {
                    seq![]
                }
            } else {
                match variant_fields(tab, ty.name, name@) {
                    None => {
                        let allowed = sum_variant_names(tab.variants@, ty.name);
                        if allowed.len() == 0 {
                            seq![IssueView::PatternType { pattern: name@, scrutinee: ty, span }]
                        } else {
                            seq![IssueView::VariantFamily { variant: name@, scrutinee: ty, allowed, span }]
                        }
                    },
                    Some(fields) => if found > 0 && found != fields.len() {
                        seq![IssueView::Arity { variant: name@, expected: fields.len(), found, span }]
                    } else {
                        zip_issues(tab, bindings@, field_types(fields))
                    },
                }
            }
        },
        MatchPattern::Struct { name, fields, span } => {
            match struct_pattern_fields(tab, ty.name, name@) {
                None => seq![IssueView::PatternType { pattern: name@, scrutinee: ty, span }],
                Some(declared) => {
                    let params = declared_params(tab, ty.name);
                    let n = if params.len() <= ty.args.len() { params.len() } else { ty.args.len() };
                    field_pattern_issues(tab, fields@, declared, params.take(n as int), ty.args.take(n as int))
                },
            }
        },
        MatchPattern::List { prefix, suffix, span, .. } => {
            if ty.name != "List"@ {
                seq![IssueView::PatternType { pattern: "[..]"@, scrutinee: ty, span }]
            } else if ty.args.len() > 0 {
                same_type_issues(tab, prefix@, ty.args[0]) + same_type_issues(tab, suffix@, ty.args[0])
            } else {
                seq![]
            }
        },
    }
}

/// The findings for `ps[i]` against `tys[i]`, as far as both go.
pub open spec fn zip_issues(tab: PatternTypes, ps: Seq<MatchPattern>, tys: Seq<TypeView>) -> Seq<IssueView>
    decreases ps, 0nat,
{
    if ps.len() == 0 {
        seq![]
    } else {
        let k = ps.len() - 1;
        zip_issues(tab, ps.drop_last(), tys) + if k < tys.len() {
            pattern_issues(tab, ps.last(), tys[k])
        } else {
            seq![]
        }
    }
}

/// The findings for each of `ps` against the one type `ty`.
pub open spec fn same_type_issues(tab: PatternTypes, ps: Seq<MatchPattern>, ty: TypeView) -> Seq<IssueView>
    decreases ps, 0nat,
{
    if ps.len() == 0 {
        seq![]
    } else {
        same_type_issues(tab, ps.drop_last(), ty) + pattern_issues(tab, ps.last(), ty)
    }
}

/// The findings for the field patterns `fs` against the declared fields,
/// with `params` replaced by `args` in the field types.
pub open spec fn field_pattern_issues(
    tab: PatternTypes,
    fs: Seq<FieldPattern>,
    declared: Seq<DeclaredField>,
    params: Seq<Seq<char>>,
    args: Seq<TypeView>,
) -> Seq<IssueView>
    decreases fs, 0nat,
{
    if fs.len() == 0 {
        seq![]
    } else {
        let f = fs.last();
        field_pattern_issues(tab, fs.drop_last(), declared, params, args) + match f.pattern {
            Some(b) => match find_field(declared, f.name@, 0) {
                Some(j) => pattern_issues(tab, *b, subst(tview(declared[j].ty), params, args)),
                None => seq![],
            },
            None => seq![],
        }
    }
}

/// The findings for the arms of a `match` whose scrutinee has type `ty`.
pub open spec fn arms_issues(tab: PatternTypes, arms: Seq<MatchArm>, ty: TypeView) -> Seq<IssueView>
    decreases arms.len(),
{
    if arms.len() == 0 {
        seq![]
    } else {
        arms_issues(tab, arms.drop_last(), ty) + pattern_issues(tab, arms.last().pattern, ty)
    }
}

// ---------------------------------------------------------------------------
// Executable lookups
// ---------------------------------------------------------------------------

fn find_type_exec(ts: &Vec<DeclaredType>, name: &str) -> (r: Option<usize>)
    ensures
        r matches Some(i) ==> i < ts@.len() && find_type(ts@, name@, 0) == Some(i as int),
        r is None ==> find_type(ts@, name@, 0) is None,
{
    let mut i: usize = 0;
    while i < ts.len()
        invariant
            i <= ts@.len(),
            find_type(ts@, name@, 0) == find_type(ts@, name@, i as int),
        decreases ts.len() - i,
    {
        if str_eq(ts[i].name.as_str(), name) {
            return Some(i);
        }
        i += 1;
    }
    None
}

fn find_variant_exec(vs: &Vec<DeclaredVariant>, name: &str) -> (r: Option<usize>)
    ensures
        r matches Some(i) ==> i < vs@.len() && find_variant(vs@, name@, 0) == Some(i as int),
        r is None ==> find_variant(vs@, name@, 0) is None,
{
    let mut i: usize = 0;
    while i < vs.len()
        invariant
            i <= vs@.len(),
            find_variant(vs@, name@, 0) == find_variant(vs@, name@, i as int),
        decreases vs.len() - i,
    {
        if str_eq(vs[i].name.as_str(), name) {
            return Some(i);
        }
        i += 1;
    }
    None
}

fn find_field_exec(fs: &Vec<DeclaredField>, name: &str) -> (r: Option<usize>)
    ensures
        r matches Some(i) ==> i < fs@.len() && find_field(fs@, name@, 0) == Some(i as int),
        r is None ==> find_field(fs@, name@, 0) is None,
{
    let mut i: usize = 0;
    while i < fs.len()
        invariant
            i <= fs@.len(),
            find_field(fs@, name@, 0) == find_field(fs@, name@, i as int),
        decreases fs.len() - i,
    {
        if str_eq(fs[i].name.as_str(), name) {
            return Some(i);
        }
        i += 1;
    }
    None
}

fn variant_fields_exec<'a>(types: &'a PatternTypes, root: &str, name: &str) -> (r: Option<&'a Vec<DeclaredField>>)
    ensures
        match r {
            Some(f) => variant_fields(*types, root@, name@) == Some(f@),
            None => variant_fields(*types, root@, name@) is None,
        },
{
    match find_variant_exec(&types.variants, name) {
        Some(i) => if str_eq(types.variants[i].sum.as_str(), root) {
            Some(&types.variants[i].fields)
        } else {
            None
        },
        None => None,
    }
}

fn sum_variant_names_exec(vs: &Vec<DeclaredVariant>, root: &str) -> (r: Vec<String>)
    ensures
        strs(r@) == sum_variant_names(vs@, root@),
{
    let mut r: Vec<String> = Vec::new();
    let mut i: usize = 0;
    while i < vs.len()
        invariant
            i <= vs@.len(),
            strs(r@) == sum_variant_names(vs@.take(i as int), root@),
        decreases vs.len() - i,
    {
        assert(vs@.take(i + 1).drop_last() == vs@.take(i as int));
        if str_eq(vs[i].sum.as_str(), root) {
            let ghost before = r@;
            r.push(vs[i].name.clone());
            assert(strs(r@) =~= strs(before).push(vs@[i as int].name@));
        }
        i += 1;
    }
    assert(vs@.take(vs@.len() as int) == vs@);
    r
}

fn text_of(s: &str) -> (r: String)
    ensures
        r@ == s@,
{
    s.to_string()
}

fn clone_strings(v: &Vec<String>, n: usize) -> (r: Vec<String>)
    requires
        n <= v@.len(),
    ensures
        strs(r@) == strs(v@).take(n as int),
{
    let mut r: Vec<String> = Vec::new();
    let mut i: usize = 0;
    while i < n
        invariant
            i <= n <= v@.len(),
            strs(r@) == strs(v@).take(i as int),
        decreases n - i,
    {
        let ghost before = r@;
        let c = v[i].clone();
        assert(c@ == v@[i as int]@);
        r.push(c);
        assert(strs(r@) =~= strs(before).push(c@));
        assert(strs(r@) =~= strs(v@).take(i + 1));
        i += 1;
    }
    r
}

fn clone_types(v: &Vec<TypeRef>, n: usize) -> (r: Vec<TypeRef>)
    requires
        n <= v@.len(),
    ensures
        tviews(r@) == tviews(v@).take(n as int),
{
    proof {
        lemma_tviews(v@);
    }
    let mut r: Vec<TypeRef> = Vec::new();
    let mut i: usize = 0;
    while i < n
        invariant
            i <= n <= v@.len(),
            tviews(v@).len() == v@.len(),
            forall|j: int| 0 <= j < v@.len() ==> #[trigger] tviews(v@)[j] == tview(v@[j]),
            tviews(r@) == tviews(v@).take(i as int),
        decreases n - i,
    {
        let c = clone_type_ref(&v[i]);
        let ghost before = r@;
        r.push(c);
        assert(r@.drop_last() == before);
        assert(tviews(r@) == tviews(before).push(tview(c)));
        assert(tviews(r@) =~= tviews(v@).take(i + 1));
        i += 1;
    }
    r
}

fn push_issue(out: &mut Vec<PatternIssue>, i: PatternIssue)
    ensures
        issue_views(final(out)@) == issue_views(old(out)@).push(issue_view(i)),
{
    let ghost before = out@;
    out.push(i);
    assert(issue_views(out@) =~= issue_views(before).push(issue_view(i)));
}

// ---------------------------------------------------------------------------
// The checks
// ---------------------------------------------------------------------------

/// Checks `pattern` against the type `ty`, appending the findings to `out`.
pub fn check_match_pattern_matches_type(
    types: &PatternTypes,
    pattern: &MatchPattern,
    ty: &TypeRef,
    out: &mut Vec<PatternIssue>,
)
    ensures
        issue_views(final(out)@) == issue_views(old(out)@) + pattern_issues(*types, *pattern, tview(*ty)),
    decreases pattern, 0nat,
{
    let ghost start = issue_views(out@);
    let t = canonical_type_ref(&types.aliases, ty);
    let ghost tv = tview(t);
    assert(tv == canonical(table_view(types.aliases), tview(*ty)));
    proof {
        lemma_tviews(t.args@);
    }
    match pattern {
        MatchPattern::Binding { .. } => {
            assert(issue_views(out@) =~= start + seq![]);
        },
        MatchPattern::Wildcard(_) => {
            assert(issue_views(out@) =~= start + seq![]);
        },
        MatchPattern::Literal { value, span } => {
            let issue = PatternIssue::Literal { value: value.clone(), against: t, span: clone_span(span) };
            push_issue(out, issue);
            assert(issue_views(out@) =~= start + pattern_issues(*types, *pattern, tview(*ty)));
        },
        MatchPattern::Variant { name, bindings, span } => {
            let nm = name.as_str();
            let found = bindings.len();
            if str_eq(t.name.as_str(), "Option") {
                let is_some = str_eq(nm, "Some");
                let is_none = str_eq(nm, "None");
                if !is_some && !is_none {
                    let mut allowed: Vec<String> = Vec::new();
                    allowed.push(text_of("Some"));
                    allowed.push(text_of("None"));
                    assert(strs(allowed@) =~= seq!["Some"@, "None"@]);
                    let issue = PatternIssue::VariantFamily {
                        variant: name.clone(),
                        scrutinee: t,
                        allowed,
                        span: clone_span(span),
                    };
                    push_issue(out, issue);
                    assert(issue_views(out@) =~= start + pattern_issues(*types, *pattern, tview(*ty)));
                } else {
                    let expected: usize = if is_some { 1 } else { 0 };
                    if found > 0 && found != expected {
                        let issue = PatternIssue::Arity { variant: name.clone(), expected, found, span: clone_span(span) };
                        push_issue(out, issue);
                        assert(issue_views(out@) =~= start + pattern_issues(*types, *pattern, tview(*ty)));
                    } else if is_some && found > 0 && t.args.len() > 0 {
                        proof {
                            assert(decreases_to!(*pattern => bindings@[0]));
                        }
                        check_match_pattern_matches_type(types, &bindings[0], &t.args[0], out);
                    } else {
                        assert(issue_views(out@) =~= start + pattern_issues(*types, *pattern, tview(*ty)));
                    }
                }
            } else if str_eq(t.name.as_str(), "Result") {
                let is_ok = str_eq(nm, "Ok");
                let is_err = str_eq(nm, "Err");
                if !is_ok && !is_err {
                    let mut allowed: Vec<String> = Vec::new();
                    allowed.push(text_of("Ok"));
                    allowed.push(text_of("Err"));
                    assert(strs(allowed@) =~= seq!["Ok"@, "Err"@]);
                    let issue = PatternIssue::VariantFamily {
                        variant: name.clone(),
                        scrutinee: t,
                        allowed,
                        span: clone_span(span),
                    };
                    push_issue(out, issue);
                    assert(issue_views(out@) =~= start + pattern_issues(*types, *pattern, tview(*ty)));
                } else if found > 0 && found != 1 {
                    let issue = PatternIssue::Arity { variant: name.clone(), expected: 1, found, span: clone_span(span) };
                    push_issue(out, issue);
                    assert(issue_views(out@) =~= start + pattern_issues(*types, *pattern, tview(*ty)));
                } else if found > 0 && is_ok && t.args.len() > 0 {
                    proof {
                        assert(decreases_to!(*pattern => bindings@[0]));
                    }
                    check_match_pattern_matches_type(types, &bindings[0], &t.args[0], out);
                } else if found > 0 && is_err && t.args.len() > 1 {
                    proof {
                        assert(decreases_to!(*pattern => bindings@[0]));
                    }
                    check_match_pattern_matches_type(types, &bindings[0], &t.args[1], out);
                } else {
                    assert(issue_views(out@) =~= start + pattern_issues(*types, *pattern, tview(*ty)));
                }
            } else {
                match variant_fields_exec(types, t.name.as_str(), nm) {
                    None => {
                        let allowed = sum_variant_names_exec(&types.variants, t.name.as_str());
                        if allowed.len() == 0 {
                            let issue = PatternIssue::PatternType {
                                pattern: name.clone(),
                                scrutinee: t,
                                span: clone_span(span),
                            };
                            push_issue(out, issue);
                        } else {
                            let issue = PatternIssue::VariantFamily {
                                variant: name.clone(),
                                scrutinee: t,
                                allowed,
                                span: clone_span(span),
                            };
                            push_issue(out, issue);
                        }
                        assert(issue_views(out@) =~= start + pattern_issues(*types, *pattern, tview(*ty)));
                    },
                    Some(fields) => {
                        if found > 0 && found != fields.len() {
                            let issue = PatternIssue::Arity {
                                variant: name.clone(),
                                expected: fields.len(),
                                found,
                                span: clone_span(span),
                            };
                            push_issue(out, issue);
                            assert(issue_views(out@) =~= start + pattern_issues(*types, *pattern, tview(*ty)));
                        } else {
                            check_zip(types, bindings, fields, out);
                        }
                    },
                }
            }
        },
        MatchPattern::Struct { name, fields, span } => {
            let root = t.name.as_str();
            let found_type = find_type_exec(&types.types, root);
            let own = match found_type {
                Some(i) => str_eq(name.as_str(), root) && (types.types[i].kind == DeclaredKind::Struct
                    || types.types[i].kind == DeclaredKind::Class),
                None => false,
            };
            let declared: Option<&Vec<DeclaredField>> = if own {
                match found_type {
                    Some(i) => Some(&types.types[i].fields),
                    None => None,
                }
            } else {
                variant_fields_exec(types, root, name.as_str())
            };
            match declared {
                None => {
                    let issue = PatternIssue::PatternType { pattern: name.clone(), scrutinee: t, span: clone_span(span) };
                    push_issue(out, issue);
                    assert(issue_views(out@) =~= start + pattern_issues(*types, *pattern, tview(*ty)));
                },
                Some(declared) => {
                    let empty: Vec<String> = Vec::new();
                    let params: &Vec<String> = match found_type {
                        Some(i) => &types.types[i].type_params,
                        None => &empty,
                    };
                    assert(strs(params@) == declared_params(*types, tv.name));
                    let n = if params.len() <= t.args.len() { params.len() } else { t.args.len() };
                    let ps = clone_strings(params, n);
                    let args = clone_types(&t.args, n);
                    assert(strs(ps@).len() == ps@.len());
                    assert(tviews(args@).len() == args@.len()) by {
                        lemma_tviews(args@);
                    }
                    check_fields(types, fields, declared, &ps, &args, out);
                },
            }
        },
        MatchPattern::List { prefix, suffix, span, .. } => {
            if !str_eq(t.name.as_str(), "List") {
                let issue = PatternIssue::PatternType {
                    pattern: text_of("[..]"),
                    scrutinee: t,
                    span: clone_span(span),
                };
                push_issue(out, issue);
                assert(issue_views(out@) =~= start + pattern_issues(*types, *pattern, tview(*ty)));
            } else if t.args.len() > 0 {
                let ghost mid0 = issue_views(out@);
                check_same(types, prefix, &t.args[0], out);
                check_same(types, suffix, &t.args[0], out);
                assert(issue_views(out@) =~= start + pattern_issues(*types, *pattern, tview(*ty)));
            } else {
                assert(issue_views(out@) =~= start + pattern_issues(*types, *pattern, tview(*ty)));
            }
        },
    }
}

fn check_zip(types: &PatternTypes, ps: &Vec<MatchPattern>, fields: &Vec<DeclaredField>, out: &mut Vec<PatternIssue>)
    ensures
        issue_views(final(out)@) == issue_views(old(out)@) + zip_issues(*types, ps@, field_types(fields@)),
    decreases ps, 1nat,
{
    let ghost start = issue_views(out@);
    let ghost tys = field_types(fields@);
    let mut i: usize = 0;
    while i < ps.len()
        invariant
            i <= ps@.len(),
            tys == field_types(fields@),
            issue_views(out@) == start + zip_issues(*types, ps@.take(i as int), tys),
        decreases ps.len() - i,
    {
        assert(ps@.take(i + 1).drop_last() == ps@.take(i as int));
        assert(ps@.take(i + 1).last() == ps@[i as int]);
        if i < fields.len() {
            proof {
                assert(decreases_to!(*ps => ps@[i as int]));
            }
            check_match_pattern_matches_type(types, &ps[i], &fields[i].ty, out);
        }
        assert(issue_views(out@) =~= start + zip_issues(*types, ps@.take(i + 1), tys));
        i += 1;
    }
    assert(ps@.take(ps@.len() as int) == ps@);
}

fn check_same(types: &PatternTypes, ps: &Vec<MatchPattern>, ty: &TypeRef, out: &mut Vec<PatternIssue>)
    ensures
        issue_views(final(out)@) == issue_views(old(out)@) + same_type_issues(*types, ps@, tview(*ty)),
    decreases ps, 1nat,
{
    let ghost start = issue_views(out@);
    let mut i: usize = 0;
    while i < ps.len()
        invariant
            i <= ps@.len(),
            issue_views(out@) == start + same_type_issues(*types, ps@.take(i as int), tview(*ty)),
        decreases ps.len() - i,
    {
        assert(ps@.take(i + 1).drop_last() == ps@.take(i as int));
        assert(ps@.take(i + 1).last() == ps@[i as int]);
        proof {
            assert(decreases_to!(*ps => ps@[i as int]));
        }
        check_match_pattern_matches_type(types, &ps[i], ty, out);
        assert(issue_views(out@) =~= start + same_type_issues(*types, ps@.take(i + 1), tview(*ty)));
        i += 1;
    }
    assert(ps@.take(ps@.len() as int) == ps@);
}

fn check_fields(
    types: &PatternTypes,
    fs: &Vec<FieldPattern>,
    declared: &Vec<DeclaredField>,
    params: &Vec<String>,
    args: &Vec<TypeRef>,
    out: &mut Vec<PatternIssue>,
)
    requires
        params@.len() == args@.len(),
    ensures
        issue_views(final(out)@) == issue_views(old(out)@) + field_pattern_issues(
            *types,
            fs@,
            declared@,
            strs(params@),
            tviews(args@),
        ),
    decreases fs, 1nat,
{
    let ghost start = issue_views(out@);
    let mut i: usize = 0;
    while i < fs.len()
        invariant
            i <= fs@.len(),
            params@.len() == args@.len(),
            issue_views(out@) == start + field_pattern_issues(
                *types,
                fs@.take(i as int),
                declared@,
                strs(params@),
                tviews(args@),
            ),
        decreases fs.len() - i,
    {
        assert(fs@.take(i + 1).drop_last() == fs@.take(i as int));
        assert(fs@.take(i + 1).last() == fs@[i as int]);
        let f = &fs[i];
        match &f.pattern {
            Some(b) => {
                match find_field_exec(declared, f.name.as_str()) {
                    Some(j) => {
                        let ft = substitute_alias_type_ref(&declared[j].ty, params, args);
                        proof {
                            assert(decreases_to!(*fs => fs@[i as int]));
                            assert(decreases_to!(fs@[i as int] => fs@[i as int].pattern));
                        }
                        check_match_pattern_matches_type(types, &**b, &ft, out);
                    },
                    None => {},
                }
            },
            None => {},
        }
        assert(issue_views(out@) =~= start + field_pattern_issues(
            *types,
            fs@.take(i + 1),
            declared@,
            strs(params@),
            tviews(args@),
        ));
        i += 1;
    }
    assert(fs@.take(fs@.len() as int) == fs@);
}

/// Checks the pattern of each arm against the scrutinee's type, when the
/// scrutinee's type is known.
pub fn check_match_patterns_match_scrutinee(
    types: &PatternTypes,
    scrutinee: &Option<TypeRef>,
    arms: &Vec<MatchArm>,
    out: &mut Vec<PatternIssue>,
)
    ensures
        issue_views(final(out)@) == issue_views(old(out)@) + match scrutinee {
            Some(ty) => arms_issues(*types, arms@, tview(*ty)),
            None => seq![],
        },
{
    let ghost start = issue_views(out@);
    match scrutinee {
        Some(ty) => {
            let mut i: usize = 0;
            while i < arms.len()
                invariant
                    i <= arms@.len(),
                    issue_views(out@) == start + arms_issues(*types, arms@.take(i as int), tview(*ty)),
                decreases arms.len() - i,
            {
                assert(arms@.take(i + 1).drop_last() == arms@.take(i as int));
                assert(arms@.take(i + 1).last() == arms@[i as int]);
                check_match_pattern_matches_type(types, &arms[i].pattern, ty, out);
                assert(issue_views(out@) =~= start + arms_issues(*types, arms@.take(i + 1), tview(*ty)));
                i += 1;
            }
            assert(arms@.take(arms@.len() as int) == arms@);
        },
        None => {
            assert(issue_views(out@) =~= start + seq![]);
        },
    }
}

} // verus!
