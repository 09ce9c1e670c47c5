//! The form of a variant construction: which field errors a call of a user
//! sum variant has (unnamed, unknown, surplus, duplicate, ill-typed and
//! missing fields), and whether a builtin `Ok`/`Err`/`Some`/`None` is written
//! in its conventional form. The messages are built from these issues.
use vstd::prelude::*;
use crate::ast::Span;
use crate::chars::str_eq;
use crate::generics::pair_strs;
use crate::typestr::{arg_matches, argument_type_matches};

verus! {

/// One argument of a variant construction, as the checker sees it.
#[derive(Debug)]
pub struct VariantArg {
    /// The field the argument names, if it names one.
    pub name: Option<String>,
    pub span: Span,
    /// The inferred type of the value, if known.
    pub actual_type: Option<String>,
    /// Whether the value is a literal that the field's type accepts as it is.
    pub literal_accepted: bool,
    /// Whether the inferred type holds a generic not yet resolved.
    pub generic_unresolved: bool,
    /// Where the value is.
    pub value_span: Span,
}

/// A field error of a variant construction.
#[derive(Debug, PartialEq, Eq)]
pub enum VariantFieldIssue {
    /// A value without a field name.
    Unnamed { span: Span },
    /// A field the variant does not declare.
    UnknownField { name: String, span: Span },
    /// A positional value past the declared fields.
    TooMany { expected: usize, found: usize, span: Span },
    /// A field given twice.
    Duplicate { field: String, span: Span },
    /// A value whose type does not fit the field.
    TypeMismatch { field: String, actual: String, expected: String, span: Span },
    /// A declared field not given.
    Missing { field: String, span: Span },
}

/// The abstract value of an issue.
pub enum IssueView {
    Unnamed(Span),
    UnknownField(Seq<char>, Span),
    TooMany(nat, nat, Span),
    Duplicate(Seq<char>, Span),
    TypeMismatch(Seq<char>, Seq<char>, Seq<char>, Span),
    Missing(Seq<char>, Span),
}

pub open spec fn issue_view(i: VariantFieldIssue) -> IssueView {
    match i {
        VariantFieldIssue::Unnamed { span } => IssueView::Unnamed(span),
        VariantFieldIssue::UnknownField { name, span } => IssueView::UnknownField(name@, span),
        VariantFieldIssue::TooMany { expected, found, span } => IssueView::TooMany(
            expected as nat,
            found as nat,
            span,
        ),
        VariantFieldIssue::Duplicate { field, span } => IssueView::Duplicate(field@, span),
        VariantFieldIssue::TypeMismatch { field, actual, expected, span } => IssueView::TypeMismatch(
            field@,
            actual@,
            expected@,
            span,
        ),
        VariantFieldIssue::Missing { field, span } => IssueView::Missing(field@, span),
    }
}

pub open spec fn issue_views(v: Seq<VariantFieldIssue>) -> Seq<IssueView> {
    v.map_values(|i: VariantFieldIssue| issue_view(i))
}

/// The first argument at or after `i` without a field name.
pub open spec fn first_unnamed(args: Seq<VariantArg>, i: int) -> Option<int>
    decreases args.len() - i,
{
    if i < 0 || i >= args.len() {
        None
    } else if args[i].name is None {
        Some(i)
    } else {
        first_unnamed(args, i + 1)
    }
}

/// The first declared field at or after `i` named `name`.
pub open spec fn field_pos(fields: Seq<(Seq<char>, Seq<char>)>, name: Seq<char>, i: int) -> Option<int>
    decreases fields.len() - i,
{
    if i < 0 || i >= fields.len() {
        None
    } else if fields[i].0 == name {
        Some(i)
    } else {
        field_pos(fields, name, i + 1)
    }
}

/// The type error of a value given for `field`: none for an accepted
/// literal, a value of unknown type or one with an unresolved generic;
/// otherwise a mismatch when the types do not match.
pub open spec fn value_issue(field: (Seq<char>, Seq<char>), a: VariantArg) -> Seq<IssueView> {
    if a.literal_accepted {
        Seq::empty()
    } else {
        match a.actual_type {
            Some(t) => if !a.generic_unresolved && !arg_matches(field.1, t@) {
                seq![IssueView::TypeMismatch(field.0, t@, field.1, a.value_span)]
            } else {
                Seq::empty()
            },
            None => Seq::empty(),
        }
    }
}

/// The fields given so far and the issues found, after the first `k`
/// arguments: each targets the field it names, or (unnamed) the field in
/// its position; an unknown name or a position past the fields is reported
/// and skipped; a field given before is a duplicate; otherwise the field is
/// marked given and its value type-checked.
pub open spec fn walk(fields: Seq<(Seq<char>, Seq<char>)>, args: Seq<VariantArg>, k: int) -> (Seq<bool>, Seq<IssueView>)
    decreases k,
{
    if k <= 0 || k > args.len() {
        (Seq::new(fields.len(), |i: int| false), Seq::empty())
    } else {
        let (seen, out) = walk(fields, args, k - 1);
        let a = args[k - 1];
        let target = match a.name {
            Some(n) => field_pos(fields, n@, 0),
            None => if k - 1 < fields.len() {
                Some(k - 1)
            } else {
                None
            },
        };
        match target {
            None => match a.name {
                Some(n) => (seen, out.push(IssueView::UnknownField(n@, a.span))),
                None => (seen, out.push(IssueView::TooMany(fields.len(), args.len(), a.span))),
            },
            Some(i) => if seen[i] {
                (seen, out.push(IssueView::Duplicate(fields[i].0, a.span)))
            } else {
                (seen.update(i, true), out + value_issue(fields[i], a))
            },
        }
    }
}

/// A missing-field issue, at the call, for each of the first `k` fields not
/// given.
pub open spec fn missing(fields: Seq<(Seq<char>, Seq<char>)>, seen: Seq<bool>, k: int, call: Span) -> Seq<IssueView>
    decreases k,
{
    if k <= 0 {
        Seq::empty()
    } else {
        missing(fields, seen, k - 1, call) + if !seen[k - 1] {
            seq![IssueView::Missing(fields[k - 1].0, call)]
        } else {
            Seq::empty()
        }
    }
}

/// The field issues of constructing a user variant with the declared
/// (name, type) fields: only the first unnamed value when there is one;
/// otherwise the issues of each argument in order, then each field left
/// missing, in declaration order.
pub open spec fn variant_field_issues_spec(
    fields: Seq<(Seq<char>, Seq<char>)>,
    args: Seq<VariantArg>,
    call: Span,
) -> Seq<IssueView> {
    match first_unnamed(args, 0) {
        Some(i) => seq![IssueView::Unnamed(args[i].span)],
        None => {
            let (seen, out) = walk(fields, args, args.len() as int);
            out + missing(fields, seen, fields.len() as int, call)
        },
    }
}

proof fn lemma_walk_seen_len(fields: Seq<(Seq<char>, Seq<char>)>, args: Seq<VariantArg>, k: int)
    ensures
        walk(fields, args, k).0.len() == fields.len(),
    decreases k,
{
    if 0 < k <= args.len() {
        lemma_walk_seen_len(fields, args, k - 1);
        let a = args[k - 1];
        match a.name {
            Some(n) => lemma_field_pos(fields, n@, 0),
            None => {},
        }
    }
}

proof fn lemma_field_pos(fields: Seq<(Seq<char>, Seq<char>)>, name: Seq<char>, i: int)
    ensures
        match field_pos(fields, name, i) {
            Some(j) => 0 <= i <= j < fields.len() && fields[j].0 == name,
            None => true,
        },
    decreases fields.len() - i,
{
    if 0 <= i < fields.len() && fields[i].0 != name {
        lemma_field_pos(fields, name, i + 1);
    }
}

fn find_field(fields: &Vec<(String, String)>, name: &str) -> (r: Option<usize>)
    ensures
        match field_pos(pair_strs(fields@), name@, 0) {
            Some(j) => r is Some && r->0 as int == j,
            None => r is None,
        },
{
    let ghost fv = pair_strs(fields@);
    let mut i: usize = 0;
    while i < fields.len()
        invariant
            fv == pair_strs(fields@),
            i <= fields@.len(),
            field_pos(fv, name@, 0) == field_pos(fv, name@, i as int),
        decreases fields.len() - i,
    {
        assert(fv[i as int].0 == fields@[i as int].0@);
        if str_eq(fields[i].0.as_str(), name) {
            return Some(i);
        }
        i += 1;
    }
    None
}

fn value_issue_exec(field: &(String, String), a: &VariantArg, out: &mut Vec<VariantFieldIssue>)
    ensures
        issue_views(final(out)@) == issue_views(old(out)@) + value_issue((field.0@, field.1@), *a),
{
    let ghost o = issue_views(out@);
    if a.literal_accepted {
        assert(issue_views(out@) =~= o + value_issue((field.0@, field.1@), *a));
        return;
    }
    match &a.actual_type {
        Some(t) => {
            if !a.generic_unresolved && !argument_type_matches(field.1.as_str(), t.as_str()) {
                out.push(
                    VariantFieldIssue::TypeMismatch {
                        field: field.0.clone(),
                        actual: t.clone(),
                        expected: field.1.clone(),
                        span: a.value_span.clone_span(),
                    },
                );
            }
        },
        None => {},
    }
    assert(issue_views(out@) =~= o + value_issue((field.0@, field.1@), *a));
}

/// The field issues of a call of a user sum variant whose declared fields
/// are the (name, type name) pairs `fields`.
pub fn variant_field_issues(fields: &Vec<(String, String)>, args: &Vec<VariantArg>, call_span: &Span) -> (r: Vec<
    VariantFieldIssue,
>)
    ensures
        issue_views(r@) == variant_field_issues_spec(pair_strs(fields@), args@, *call_span),
{
    let ghost fv = pair_strs(fields@);
    let mut u: usize = 0;
    while u < args.len()
        invariant
            u <= args@.len(),
            first_unnamed(args@, 0) == first_unnamed(args@, u as int),
        decreases args.len() - u,
    {
        if args[u].name.is_none() {
            let mut out: Vec<VariantFieldIssue> = Vec::new();
            out.push(VariantFieldIssue::Unnamed { span: args[u].span.clone_span() });
            assert(issue_views(out@) =~= seq![IssueView::Unnamed(args@[u as int].span)]);
            return out;
        }
        u += 1;
    }
    let mut seen: Vec<bool> = Vec::new();
    let mut f: usize = 0;
    while f < fields.len()
        invariant
            f <= fields@.len(),
            seen@ == Seq::new(f as nat, |i: int| false),
        decreases fields.len() - f,
    {
        seen.push(false);
        assert(seen@ =~= Seq::new((f + 1) as nat, |i: int| false));
        f += 1;
    }
    let mut out: Vec<VariantFieldIssue> = Vec::new();
    let mut k: usize = 0;
    assert(fv.len() == fields@.len());
    while k < args.len()
        invariant
            fv == pair_strs(fields@),
            fv.len() == fields@.len(),
            k <= args@.len(),
            (seen@, issue_views(out@)) == walk(fv, args@, k as int),
        decreases args.len() - k,
    {
        proof {
            lemma_walk_seen_len(fv, args@, k as int);
        }
        let a = &args[k];
        let ghost spec_target = match args@[k as int].name {
            Some(n) => field_pos(fv, n@, 0),
            None => if k < fv.len() {
                Some(k as int)
            } else {
                None
            },
        };
        let target: Option<usize> = match &a.name {
            Some(n) => {
                let ns = n.as_str();
                let t = find_field(fields, ns);
                assert(ns@ == n@);
                assert(args@[k as int].name == Some(*n));
                assert(spec_target == field_pos(fv, n@, 0));
                assert(fv == pair_strs(fields@));
                assert(match t {
                    Some(x) => spec_target == Some(x as int),
                    None => spec_target is None,
                });
                t
            },
            None => {
                assert(args@[k as int].name is None);
                if k < fields.len() {
                    Some(k)
                } else {
                    None
                }
            },
        };
        let ghost before = issue_views(out@);
        let ghost seen0 = seen@;
        assert(match target {
            Some(t) => spec_target == Some(t as int),
            None => spec_target is None,
        });
        assert(walk(fv, args@, k as int) == (seen0, before));
        match target {
            None => {
                match &a.name {
                    Some(n) => {
                        out.push(VariantFieldIssue::UnknownField { name: n.clone(), span: a.span.clone_span() });
                    },
                    None => {
                        out.push(
                            VariantFieldIssue::TooMany {
                                expected: fields.len(),
                                found: args.len(),
                                span: a.span.clone_span(),
                            },
                        );
                    },
                }
                assert(issue_views(out@) =~= before.push(issue_view(out@.last())));
            },
            Some(i) => {
                proof {
                    if a.name is Some {
                        lemma_field_pos(fv, a.name->0@, 0);
                    }
                }
                if seen[i] {
                    out.push(VariantFieldIssue::Duplicate { field: fields[i].0.clone(), span: a.span.clone_span() });
                    assert(issue_views(out@) =~= before.push(issue_view(out@.last())));
                } else {
                    seen.set(i, true);
                    value_issue_exec(&fields[i], a, &mut out);
                }
                assert(fv[i as int] == (fields@[i as int].0@, fields@[i as int].1@));
            },
        }
        assert((seen@, issue_views(out@)) == walk(fv, args@, k + 1));
        k += 1;
    }
    proof {
        lemma_walk_seen_len(fv, args@, args@.len() as int);
    }
    let mut m: usize = 0;
    let ghost walked = issue_views(out@);
    while m < fields.len()
        invariant
            fv == pair_strs(fields@),
            m <= fields@.len(),
            seen@.len() == fields@.len(),
            issue_views(out@) == walked + missing(fv, seen@, m as int, *call_span),
        decreases fields.len() - m,
    {
        if !seen[m] {
            let ghost before = issue_views(out@);
            out.push(VariantFieldIssue::Missing { field: fields[m].0.clone(), span: call_span.clone_span() });
            assert(fv[m as int].0 == fields@[m as int].0@);
            assert(issue_views(out@) =~= before.push(IssueView::Missing(fv[m as int].0, *call_span)));
        }
        assert(issue_views(out@) =~= walked + missing(fv, seen@, m + 1, *call_span));
        m += 1;
    }
    out
}

/// Whether a builtin variant construction is in its conventional form:
/// `Ok`, `Err` and `Some` take exactly one unnamed value; `None` and the
/// type names `Result` and `Option` are never called; other names are not
/// checked here.
pub open spec fn conventional_ok(variant: Seq<char>, args: Seq<VariantArg>) -> bool {
    if variant == "Ok"@ || variant == "Err"@ || variant == "Some"@ {
        args.len() == 1 && args[0].name is None
    } else if variant == "None"@ || variant == "Result"@ || variant == "Option"@ {
        false
    } else {
        true
    }
}

/// The form a misused builtin variant should take.
pub open spec fn conventional_form_text(variant: Seq<char>) -> Seq<char> {
    if variant == "Ok"@ {
        "`Ok(value)`"@
    } else if variant == "Err"@ {
        "`Err(error)`"@
    } else if variant == "Some"@ {
        "`Some(value)`"@
    } else if variant == "None"@ {
        "`None`"@
    } else if variant == "Result"@ {
        "`Ok(value)` or `Err(error)`"@
    } else if variant == "Option"@ {
        "`Some(value)` or `None`"@
    } else {
        "the conventional variant form"@
    }
}

/// For a variant that is not a user sum variant: `None` when the call is in
/// its conventional form, else the form to use and where to report it (the
/// first argument, or the call when there is none).
pub fn conventional_variant_form(variant: &str, args: &Vec<VariantArg>, call_span: &Span) -> (r: Option<
    (&'static str, Span),
>)
    ensures
        match r {
            None => conventional_ok(variant@, args@),
            Some((form, span)) => !conventional_ok(variant@, args@) && form@ == conventional_form_text(variant@)
                && span == (if args@.len() > 0 {
                args@[0].span
            } else {
                *call_span
            }),
        },
{
    let builtin_value = str_eq(variant, "Ok") || str_eq(variant, "Err") || str_eq(variant, "Some");
    let valid = if builtin_value {
        args.len() == 1 && args[0].name.is_none()
    } else if str_eq(variant, "None") || str_eq(variant, "Result") || str_eq(variant, "Option") {
        false
    } else {
        true
    };
    if valid {
        return None;
    }
    let form = if str_eq(variant, "Ok") {
        "`Ok(value)`"
    } else if str_eq(variant, "Err") {
        "`Err(error)`"
    } else if str_eq(variant, "Some") {
        "`Some(value)`"
    } else if str_eq(variant, "None") {
        "`None`"
    } else if str_eq(variant, "Result") {
        "`Ok(value)` or `Err(error)`"
    } else if str_eq(variant, "Option") {
        "`Some(value)` or `None`"
    } else {
        "the conventional variant form"
    };
    let span = if args.len() > 0 {
        args[0].span.clone_span()
    } else {
        call_span.clone_span()
    };
    Some((form, span))
}

} // verus!
