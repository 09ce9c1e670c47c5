//! Diagnostics the analyses report, and their abstract value.
use vstd::prelude::*;
use crate::ast::Span;

verus! {

/// How serious a diagnostic is; only errors block validation.
#[derive(Clone, Copy, Debug, PartialEq, Eq)]
pub enum Severity {
    Error,
    Warning,
}

/// A suggested repair.
#[derive(Clone, Debug, PartialEq, Eq)]
pub struct Fix {
    pub id: String,
    pub description: String,
    pub applicability: String,
}

/// One reported problem.
#[derive(Clone, Debug, PartialEq, Eq)]
pub struct Diagnostic {
    pub code: String,
    pub severity: Severity,
    pub message: String,
    pub span: Span,
    pub label: String,
    pub causes: Vec<String>,
    pub fixes: Vec<Fix>,
}

/// The code reported for a type alias that expands back into itself.
pub open spec fn alias_cycle_code() -> Seq<char> {
    "RS0039"@
}

/// The code reported for syntax outside the supported surface.
pub open spec fn unsupported_syntax_code() -> Seq<char> {
    "UNSUPPORTED_SYNTAX"@
}

/// The code reported for a derive that a field's type cannot support.
pub open spec fn derive_field_code() -> Seq<char> {
    "DERIVE_FIELD_UNSUPPORTED"@
}

/// The abstract value of a diagnostic.
pub struct DiagView {
    pub code: Seq<char>,
    pub severity: Severity,
    pub message: Seq<char>,
    pub span: Span,
    pub label: Seq<char>,
    pub causes: Seq<Seq<char>>,
    pub fixes: Seq<(Seq<char>, Seq<char>, Seq<char>)>,
}

pub open spec fn dview(d: Diagnostic) -> DiagView {
    DiagView {
        code: d.code@,
        severity: d.severity,
        message: d.message@,
        span: d.span,
        label: d.label@,
        causes: d.causes@.map_values(|c: String| c@),
        fixes: d.fixes@.map_values(|f: Fix| (f.id@, f.description@, f.applicability@)),
    }
}

pub open spec fn dviews(s: Seq<Diagnostic>) -> Seq<DiagView> {
    s.map_values(|d: Diagnostic| dview(d))
}

pub proof fn lemma_dviews_push(s: Seq<Diagnostic>, d: Diagnostic)
    ensures
        dviews(s.push(d)) == dviews(s).push(dview(d)),
{
    assert(dviews(s.push(d)) =~= dviews(s).push(dview(d)));
}

pub proof fn lemma_dviews_add(s: Seq<Diagnostic>, t: Seq<Diagnostic>)
    ensures
        dviews(s + t) == dviews(s) + dviews(t),
{
    assert(dviews(s + t) =~= dviews(s) + dviews(t));
}

/// Whether any of the diagnostics is an error.
pub open spec fn has_error(s: Seq<DiagView>) -> bool {
    exists|i: int| 0 <= i < s.len() && s[i].severity == Severity::Error
}

/// An error with one cause and no fix.
pub fn error_with_cause(code: &str, message: String, span: Span, label: String, cause: &str) -> (d: Diagnostic)
    ensures
        dview(d) == (DiagView {
            code: code@,
            severity: Severity::Error,
            message: message@,
            span: span,
            label: label@,
            causes: seq![cause@],
            fixes: seq![],
        }),
{
    let mut causes: Vec<String> = Vec::new();
    causes.push(cause.to_owned());
    let d = Diagnostic {
        code: code.to_owned(),
        severity: Severity::Error,
        message,
        span,
        label,
        causes,
        fixes: Vec::new(),
    };
    assert(d.causes@.map_values(|c: String| c@) =~= seq![cause@]);
    assert(d.fixes@.map_values(|f: Fix| (f.id@, f.description@, f.applicability@)) =~= Seq::<(Seq<char>, Seq<char>, Seq<char>)>::empty());
    d
}

/// An error with one cause and one suggested repair.
pub fn error_with_fix(
    code: &str,
    message: String,
    span: Span,
    label: String,
    cause: &str,
    fix_id: &str,
    fix_description: String,
    applicability: &str,
) -> (d: Diagnostic)
    ensures
        dview(d) == (DiagView {
            code: code@,
            severity: Severity::Error,
            message: message@,
            span: span,
            label: label@,
            causes: seq![cause@],
            fixes: seq![(fix_id@, fix_description@, applicability@)],
        }),
{
    let mut d = error_with_cause(code, message, span, label, cause);
    let fix = Fix { id: fix_id.to_owned(), description: fix_description, applicability: applicability.to_owned() };
    d.fixes.push(fix);
    assert(d.fixes@.map_values(|f: Fix| (f.id@, f.description@, f.applicability@)) =~= seq![(fix_id@, fix_description@, applicability@)]);
    d
}

/// Appends every diagnostic of `more` to `out`, in order.
pub fn extend_diagnostics(out: &mut Vec<Diagnostic>, more: Vec<Diagnostic>)
    ensures
        final(out)@ == old(out)@ + more@,
{
    let mut more = more;
    out.append(&mut more);
}

/// Whether any diagnostic is an error.
pub fn any_error(s: &Vec<Diagnostic>) -> (r: bool)
    ensures
        r == has_error(dviews(s@)),
{
    let mut i: usize = 0;
    while i < s.len()
        invariant
            i <= s@.len(),
            forall|j: int| 0 <= j < i ==> s@[j].severity != Severity::Error,
        decreases s.len() - i,
    {
        match s[i].severity {
            Severity::Error => {
                assert(dviews(s@)[i as int].severity == Severity::Error);
                return true;
            },
            Severity::Warning => {},
        }
        i += 1;
    }
    assert forall|j: int| 0 <= j < dviews(s@).len() implies dviews(s@)[j].severity != Severity::Error by {
        assert(dviews(s@)[j] == dview(s@[j]));
    }
    false
}

} // verus!
