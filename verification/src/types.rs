//! Written type references: their abstract value, rendering, and the
//! substitutions type aliases perform.
use vstd::prelude::*;
use crate::ast::{DataEffect, Span, TypeRef};
use crate::chars::str_eq;

verus! {

/// The abstract value of a `TypeRef`.
pub struct TypeView {
    pub name: Seq<char>,
    pub args: Seq<TypeView>,
    pub fn_params: Seq<TypeView>,
    pub fn_param_effects: Seq<Option<DataEffect>>,
    pub fn_return: Option<Box<TypeView>>,
    pub is_fresh: bool,
    pub is_noescape: bool,
    pub is_owned: bool,
    pub malformed_arg_spans: Seq<Span>,
    pub span: Span,
}

pub open spec fn tview(t: TypeRef) -> TypeView
    decreases t, 0nat,
{
    TypeView {
        name: t.name@,
        args: tviews(t.args@),
        fn_params: tviews(t.fn_params@),
        fn_param_effects: t.fn_param_effects@,
        fn_return: match t.fn_return {
            Some(r) => Some(Box::new(tview(*r))),
            None => None,
        },
        is_fresh: t.is_fresh,
        is_noescape: t.is_noescape,
        is_owned: t.is_owned,
        malformed_arg_spans: t.malformed_arg_spans@,
        span: t.span,
    }
}

pub open spec fn tviews(s: Seq<TypeRef>) -> Seq<TypeView>
    decreases s, 0nat,
{
    if s.len() == 0 {
        seq![]
    } else {
        tviews(s.drop_last()).push(tview(s.last()))
    }
}

pub proof fn lemma_tviews(s: Seq<TypeRef>)
    ensures
        tviews(s).len() == s.len(),
        forall|i: int| 0 <= i < s.len() ==> #[trigger] tviews(s)[i] == tview(s[i]),
    decreases s.len(),
{
    if s.len() > 0 {
        lemma_tviews(s.drop_last());
        assert forall|i: int| 0 <= i < s.len() implies #[trigger] tviews(s)[i] == tview(s[i]) by {
            if i < s.len() - 1 {
                assert(s.drop_last()[i] == s[i]);
            }
        }
    }
}

pub proof fn lemma_tviews_take(s: Seq<TypeRef>, k: int)
    requires
        0 <= k < s.len(),
    ensures
        tviews(s.take(k + 1)) == tviews(s.take(k)).push(tview(s[k])),
{
    assert(s.take(k + 1).drop_last() == s.take(k));
}

// ---------------------------------------------------------------------------
// Deep copies
// ---------------------------------------------------------------------------

pub fn clone_span(s: &Span) -> (r: Span)
    ensures
        r == *s,
{
    Span { file: s.file.clone(), line: s.line, column: s.column, length: s.length }
}

pub fn clone_spans(v: &Vec<Span>) -> (r: Vec<Span>)
    ensures
        r@ == v@,
{
    let mut r: Vec<Span> = Vec::new();
    let mut i: usize = 0;
    while i < v.len()
        invariant
            i <= v@.len(),
            r@ == v@.take(i as int),
        decreases v.len() - i,
    {
        r.push(clone_span(&v[i]));
        assert(v@.take(i + 1) == v@.take(i as int).push(v@[i as int]));
        i += 1;
    }
    assert(v@.take(v@.len() as int) == v@);
    r
}

pub fn clone_effects(v: &Vec<Option<DataEffect>>) -> (r: Vec<Option<DataEffect>>)
    ensures
        r@ == v@,
{
    let mut r: Vec<Option<DataEffect>> = Vec::new();
    let mut i: usize = 0;
    while i < v.len()
        invariant
            i <= v@.len(),
            r@ == v@.take(i as int),
        decreases v.len() - i,
    {
        let e = match &v[i] {
            Some(x) => Some(*x),
            None => None,
        };
        r.push(e);
        assert(v@.take(i + 1) == v@.take(i as int).push(v@[i as int]));
        i += 1;
    }
    assert(v@.take(v@.len() as int) == v@);
    r
}

/// A deep copy with the same abstract value.
pub fn clone_type_ref(t: &TypeRef) -> (r: TypeRef)
    ensures
        tview(r) == tview(*t),
    decreases t, 0nat,
{
    let fn_return = match &t.fn_return {
        Some(b) => Some(Box::new(clone_type_ref(b))),
        None => None,
    };
    TypeRef {
        name: t.name.clone(),
        args: clone_type_refs(&t.args),
        fn_params: clone_type_refs(&t.fn_params),
        fn_param_effects: clone_effects(&t.fn_param_effects),
        fn_return,
        is_fresh: t.is_fresh,
        is_noescape: t.is_noescape,
        is_owned: t.is_owned,
        malformed_arg_spans: clone_spans(&t.malformed_arg_spans),
        span: clone_span(&t.span),
    }
}

pub fn clone_type_refs(v: &Vec<TypeRef>) -> (r: Vec<TypeRef>)
    ensures
        tviews(r@) == tviews(v@),
    decreases v, 1nat,
{
    let mut r: Vec<TypeRef> = Vec::new();
    let mut i: usize = 0;
    while i < v.len()
        invariant
            i <= v@.len(),
            tviews(r@) == tviews(v@.take(i as int)),
        decreases v.len() - i,
    {
        proof {
            assert(decreases_to!(*v => v@[i as int]));
        }
        let c = clone_type_ref(&v[i]);
        let ghost before = r@;
        r.push(c);
        assert(r@.drop_last() == before);
        proof {
            lemma_tviews_take(v@, i as int);
        }
        i += 1;
    }
    assert(v@.take(v@.len() as int) == v@);
    r
}

// ---------------------------------------------------------------------------
// Rendering
// ---------------------------------------------------------------------------

/// The source spelling of a type: `owned Fn(read Int) -> List<T>`.
/// Function types always show a return type (`Unit` when omitted), and the
/// `owned`, `noescape` and `fresh` markers stack in that order.
pub open spec fn render(t: TypeView) -> Seq<char>
    decreases t, 2nat,
{
    render_marked(t, render_base(t))
}

/// The type without its `owned`, `noescape` and `fresh` markers.
pub open spec fn render_base(t: TypeView) -> Seq<char>
    decreases t, 1nat,
{
    if t.name == "Fn"@ {
        "Fn("@ + render_params(t.fn_params, t.fn_param_effects, t.fn_params.len() as int) + ") -> "@
            + match t.fn_return {
            Some(r) => render(*r),
            None => "Unit"@,
        }
    } else if t.args.len() == 0 {
        t.name
    } else {
        t.name + "<"@ + render_list(t.args, t.args.len() as int) + ">"@
    }
}

/// `base` preceded by the markers that `t` carries.
pub open spec fn render_marked(t: TypeView, base: Seq<char>) -> Seq<char> {
    let r1 = if t.is_owned {
        "owned "@ + base
    } else {
        base
    };
    let r2 = if t.is_noescape {
        "noescape "@ + r1
    } else {
        r1
    };
    if t.is_fresh {
        "fresh "@ + r2
    } else {
        r2
    }
}

/// The first `k` rendered types joined by `, `.
pub open spec fn render_list(ts: Seq<TypeView>, k: int) -> Seq<char>
    decreases ts, 0nat, k,
{
    if k <= 0 || k > ts.len() {
        seq![]
    } else if k == 1 {
        render(ts[0])
    } else {
        render_list(ts, k - 1) + ", "@ + render(ts[k - 1])
    }
}

/// The first `k` function parameters, each preceded by its declared effect.
pub open spec fn render_params(ts: Seq<TypeView>, effects: Seq<Option<DataEffect>>, k: int) -> Seq<char>
    decreases ts, 0nat, k,
{
    if k <= 0 || k > ts.len() {
        seq![]
    } else {
        let p = match if k - 1 < effects.len() { effects[k - 1] } else { None } {
            Some(e) => e.spec_text() + " "@ + render(ts[k - 1]),
            None => render(ts[k - 1]),
        };
        if k == 1 {
            p
        } else {
            render_params(ts, effects, k - 1) + ", "@ + p
        }
    }
}

pub fn append(s: &mut String, t: &str)
    ensures
        final(s)@ == old(s)@ + t@,
{
    s.append(t);
}

/// Renders a type the way it is written, for alias metadata and messages.
pub fn render_type_ref(t: &TypeRef) -> (r: String)
    ensures
        r@ == render(tview(*t)),
    decreases t, 1nat,
{
    proof {
        lemma_tviews(t.args@);
        lemma_tviews(t.fn_params@);
    }
    let ghost tv = tview(*t);
    let mut base = String::new();
    if str_eq(t.name.as_str(), "Fn") {
        append(&mut base, "Fn(");
        let mut i: usize = 0;
        while i < t.fn_params.len()
            invariant
                tv == tview(*t),
                i <= t.fn_params@.len(),
                tv.fn_params.len() == t.fn_params@.len(),
                forall|j: int| 0 <= j < t.fn_params@.len() ==> #[trigger] tv.fn_params[j] == tview(t.fn_params@[j]),
                base@ == "Fn("@ + render_params(tv.fn_params, tv.fn_param_effects, i as int),
            decreases t.fn_params.len() - i,
        {
            if i > 0 {
                append(&mut base, ", ");
            }
            if i < t.fn_param_effects.len() {
                match &t.fn_param_effects[i] {
                    Some(e) => {
                        append(&mut base, e.as_str());
                        append(&mut base, " ");
                    },
                    None => {},
                }
            }
            proof {
                assert(decreases_to!(*t => t.fn_params@[i as int]));
            }
            let p = render_type_ref(&t.fn_params[i]);
            append(&mut base, p.as_str());
            i += 1;
        }
        append(&mut base, ") -> ");
        match &t.fn_return {
            Some(ret) => {
                let rr = render_type_ref(ret);
                append(&mut base, rr.as_str());
            },
            None => append(&mut base, "Unit"),
        }
        assert(base@ == render_base(tv));
    } else if t.args.len() == 0 {
        base = t.name.clone();
        assert(base@ == render_base(tv));
    } else {
        base = t.name.clone();
        append(&mut base, "<");
        let mut i: usize = 0;
        while i < t.args.len()
            invariant
                tv == tview(*t),
                i <= t.args@.len(),
                tv.args.len() == t.args@.len(),
                t.args@.len() > 0,
                forall|j: int| 0 <= j < t.args@.len() ==> #[trigger] tv.args[j] == tview(t.args@[j]),
                base@ == t.name@ + "<"@ + render_list(tv.args, i as int),
            decreases t.args.len() - i,
        {
            if i > 0 {
                append(&mut base, ", ");
            }
            proof {
                assert(decreases_to!(*t => t.args@[i as int]));
            }
            let a = render_type_ref(&t.args[i]);
            append(&mut base, a.as_str());
            i += 1;
        }
        append(&mut base, ">");
        assert(base@ == render_base(tv));
    }
    assert(base@ == render_base(tv));
    let mut out = base;
    if t.is_owned {
        let mut s = "owned ".to_owned();
        append(&mut s, out.as_str());
        out = s;
    }
    if t.is_noescape {
        let mut s = "noescape ".to_owned();
        append(&mut s, out.as_str());
        out = s;
    }
    if t.is_fresh {
        let mut s = "fresh ".to_owned();
        append(&mut s, out.as_str());
        out = s;
    }
    out
}

// ---------------------------------------------------------------------------
// Type names in messages
// ---------------------------------------------------------------------------

/// The effect a function-type parameter takes: the one written, or `read`
/// where none is written. `None` past the last parameter.
pub open spec fn effective_effect(t: TypeView, i: int) -> Option<DataEffect> {
    if 0 <= i < t.fn_params.len() {
        if i < t.fn_param_effects.len() && t.fn_param_effects[i] is Some {
            t.fn_param_effects[i]
        } else {
            Some(DataEffect::Read)
        }
    } else {
        None
    }
}

impl TypeRef {
    /// The effect parameter `index` of this function type takes.
    pub fn effective_fn_param_effect(&self, index: usize) -> (r: Option<DataEffect>)
        ensures
            r == effective_effect(tview(*self), index as int),
    {
        proof {
            lemma_tviews(self.fn_params@);
        }
        if index < self.fn_params.len() {
            if index < self.fn_param_effects.len() {
                match self.fn_param_effects[index] {
                    Some(e) => return Some(e),
                    None => {},
                }
            }
            Some(DataEffect::Read)
        } else {
            None
        }
    }
}

/// How a type is named in messages: like its source spelling, except that
/// a function type without a return type shows none and `noescape` hides
/// `owned`. With `with_effects`, every function-type parameter also shows its
/// effective effect.
pub open spec fn label_text(t: TypeView, with_effects: bool) -> Seq<char>
    decreases t, 2nat,
{
    let base = label_base(t, with_effects);
    let marked = if t.is_noescape {
        "noescape "@ + base
    } else if t.is_owned {
        "owned "@ + base
    } else {
        base
    };
    if t.is_fresh {
        "fresh "@ + marked
    } else {
        marked
    }
}

pub open spec fn label_base(t: TypeView, with_effects: bool) -> Seq<char>
    decreases t, 1nat,
{
    if t.name == "Fn"@ {
        "Fn("@ + label_params(t.fn_params, t.fn_param_effects, with_effects, t.fn_params.len() as int) + ")"@
            + match t.fn_return {
            Some(r) => " -> "@ + label_text(*r, with_effects),
            None => seq![],
        }
    } else if t.args.len() == 0 {
        t.name
    } else {
        t.name + "<"@ + label_list(t.args, with_effects, t.args.len() as int) + ">"@
    }
}

pub open spec fn label_list(ts: Seq<TypeView>, with_effects: bool, k: int) -> Seq<char>
    decreases ts, 0nat, k,
{
    if k <= 0 || k > ts.len() {
        seq![]
    } else if k == 1 {
        label_text(ts[0], with_effects)
    } else {
        label_list(ts, with_effects, k - 1) + ", "@ + label_text(ts[k - 1], with_effects)
    }
}

pub open spec fn label_params(
    ts: Seq<TypeView>,
    effects: Seq<Option<DataEffect>>,
    with_effects: bool,
    k: int,
) -> Seq<char>
    decreases ts, 0nat, k,
{
    if k <= 0 || k > ts.len() {
        seq![]
    } else {
        let e = if k - 1 < effects.len() && effects[k - 1] is Some {
            effects[k - 1].unwrap()
        } else {
            DataEffect::Read
        };
        let p = if with_effects {
            e.spec_text() + " "@ + label_text(ts[k - 1], with_effects)
        } else {
            label_text(ts[k - 1], with_effects)
        };
        if k == 1 {
            p
        } else {
            label_params(ts, effects, with_effects, k - 1) + ", "@ + p
        }
    }
}

/// The name the analyzer's messages give a type: parameters show effects.
pub open spec fn type_name_text(t: TypeView) -> Seq<char> {
    label_text(t, true)
}

/// The name the call and `?` checks give a type: parameters show no effect.
pub open spec fn plain_type_name_text(t: TypeView) -> Seq<char> {
    label_text(t, false)
}

fn type_label(t: &TypeRef, with_effects: bool) -> (r: String)
    ensures
        r@ == label_text(tview(*t), with_effects),
    decreases t, 2nat,
{
    proof {
        lemma_tviews(t.args@);
        lemma_tviews(t.fn_params@);
    }
    let ghost tv = tview(*t);
    let mut base = String::new();
    if str_eq(t.name.as_str(), "Fn") {
        append(&mut base, "Fn(");
        let mut i: usize = 0;
        while i < t.fn_params.len()
            invariant
                tv == tview(*t),
                i <= t.fn_params@.len(),
                tv.fn_params.len() == t.fn_params@.len(),
                forall|j: int| 0 <= j < t.fn_params@.len() ==> #[trigger] tv.fn_params[j] == tview(t.fn_params@[j]),
                base@ == "Fn("@ + label_params(tv.fn_params, tv.fn_param_effects, with_effects, i as int),
            decreases t.fn_params.len() - i,
        {
            if i > 0 {
                append(&mut base, ", ");
            }
            if with_effects {
                let e = match t.effective_fn_param_effect(i) {
                    Some(e) => e,
                    None => DataEffect::Read,
                };
                append(&mut base, e.as_str());
                append(&mut base, " ");
            }
            proof {
                assert(decreases_to!(*t => t.fn_params@[i as int]));
            }
            let p = type_label(&t.fn_params[i], with_effects);
            append(&mut base, p.as_str());
            i += 1;
        }
        append(&mut base, ")");
        match &t.fn_return {
            Some(ret) => {
                append(&mut base, " -> ");
                let rr = type_label(ret, with_effects);
                append(&mut base, rr.as_str());
            },
            None => {},
        }
        assert(base@ == label_base(tv, with_effects));
    } else if t.args.len() == 0 {
        base = t.name.clone();
    } else {
        base = t.name.clone();
        append(&mut base, "<");
        let mut i: usize = 0;
        while i < t.args.len()
            invariant
                tv == tview(*t),
                i <= t.args@.len(),
                tv.args.len() == t.args@.len(),
                t.args@.len() > 0,
                forall|j: int| 0 <= j < t.args@.len() ==> #[trigger] tv.args[j] == tview(t.args@[j]),
                base@ == t.name@ + "<"@ + label_list(tv.args, with_effects, i as int),
            decreases t.args.len() - i,
        {
            if i > 0 {
                append(&mut base, ", ");
            }
            proof {
                assert(decreases_to!(*t => t.args@[i as int]));
            }
            let a = type_label(&t.args[i], with_effects);
            append(&mut base, a.as_str());
            i += 1;
        }
        append(&mut base, ">");
    }
    assert(base@ == label_base(tv, with_effects));
    let mut out = base;
    if t.is_noescape {
        let mut s = "noescape ".to_owned();
        append(&mut s, out.as_str());
        out = s;
    } else if t.is_owned {
        let mut s = "owned ".to_owned();
        append(&mut s, out.as_str());
        out = s;
    }
    if t.is_fresh {
        let mut s = "fresh ".to_owned();
        append(&mut s, out.as_str());
        out = s;
    }
    out
}

/// The name of a type as the analyzer's messages show it.
pub fn type_ref_name(t: &TypeRef) -> (r: String)
    ensures
        r@ == type_name_text(tview(*t)),
{
    type_label(t, true)
}

/// The name of a type as the call and `?` checks show it.
pub fn plain_type_ref_name(t: &TypeRef) -> (r: String)
    ensures
        r@ == plain_type_name_text(tview(*t)),
{
    type_label(t, false)
}

/// The error type of a `Result<T, E>` return type, by name.
pub fn result_error_type_ref_name(return_ty: &TypeRef) -> (r: Option<String>)
    ensures
        match r {
            Some(n) => return_ty.name@ == "Result"@ && return_ty.args@.len() == 2 && n@ == plain_type_name_text(
                tview(return_ty.args@[1]),
            ),
            None => !(return_ty.name@ == "Result"@ && return_ty.args@.len() == 2),
        },
{
    if !str_eq(return_ty.name.as_str(), "Result") || return_ty.args.len() != 2 {
        return None;
    }
    Some(plain_type_ref_name(&return_ty.args[1]))
}

} // verus!
