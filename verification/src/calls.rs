//! How calls, callees and types are named in messages, and the small
//! type-name queries the call checks ask.
use vstd::prelude::*;
use crate::ast::{Callee, DataEffect, Expr, TypeRef};
use crate::chars::{chars_of, is_ws, str_eq, string_of, strip_prefix, strip_prefix_chars, trim, trimmed};
use crate::types::{append, lemma_tviews, tview, tviews, TypeView};
use crate::typestr::{fn_type_params, fn_type_params_chars, type_args, type_args_chars, type_root, type_root_chars, views};

verus! {

/// std's `Debug` rendering of a string: the text between double quotes with
/// quotes, backslashes and control characters escaped.
pub uninterp spec fn debug_quoted(s: Seq<char>) -> Seq<char>;

/// Renders `value` the way `{:?}` renders a string (std `<str as Debug>`).
#[verifier::external_body]
fn debug_string(value: &str) -> (r: String)
    ensures
        r@ == debug_quoted(value@),
{
    format!("{value:?}")
}

/// The name a call is made by: the function, or the method.
pub open spec fn callee_name_text(c: Callee) -> Seq<char> {
    match c {
        Callee::Name(name) => name@,
        Callee::Qualified { name, .. } => name@,
        Callee::ReceiverCall { method, .. } => method@,
    }
}

pub fn callee_name(callee: &Callee) -> (r: String)
    ensures
        r@ == callee_name_text(*callee),
{
    match callee {
        Callee::Name(name) => name.clone(),
        Callee::Qualified { name, .. } => name.clone(),
        Callee::ReceiverCall { method, .. } => method.clone(),
    }
}

/// How a callee is shown: `name`, `namespace.name`, or, for a method call,
/// the receiver's effect (`read` when none is written), its label and the
/// method.
pub open spec fn callee_text(c: Callee) -> Seq<char>
    decreases c, 0nat,
{
    match c {
        Callee::Name(name) => name@,
        Callee::Qualified { namespace, name } => namespace@ + "."@ + name@,
        Callee::ReceiverCall { receiver, method, effect } => {
            let e = match effect {
                Some(x) => x,
                None => DataEffect::Read,
            };
            e.spec_text() + " "@ + expr_label(*receiver) + "."@ + method@
        },
    }
}

/// How an expression is shown in a call message: names and member paths
/// as written, string literals quoted, calls as `callee()`, anything else
/// as `<expr>`.
pub open spec fn expr_label(e: Expr) -> Seq<char>
    decreases e, 0nat,
{
    match e {
        Expr::Ident(name, _) => name@,
        Expr::String(v, _) => debug_quoted(v@),
        Expr::CharLiteral(v, _) => debug_quoted(v@),
        Expr::MultilineString(v, _) => debug_quoted(v@),
        Expr::Field { base, name, .. } => expr_label(*base) + "."@ + name@,
        Expr::Index { base, .. } => expr_label(*base) + "[]"@,
        Expr::Call { callee, .. } => callee_text(callee) + "()"@,
        Expr::Effect { value, .. } => expr_label(*value),
        Expr::Manage { value, .. } => expr_label(*value),
        Expr::Try { value, .. } => expr_label(*value),
        _ => "<expr>"@,
    }
}

pub fn callee_display(callee: &Callee) -> (r: String)
    ensures
        r@ == callee_text(*callee),
    decreases callee,
{
    match callee {
        Callee::Name(name) => name.clone(),
        Callee::Qualified { namespace, name } => {
            let mut s = namespace.clone();
            append(&mut s, ".");
            append(&mut s, name.as_str());
            s
        },
        Callee::ReceiverCall { receiver, method, effect } => {
            let e = match effect {
                Some(x) => *x,
                None => DataEffect::Read,
            };
            let mut s = e.as_str().to_owned();
            append(&mut s, " ");
            let l = call_expr_label(receiver);
            append(&mut s, l.as_str());
            append(&mut s, ".");
            append(&mut s, method.as_str());
            s
        },
    }
}

pub fn call_expr_label(expr: &Expr) -> (r: String)
    ensures
        r@ == expr_label(*expr),
    decreases expr,
{
    match expr {
        Expr::Ident(name, _) => name.clone(),
        Expr::String(v, _) => debug_string(v.as_str()),
        Expr::CharLiteral(v, _) => debug_string(v.as_str()),
        Expr::MultilineString(v, _) => debug_string(v.as_str()),
        Expr::Field { base, name, .. } => {
            let mut s = call_expr_label(base);
            append(&mut s, ".");
            append(&mut s, name.as_str());
            s
        },
        Expr::Index { base, .. } => {
            let mut s = call_expr_label(base);
            append(&mut s, "[]");
            s
        },
        Expr::Call { callee, .. } => {
            let mut s = callee_display(callee);
            append(&mut s, "()");
            s
        },
        Expr::Effect { value, .. } => call_expr_label(value),
        Expr::Manage { value, .. } => call_expr_label(value),
        Expr::Try { value, .. } => call_expr_label(value),
        _ => "<expr>".to_owned(),
    }
}

/// The callee shown in body messages; the same text as `callee_display`.
pub fn body_callee_display(callee: &Callee) -> (r: String)
    ensures
        r@ == callee_text(*callee),
{
    callee_display(callee)
}

/// The expression shown in body messages; the same text as
/// `call_expr_label`.
pub fn body_expr_label(expr: &Expr) -> (r: String)
    ensures
        r@ == expr_label(*expr),
{
    call_expr_label(expr)
}

/// The builtin sum a bare constructor call builds: `Option<?>` for `Some`
/// and `None`, `Result<?>` for `Ok` and `Err`.
pub open spec fn enum_variant_type(c: Callee) -> Option<Seq<char>> {
    let n = callee_name_text(c);
    if n == "Some"@ || n == "None"@ {
        Some("Option<?>"@)
    } else if n == "Ok"@ || n == "Err"@ {
        Some("Result<?>"@)
    } else {
        None
    }
}

pub fn enum_variant_type_name(callee: &Callee) -> (r: Option<&'static str>)
    ensures
        match enum_variant_type(*callee) {
            Some(t) => r is Some && r->0@ == t,
            None => r is None,
        },
{
    let n = callee_name(callee);
    let n = n.as_str();
    if str_eq(n, "Some") || str_eq(n, "None") {
        Some("Option<?>")
    } else if str_eq(n, "Ok") || str_eq(n, "Err") {
        Some("Result<?>")
    } else {
        None
    }
}

fn root_name(ty_name: &str) -> (r: String)
    ensures
        r@ == type_root(ty_name@),
{
    let v = chars_of(ty_name);
    let rv = type_root_chars(v.as_slice());
    string_of(rv.as_slice())
}

pub fn is_result_type_name(ty_name: &str) -> (r: bool)
    ensures
        r == (type_root(ty_name@) == "Result"@),
{
    let root = root_name(ty_name);
    str_eq(root.as_str(), "Result")
}

pub fn is_option_type_name(ty_name: &str) -> (r: bool)
    ensures
        r == (type_root(ty_name@) == "Option"@),
{
    let root = root_name(ty_name);
    str_eq(root.as_str(), "Option")
}

/// The protocol of a `Dyn<P>.from(..)` call.
pub open spec fn dyn_protocol(c: Callee) -> Option<Seq<char>> {
    match c {
        Callee::Qualified { namespace, name } => if type_root(namespace@) == "Dyn"@ && type_root(name@) == "from"@ {
            match type_args(namespace@) {
                Some(args) => if args.len() > 0 {
                    Some(args[0])
                } else {
                    None
                },
                None => None,
            }
        } else {
            None
        },
        _ => None,
    }
}

pub fn dyn_from_protocol(callee: &Callee) -> (r: Option<String>)
    ensures
        match dyn_protocol(*callee) {
            Some(p) => r is Some && r->0@ == p,
            None => r is None,
        },
{
    match callee {
        Callee::Qualified { namespace, name } => {
            let ns_root = root_name(namespace.as_str());
            let name_root = root_name(name.as_str());
            if !str_eq(ns_root.as_str(), "Dyn") || !str_eq(name_root.as_str(), "from") {
                return None;
            }
            let v = chars_of(namespace.as_str());
            match type_args_chars(v.as_slice()) {
                Some(args) => {
                    if args.len() > 0 {
                        assert(views(args@)[0] == args@[0]@);
                        Some(string_of(args[0].as_slice()))
                    } else {
                        None
                    }
                },
                None => None,
            }
        },
        _ => None,
    }
}

pub open spec fn callee_type_args(c: Callee) -> Option<Seq<Seq<char>>> {
    match c {
        Callee::Name(name) => type_args(name@),
        Callee::Qualified { name, .. } => type_args(name@),
        Callee::ReceiverCall { method, .. } => type_args(method@),
    }
}

fn strings_of(v: &Vec<Vec<char>>) -> (r: Vec<String>)
    ensures
        r@.map_values(|s: String| s@) == views(v@),
{
    let mut r: Vec<String> = Vec::new();
    let mut i: usize = 0;
    while i < v.len()
        invariant
            i <= v@.len(),
            r@.len() == i,
            forall|j: int| 0 <= j < i ==> #[trigger] r@[j]@ == v@[j]@,
        decreases v.len() - i,
    {
        r.push(string_of(v[i].as_slice()));
        i += 1;
    }
    assert(r@.map_values(|s: String| s@) =~= views(v@));
    r
}

/// The type arguments written on a callee's name: `make<Int>` gives `Int`.
pub fn explicit_callee_type_args(callee: &Callee) -> (r: Option<Vec<String>>)
    ensures
        match callee_type_args(*callee) {
            Some(args) => r is Some && r->0@.map_values(|s: String| s@) == args,
            None => r is None,
        },
{
    let name = match callee {
        Callee::Name(name) => name,
        Callee::Qualified { name, .. } => name,
        Callee::ReceiverCall { method, .. } => method,
    };
    let v = chars_of(name.as_str());
    match type_args_chars(v.as_slice()) {
        Some(args) => Some(strings_of(&args)),
        None => None,
    }
}

/// The type a `fresh` return promises: the payload of a `Result` or
/// `Option`, else the return type itself.
pub open spec fn fresh_target_view(t: TypeView) -> TypeView {
    if (t.name == "Result"@ || t.name == "Option"@) && t.args.len() > 0 {
        t.args[0]
    } else {
        t
    }
}

pub fn fresh_return_target_type(return_ty: &TypeRef) -> (r: &TypeRef)
    ensures
        tview(*r) == fresh_target_view(tview(*return_ty)),
{
    proof {
        lemma_tviews(return_ty.args@);
    }
    if (str_eq(return_ty.name.as_str(), "Result") || str_eq(return_ty.name.as_str(), "Option"))
        && return_ty.args.len() > 0 {
        &return_ty.args[0]
    } else {
        return_ty
    }
}

/// The first whitespace-separated word of `s`.
pub open spec fn first_word(s: Seq<char>) -> Seq<char> {
    let t = crate::chars::trim_start(s);
    t.take(word_end(t, 0))
}

pub open spec fn word_end(s: Seq<char>, i: int) -> int
    decreases s.len() - i,
{
    if 0 <= i < s.len() && !is_ws(s[i]) {
        word_end(s, i + 1)
    } else {
        i
    }
}

/// The effect a `Fn` parameter slice starts with.
pub open spec fn param_effect(p: Seq<char>) -> Option<DataEffect> {
    let w = first_word(p);
    if w == "read"@ {
        Some(DataEffect::Read)
    } else if w == "mut"@ {
        Some(DataEffect::Mut)
    } else if w == "take"@ {
        Some(DataEffect::Take)
    } else {
        None
    }
}

fn first_word_chars(p: &Vec<char>) -> (r: Vec<char>)
    ensures
        r@ == first_word(p@),
{
    let k = crate::chars::skip_ws(p.as_slice(), 0);
    assert(p@.skip(0) == p@);
    let mut j = k;
    while j < p.len() && !crate::chars::char_is_ws(p[j])
        invariant
            k <= j <= p@.len(),
            word_end(p@.skip(k as int), 0) == word_end(p@.skip(k as int), (j - k) as int),
        decreases p.len() - j,
    {
        assert(p@.skip(k as int)[(j - k) as int] == p@[j as int]);
        j += 1;
    }
    if j < p.len() {
        assert(p@.skip(k as int)[(j - k) as int] == p@[j as int]);
    }
    let r = crate::chars::slice_range(p.as_slice(), k, j);
    assert(p@.skip(k as int).take((j - k) as int) =~= p@.subrange(k as int, j as int));
    r
}

/// The declared effect of each parameter of a `Fn(...)` type name; none for
/// a name that is not a function type.
pub fn fn_type_param_effects(ty_name: &str) -> (r: Vec<Option<DataEffect>>)
    ensures
        r@ == (match fn_type_params(ty_name@) {
            Some(ps) => ps.map_values(|p: Seq<char>| param_effect(p)),
            None => seq![],
        }),
{
    let v = chars_of(ty_name);
    let mut r: Vec<Option<DataEffect>> = Vec::new();
    match fn_type_params_chars(v.as_slice()) {
        Some(ps) => {
            let ghost pv = views(ps@);
            let mut i: usize = 0;
            while i < ps.len()
                invariant
                    pv == views(ps@),
                    i <= ps@.len(),
                    r@.len() == i,
                    forall|j: int| 0 <= j < i ==> #[trigger] r@[j] == param_effect(pv[j]),
                decreases ps.len() - i,
            {
                let w = first_word_chars(&ps[i]);
                let ws = string_of(w.as_slice());
                let e = if str_eq(ws.as_str(), "read") {
                    Some(DataEffect::Read)
                } else if str_eq(ws.as_str(), "mut") {
                    Some(DataEffect::Mut)
                } else if str_eq(ws.as_str(), "take") {
                    Some(DataEffect::Take)
                } else {
                    None
                };
                assert(pv[i as int] == ps@[i as int]@);
                r.push(e);
                i += 1;
            }
            assert(r@ =~= pv.map_values(|p: Seq<char>| param_effect(p)));
        },
        None => {
            assert(r@ =~= Seq::<Option<DataEffect>>::empty());
        },
    }
    r
}

/// A parameter slice without its effect keyword, trimmed.
pub open spec fn bare_param(p: Seq<char>) -> Seq<char> {
    let t = trim(p);
    let bare = match strip_prefix(t, "read "@) {
        Some(r) => r,
        None => match strip_prefix(t, "mut "@) {
            Some(r) => r,
            None => match strip_prefix(t, "take "@) {
                Some(r) => r,
                None => t,
            },
        },
    };
    trim(bare)
}

/// The bare type of parameter `index` of a `Fn(...)` type name.
pub fn fn_type_param_type_name(ty_name: &str, index: usize) -> (r: Option<String>)
    ensures
        match fn_type_params(ty_name@) {
            Some(ps) => if index < ps.len() {
                r is Some && r->0@ == bare_param(ps[index as int])
            } else {
                r is None
            },
            None => r is None,
        },
{
    let v = chars_of(ty_name);
    let ps = match fn_type_params_chars(v.as_slice()) {
        Some(ps) => ps,
        None => return None,
    };
    if index >= ps.len() {
        return None;
    }
    assert(views(ps@)[index as int] == ps@[index as int]@);
    let t = trimmed(ps[index].as_slice());
    let bare = match strip_prefix_chars(&t, &chars_of("read ")) {
        Some(r) => r,
        None => match strip_prefix_chars(&t, &chars_of("mut ")) {
            Some(r) => r,
            None => match strip_prefix_chars(&t, &chars_of("take ")) {
                Some(r) => r,
                None => t,
            },
        },
    };
    let b = trimmed(bare.as_slice());
    Some(string_of(b.as_slice()))
}

} // verus!
