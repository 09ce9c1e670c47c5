//! Binding the arguments of a call to the parameters of the resolved
//! signature: which parameter each argument fills (by name, by
//! constructor-field shorthand or by position), and the facts about
//! parameters and arguments the argument rules are then checked over.
use vstd::prelude::*;
use crate::aliases::strs;
use crate::ast::{DataEffect, Span};
use crate::chars::str_eq;
use crate::types::clone_span;

verus! {

/// A parameter of a resolved signature.
pub struct SignatureParam {
    pub name: String,
    pub effect: Option<DataEffect>,
}

/// A resolved signature.
pub struct CallSignature {
    pub params: Vec<SignatureParam>,
    pub is_public: bool,
}

/// What a resolved callee is.
#[derive(Clone, Copy, Debug, PartialEq, Eq, Structural)]
pub enum ResolvedKind {
    UserFunction,
    Constructor,
    Other,
}

/// How the callee of a call resolved.
pub enum CallResolution {
    Resolved { kind: ResolvedKind, signature: CallSignature },
    Unknown,
    Ambiguous { candidates: Vec<String> },
    EnumVariant,
}

/// An argument of a call.
pub struct CallArgument {
    /// The written argument name, if any.
    pub name: Option<String>,
    /// The parameter the resolver bound the argument to, if any.
    pub parameter_index: Option<usize>,
    /// The name when the argument's value is a bare identifier.
    pub ident: Option<String>,
    /// The data effect written on the value, if any.
    pub effect: Option<DataEffect>,
    pub span: Span,
    pub value_span: Span,
}

/// What the argument rules know of a parameter.
#[derive(Debug)]
pub struct ParameterFact {
    pub accepts_argument: bool,
    pub required: bool,
    pub name: String,
    pub effect: Option<DataEffect>,
}

/// What the argument rules know of an argument.
#[derive(Debug)]
pub struct ArgumentFact {
    pub explicit_name: bool,
    pub resolved_name: Option<String>,
    pub span: Span,
    pub value_span: Span,
    pub constructor_shorthand: bool,
    pub effect: Option<DataEffect>,
}

/// The outcome of binding a call's arguments.
#[derive(Debug)]
pub enum CallBinding {
    /// A variant construction, checked by the variant rules.
    EnumVariant,
    /// The callee did not resolve.
    UnknownCallee,
    /// The receiver call matched several candidates.
    AmbiguousCallee { candidates: Vec<String> },
    /// The arguments bound against the resolved signature.
    Bound { allow_positional_args: bool, parameters: Vec<ParameterFact>, arguments: Vec<ArgumentFact> },
}

pub open spec fn opt_str(o: Option<String>) -> Option<Seq<char>> {
    match o {
        Some(s) => Some(s@),
        None => None,
    }
}

pub type ParamFactView = (bool, bool, Seq<char>, Option<DataEffect>);

pub type ArgFactView = (bool, Option<Seq<char>>, Span, Span, bool, Option<DataEffect>);

pub open spec fn param_fact_view(f: ParameterFact) -> ParamFactView {
    (f.accepts_argument, f.required, f.name@, f.effect)
}

pub open spec fn arg_fact_view(f: ArgumentFact) -> ArgFactView {
    (f.explicit_name, opt_str(f.resolved_name), f.span, f.value_span, f.constructor_shorthand, f.effect)
}

/// The abstract value of a binding outcome.
pub enum BindingView {
    EnumVariant,
    UnknownCallee,
    AmbiguousCallee(Seq<Seq<char>>),
    Bound(bool, Seq<ParamFactView>, Seq<ArgFactView>),
}

pub open spec fn binding_view(b: CallBinding) -> BindingView {
    match b {
        CallBinding::EnumVariant => BindingView::EnumVariant,
        CallBinding::UnknownCallee => BindingView::UnknownCallee,
        CallBinding::AmbiguousCallee { candidates } => BindingView::AmbiguousCallee(strs(candidates@)),
        CallBinding::Bound { allow_positional_args, parameters, arguments } => BindingView::Bound(
            allow_positional_args,
            parameters@.map_values(|f: ParameterFact| param_fact_view(f)),
            arguments@.map_values(|f: ArgumentFact| arg_fact_view(f)),
        ),
    }
}

pub open spec fn param_names(ps: Seq<SignatureParam>) -> Seq<Seq<char>> {
    ps.map_values(|p: SignatureParam| p.name@)
}

/// The parameters an argument list fills: for a receiver call the receiver
/// slot is supplied by the receiver and is not among them.
pub open spec fn argument_params(sig: CallSignature, is_receiver_call: bool) -> Seq<SignatureParam> {
    if is_receiver_call && sig.params@.len() > 0 {
        sig.params@.drop_first()
    } else if is_receiver_call {
        seq![]
    } else {
        sig.params@
    }
}

/// An unnamed bare-identifier argument of a constructor names the field of
/// the same name, when there is one.
pub open spec fn shorthand_name(allow: bool, arg: CallArgument, params: Seq<SignatureParam>) -> Option<Seq<char>> {
    if !allow || arg.name is Some {
        None
    } else {
        match arg.ident {
            Some(n) => if param_names(params).contains(n@) {
                Some(n@)
            } else {
                None
            },
            None => None,
        }
    }
}

/// The parameter the argument at `index` fills: the one the resolver bound
/// it to, when the argument is named, positional arguments are allowed or it
/// is a constructor shorthand; else its written name, its shorthand name, or
/// (when positional arguments are allowed) the parameter at its position.
pub open spec fn resolved_name(
    sig: CallSignature,
    is_receiver_call: bool,
    allow_positional: bool,
    allow_shorthand: bool,
    arg: CallArgument,
    index: int,
) -> Option<Seq<char>> {
    let params = argument_params(sig, is_receiver_call);
    let shorthand = shorthand_name(allow_shorthand, arg, params);
    let applicable = arg.name is Some || allow_positional || shorthand is Some;
    match arg.parameter_index {
        Some(pi) if applicable && pi < sig.params@.len() => Some(sig.params@[pi as int].name@),
        _ => match arg.name {
            Some(n) => Some(n@),
            None => match shorthand {
                Some(s) => Some(s),
                None => if allow_positional && 0 <= index < params.len() {
                    Some(params[index].name@)
                } else {
                    None
                },
            },
        },
    }
}

pub open spec fn parameter_fact(p: SignatureParam, index: int, is_receiver_call: bool) -> ParamFactView {
    (!is_receiver_call || index != 0, !is_receiver_call || index != 0, p.name@, p.effect)
}

pub open spec fn argument_fact(
    sig: CallSignature,
    is_receiver_call: bool,
    allow_positional: bool,
    allow_shorthand: bool,
    arg: CallArgument,
    index: int,
) -> ArgFactView {
    (
        arg.name is Some,
        resolved_name(sig, is_receiver_call, allow_positional, allow_shorthand, arg, index),
        arg.span,
        arg.value_span,
        shorthand_name(allow_shorthand, arg, argument_params(sig, is_receiver_call)) is Some,
        arg.effect,
    )
}

/// How the arguments of a call bind. Positional arguments are allowed for a
/// receiver call and for a call of a private user function; the
/// constructor-field shorthand only for a constructor.
pub open spec fn call_binding(is_receiver_call: bool, res: CallResolution, args: Seq<CallArgument>) -> BindingView {
    match res {
        CallResolution::EnumVariant => BindingView::EnumVariant,
        CallResolution::Unknown => BindingView::UnknownCallee,
        CallResolution::Ambiguous { candidates } => BindingView::AmbiguousCallee(strs(candidates@)),
        CallResolution::Resolved { kind, signature } => {
            let allow_positional = is_receiver_call || (kind == ResolvedKind::UserFunction && !signature.is_public);
            let allow_shorthand = kind == ResolvedKind::Constructor;
            BindingView::Bound(
                allow_positional,
                Seq::new(
                    signature.params@.len(),
                    |i: int| parameter_fact(signature.params@[i], i, is_receiver_call),
                ),
                Seq::new(
                    args.len(),
                    |i: int| argument_fact(signature, is_receiver_call, allow_positional, allow_shorthand, args[i], i),
                ),
            )
        },
    }
}

fn clone_strings(v: &Vec<String>) -> (r: Vec<String>)
    ensures
        strs(r@) == strs(v@),
{
    let mut r: Vec<String> = Vec::new();
    let mut i: usize = 0;
    while i < v.len()
        invariant
            i <= v@.len(),
            strs(r@) == strs(v@.take(i as int)),
        decreases v.len() - i,
    {
        let c = v[i].clone();
        assert(c@ == v@[i as int]@);
        let ghost before = r@;
        r.push(c);
        assert(v@.take(i + 1) == v@.take(i as int).push(v@[i as int]));
        assert(strs(r@) =~= strs(before).push(c@));
        assert(strs(v@.take(i + 1)) =~= strs(v@.take(i as int)).push(v@[i as int]@));
        i += 1;
    }
    assert(v@.take(v@.len() as int) == v@);
    r
}

/// Whether one of the argument parameters is named `n`.
fn names_param(sig: &CallSignature, is_receiver_call: bool, n: &str) -> (r: bool)
    ensures
        r == param_names(argument_params(*sig, is_receiver_call)).contains(n@),
{
    let ghost ps = argument_params(*sig, is_receiver_call);
    let start: usize = if is_receiver_call { 1 } else { 0 };
    let mut i: usize = start;
    while i < sig.params.len()
        invariant
            start <= i <= sig.params@.len() || (start == 1 && sig.params@.len() == 0),
            start == (if is_receiver_call { 1usize } else { 0usize }),
            ps == argument_params(*sig, is_receiver_call),
            forall|j: int| start <= j < i ==> sig.params@[j].name@ != n@,
        decreases sig.params.len() - i,
    {
        if str_eq(sig.params[i].name.as_str(), n) {
            assert(param_names(ps)[i - start] == n@);
            return true;
        }
        i += 1;
    }
    assert forall|j: int| 0 <= j < param_names(ps).len() implies param_names(ps)[j] != n@ by {
        assert(ps[j] == sig.params@[j + start]);
    }
    false
}

fn shorthand_exec(allow: bool, arg: &CallArgument, sig: &CallSignature, is_receiver_call: bool) -> (r: Option<String>)
    ensures
        opt_str(r) == shorthand_name(allow, *arg, argument_params(*sig, is_receiver_call)),
{
    if !allow || arg.name.is_some() {
        return None;
    }
    match &arg.ident {
        Some(n) => if names_param(sig, is_receiver_call, n.as_str()) {
            Some(n.clone())
        } else {
            None
        },
        None => None,
    }
}

fn resolved_name_exec(
    sig: &CallSignature,
    is_receiver_call: bool,
    allow_positional: bool,
    allow_shorthand: bool,
    arg: &CallArgument,
    index: usize,
) -> (r: Option<String>)
    ensures
        opt_str(r) == resolved_name(*sig, is_receiver_call, allow_positional, allow_shorthand, *arg, index as int),
{
    let shorthand = shorthand_exec(allow_shorthand, arg, sig, is_receiver_call);
    let applicable = arg.name.is_some() || allow_positional || shorthand.is_some();
    match arg.parameter_index {
        Some(pi) => {
            if applicable && pi < sig.params.len() {
                return Some(sig.params[pi].name.clone());
            }
        },
        None => {},
    }
    match &arg.name {
        Some(n) => return Some(n.clone()),
        None => {},
    }
    match shorthand {
        Some(s) => return Some(s),
        None => {},
    }
    let ghost ps = argument_params(*sig, is_receiver_call);
    assert(ps.len() == if is_receiver_call && sig.params@.len() > 0 {
        sig.params@.len() - 1
    } else if is_receiver_call {
        0
    } else {
        sig.params@.len() as int
    });
    let n = sig.params.len();
    let ps_len: usize = if is_receiver_call {
        if n > 0 { n - 1 } else { 0 }
    } else {
        n
    };
    if allow_positional && index < ps_len {
        let p = if is_receiver_call { index + 1 } else { index };
        assert(ps[index as int] == sig.params@[p as int]);
        return Some(sig.params[p].name.clone());
    }
    None
}

/// Binds the arguments `args` of a call, receiver call or not, whose callee
/// resolved as `resolution`.
pub fn bind_call_arguments(is_receiver_call: bool, resolution: &CallResolution, args: &Vec<CallArgument>) -> (r: CallBinding)
    ensures
        binding_view(r) == call_binding(is_receiver_call, *resolution, args@),
{
    match resolution {
        CallResolution::EnumVariant => CallBinding::EnumVariant,
        CallResolution::Unknown => CallBinding::UnknownCallee,
        CallResolution::Ambiguous { candidates } => CallBinding::AmbiguousCallee { candidates: clone_strings(candidates) },
        CallResolution::Resolved { kind, signature } => {
            let allow_positional = is_receiver_call || (*kind == ResolvedKind::UserFunction && !signature.is_public);
            let allow_shorthand = *kind == ResolvedKind::Constructor;
            let mut parameters: Vec<ParameterFact> = Vec::new();
            let mut i: usize = 0;
            while i < signature.params.len()
                invariant
                    i <= signature.params@.len(),
                    parameters@.len() == i,
                    forall|j: int| 0 <= j < i ==> param_fact_view(#[trigger] parameters@[j]) == parameter_fact(
                        signature.params@[j],
                        j,
                        is_receiver_call,
                    ),
                decreases signature.params.len() - i,
            {
                let p = &signature.params[i];
                let accepts = !is_receiver_call || i != 0;
                parameters.push(ParameterFact {
                    accepts_argument: accepts,
                    required: accepts,
                    name: p.name.clone(),
                    effect: p.effect,
                });
                i += 1;
            }
            let mut arguments: Vec<ArgumentFact> = Vec::new();
            let mut k: usize = 0;
            while k < args.len()
                invariant
                    k <= args@.len(),
                    arguments@.len() == k,
                    allow_positional == (is_receiver_call || (*kind == ResolvedKind::UserFunction && !signature.is_public)),
                    allow_shorthand == (*kind == ResolvedKind::Constructor),
                    forall|j: int| 0 <= j < k ==> arg_fact_view(#[trigger] arguments@[j]) == argument_fact(
                        *signature,
                        is_receiver_call,
                        allow_positional,
                        allow_shorthand,
                        args@[j],
                        j,
                    ),
                decreases args.len() - k,
            {
                let a = &args[k];
                let resolved = resolved_name_exec(signature, is_receiver_call, allow_positional, allow_shorthand, a, k);
                let shorthand = shorthand_exec(allow_shorthand, a, signature, is_receiver_call);
                arguments.push(ArgumentFact {
                    explicit_name: a.name.is_some(),
                    resolved_name: resolved,
                    span: clone_span(&a.span),
                    value_span: clone_span(&a.value_span),
                    constructor_shorthand: shorthand.is_some(),
                    effect: a.effect,
                });
                k += 1;
            }
            assert(parameters@.map_values(|f: ParameterFact| param_fact_view(f)) =~= Seq::new(
                signature.params@.len(),
                |i: int| parameter_fact(signature.params@[i], i, is_receiver_call),
            ));
            assert(arguments@.map_values(|f: ArgumentFact| arg_fact_view(f)) =~= Seq::new(
                args@.len(),
                |i: int| argument_fact(*signature, is_receiver_call, allow_positional, allow_shorthand, args@[i], i),
            ));
            let r = CallBinding::Bound { allow_positional_args: allow_positional, parameters, arguments };
            assert(binding_view(r) == call_binding(is_receiver_call, *resolution, args@));
            r
        },
    }
}

} // verus!
