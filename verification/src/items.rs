//! Queries over declarations and patterns: which functions implement a
//! protocol, which file an item comes from, and which match patterns
//! constrain nothing.
use vstd::prelude::*;
use crate::aliases::strs;
use crate::ast::{FieldPattern, FunctionDecl, Item, MatchPattern, Program, ProtocolImpl, Span};
use crate::chars::str_eq;
use crate::derives::{contains_name, has_name};
use crate::names::{split_qualified, split_qualified_name};

verus! {

/// The methods the items declare for `protocol`: functions named
/// `protocol.method`, in order.
pub open spec fn protocol_methods(items: Seq<Item>, protocol: Seq<char>) -> Seq<Seq<char>>
    decreases items.len(),
{
    if items.len() == 0 {
        seq![]
    } else {
        let rest = protocol_methods(items.drop_last(), protocol);
        match items.last() {
            Item::Function(f) => {
                let (ns, method) = split_qualified(f.name@);
                if ns == Some(protocol) {
                    rest.push(method)
                } else {
                    rest
                }
            },
            _ => rest,
        }
    }
}

pub fn protocol_method_names(items: &Vec<Item>, protocol: &str) -> (r: Vec<String>)
    ensures
        strs(r@) == protocol_methods(items@, protocol@),
{
    let mut r: Vec<String> = Vec::new();
    let mut i: usize = 0;
    while i < items.len()
        invariant
            i <= items@.len(),
            strs(r@) == protocol_methods(items@.take(i as int), protocol@),
        decreases items.len() - i,
    {
        assert(items@.take(i + 1).drop_last() == items@.take(i as int));
        match &items[i] {
            Item::Function(f) => {
                let (ns, method) = split_qualified_name(f.name.as_str());
                match ns {
                    Some(n) => {
                        if str_eq(n.as_str(), protocol) {
                            let ghost before = r@;
                            r.push(method);
                            assert(strs(r@) =~= strs(before).push(r@.last()@));
                        }
                    },
                    None => {},
                }
            },
            _ => {},
        }
        i += 1;
    }
    assert(items@.take(items@.len() as int) == items@);
    r
}

/// Whether a function is named `P.method` for one of the protocols.
pub open spec fn belongs_to_protocol(f: FunctionDecl, protocols: Seq<Seq<char>>) -> bool {
    match split_qualified(f.name@).0 {
        Some(ns) => has_name(protocols, ns),
        None => false,
    }
}

pub fn function_belongs_to_protocol(function: &FunctionDecl, protocol_names: &Vec<String>) -> (r: bool)
    ensures
        r == belongs_to_protocol(*function, strs(protocol_names@)),
{
    let (ns, _) = split_qualified_name(function.name.as_str());
    match ns {
        Some(n) => contains_name(protocol_names, n.as_str()),
        None => false,
    }
}

/// Whether a function gives a protocol method a default body.
pub fn function_body_belongs_to_protocol(function: &FunctionDecl, protocol_names: &Vec<String>) -> (r: bool)
    ensures
        r == (function.body.statements@.len() > 0 && belongs_to_protocol(*function, strs(protocol_names@))),
{
    function.body.statements.len() > 0 && function_belongs_to_protocol(function, protocol_names)
}

/// A match over `Option` or `Result` covers every case once both of its
/// constructors are matched.
pub open spec fn builtin_exhaustive(variants: Seq<Seq<char>>) -> bool {
    (has_name(variants, "Some"@) && has_name(variants, "None"@)) || (has_name(variants, "Ok"@) && has_name(
        variants,
        "Err"@,
    ))
}

pub fn builtin_match_is_exhaustive(variants: &Vec<String>) -> (r: bool)
    ensures
        r == builtin_exhaustive(strs(variants@)),
{
    (contains_name(variants, "Some") && contains_name(variants, "None")) || (contains_name(variants, "Ok")
        && contains_name(variants, "Err"))
}

/// A binding or `_`.
pub open spec fn is_catch_all(p: MatchPattern) -> bool {
    p is Binding || p is Wildcard
}

/// Whether a constructor pattern matches every value of its constructor:
/// every payload position is a binding or `_`, and a list pattern is `[..]`
/// or `[..rest]`.
pub open spec fn irrefutable(p: MatchPattern) -> bool {
    match p {
        MatchPattern::Binding { .. } => true,
        MatchPattern::Wildcard(_) => true,
        MatchPattern::Variant { bindings, .. } => forall|i: int| 0 <= i < bindings@.len() ==> is_catch_all(#[trigger] bindings@[i]),
        MatchPattern::Struct { fields, .. } => forall|i: int|
            0 <= i < fields@.len() ==> match #[trigger] fields@[i].pattern {
                Some(b) => is_catch_all(*b),
                None => true,
            },
        MatchPattern::List { prefix, rest, suffix, .. } => prefix@.len() == 0 && suffix@.len() == 0 && rest is Some,
        MatchPattern::Literal { .. } => false,
    }
}

fn pattern_is_catch_all(p: &MatchPattern) -> (r: bool)
    ensures
        r == is_catch_all(*p),
{
    match p {
        MatchPattern::Binding { .. } => true,
        MatchPattern::Wildcard(_) => true,
        _ => false,
    }
}

#[verifier::loop_isolation(false)]
pub fn constructor_pattern_is_irrefutable(pattern: &MatchPattern) -> (r: bool)
    ensures
        r == irrefutable(*pattern),
{
    match pattern {
        MatchPattern::Binding { .. } => true,
        MatchPattern::Wildcard(_) => true,
        MatchPattern::Variant { bindings, .. } => {
            let mut i: usize = 0;
            while i < bindings.len()
                invariant
                    i <= bindings@.len(),
                    forall|j: int| 0 <= j < i ==> is_catch_all(#[trigger] bindings@[j]),
                decreases bindings.len() - i,
            {
                if !pattern_is_catch_all(&bindings[i]) {
                    assert(!is_catch_all(bindings@[i as int]));
                    return false;
                }
                i += 1;
            }
            true
        },
        MatchPattern::Struct { fields, .. } => {
            let mut i: usize = 0;
            while i < fields.len()
                invariant
                    i <= fields@.len(),
                    forall|j: int|
                        0 <= j < i ==> match #[trigger] fields@[j].pattern {
                            Some(b) => is_catch_all(*b),
                            None => true,
                        },
                decreases fields.len() - i,
            {
                match &fields[i].pattern {
                    Some(b) => {
                        if !pattern_is_catch_all(b) {
                            assert(!(match fields@[i as int].pattern {
                                Some(b) => is_catch_all(*b),
                                None => true,
                            }));
                            return false;
                        }
                    },
                    None => {},
                }
                i += 1;
            }
            true
        },
        MatchPattern::List { prefix, rest, suffix, .. } => prefix.len() == 0 && suffix.len() == 0 && rest.is_some(),
        MatchPattern::Literal { .. } => false,
    }
}

/// The fields of a struct pattern whose sub-pattern constrains the value:
/// written, and neither a binding nor `_`. Other patterns name no field.
pub open spec fn constrained_fields(fields: Seq<FieldPattern>) -> Seq<(Seq<char>, MatchPattern)>
    decreases fields.len(),
{
    if fields.len() == 0 {
        seq![]
    } else {
        let rest = constrained_fields(fields.drop_last());
        match fields.last().pattern {
            Some(b) => if is_catch_all(*b) {
                rest
            } else {
                rest.push((fields.last().name@, *b))
            },
            None => rest,
        }
    }
}

pub open spec fn constrained_patterns(p: MatchPattern) -> Seq<(Seq<char>, MatchPattern)> {
    match p {
        MatchPattern::Struct { fields, .. } => constrained_fields(fields@),
        _ => seq![],
    }
}

#[verifier::loop_isolation(false)]
pub fn constrained_field_patterns(pattern: &MatchPattern) -> (r: Vec<(String, &MatchPattern)>)
    ensures
        r@.map_values(|e: (String, &MatchPattern)| (e.0@, *e.1)) == constrained_patterns(*pattern),
{
    let mut r: Vec<(String, &MatchPattern)> = Vec::new();
    match pattern {
        MatchPattern::Struct { fields, .. } => {
            let mut i: usize = 0;
            while i < fields.len()
                invariant
                    i <= fields@.len(),
                    r@.map_values(|e: (String, &MatchPattern)| (e.0@, *e.1)) == constrained_fields(
                        fields@.take(i as int),
                    ),
                decreases fields.len() - i,
            {
                assert(fields@.take(i + 1).drop_last() == fields@.take(i as int));
                match &fields[i].pattern {
                    Some(b) => {
                        if !pattern_is_catch_all(b) {
                            let ghost before = r@;
                            r.push((fields[i].name.clone(), &**b));
                            assert(r@.map_values(|e: (String, &MatchPattern)| (e.0@, *e.1)) =~= before.map_values(
                                |e: (String, &MatchPattern)| (e.0@, *e.1),
                            ).push((fields@[i as int].name@, **b)));
                        }
                    },
                    None => {},
                }
                i += 1;
            }
            assert(fields@.take(fields@.len() as int) == fields@);
        },
        _ => {
            assert(r@.map_values(|e: (String, &MatchPattern)| (e.0@, *e.1)) =~= Seq::<(Seq<char>, MatchPattern)>::empty());
        },
    }
    r
}

/// The span of a top-level declaration.
pub open spec fn item_span(item: Item) -> Span {
    match item {
        Item::Function(d) => d.span,
        Item::Const(d) => d.span,
        Item::Type(d) => d.span,
        Item::SumType(d) => d.span,
        Item::TypeAlias(d) => d.span,
        Item::Module(d) => d.span,
        Item::Use(d) => d.span,
    }
}

/// The source file a declaration comes from.
pub fn item_span_file(item: &Item) -> (r: String)
    ensures
        r@ == item_span(*item).file@,
{
    match item {
        Item::Function(d) => d.span.file.clone(),
        Item::Const(d) => d.span.file.clone(),
        Item::Type(d) => d.span.file.clone(),
        Item::SumType(d) => d.span.file.clone(),
        Item::TypeAlias(d) => d.span.file.clone(),
        Item::Module(d) => d.span.file.clone(),
        Item::Use(d) => d.span.file.clone(),
    }
}

/// The protocols a program's analysis can see: those the interfaces declare,
/// then its own, in order.
pub open spec fn visible_protocols(interfaces: Seq<Program>, program: Program) -> Seq<Seq<char>>
    decreases interfaces.len(),
{
    if interfaces.len() == 0 {
        program.protocols@.map_values(|p: crate::ast::ProtocolDecl| p.name@)
    } else {
        interfaces[0].protocols@.map_values(|p: crate::ast::ProtocolDecl| p.name@) + visible_protocols(
            interfaces.drop_first(),
            program,
        )
    }
}

fn push_protocol_names(out: &mut Vec<String>, program: &Program)
    ensures
        strs(final(out)@) == strs(old(out)@) + program.protocols@.map_values(|p: crate::ast::ProtocolDecl| p.name@),
{
    let ghost o = strs(out@);
    let ghost names = program.protocols@.map_values(|p: crate::ast::ProtocolDecl| p.name@);
    let mut i: usize = 0;
    while i < program.protocols.len()
        invariant
            names == program.protocols@.map_values(|p: crate::ast::ProtocolDecl| p.name@),
            i <= program.protocols@.len(),
            strs(out@) == o + names.take(i as int),
        decreases program.protocols.len() - i,
    {
        let ghost before = out@;
        out.push(program.protocols[i].name.clone());
        assert(strs(out@) =~= strs(before).push(names[i as int]));
        assert(names.take(i + 1) == names.take(i as int).push(names[i as int]));
        i += 1;
    }
    assert(names.take(names.len() as int) == names);
}

/// The names of the protocols visible to a program: the interfaces' first,
/// then its own.
pub fn visible_protocol_names(interface_programs: &Vec<Program>, syntax_program: &Program) -> (r: Vec<String>)
    ensures
        strs(r@) == visible_protocols(interface_programs@, *syntax_program),
{
    let mut out: Vec<String> = Vec::new();
    let mut i: usize = 0;
    assert(interface_programs@.skip(0) == interface_programs@);
    assert(strs(out@) + visible_protocols(interface_programs@, *syntax_program) =~= visible_protocols(
        interface_programs@,
        *syntax_program,
    ));
    while i < interface_programs.len()
        invariant
            i <= interface_programs@.len(),
            strs(out@) + visible_protocols(interface_programs@.skip(i as int), *syntax_program) == visible_protocols(
                interface_programs@,
                *syntax_program,
            ),
        decreases interface_programs.len() - i,
    {
        proof {
            assert(interface_programs@.skip(i as int).drop_first() == interface_programs@.skip(i + 1));
            assert(interface_programs@.skip(i as int)[0] == interface_programs@[i as int]);
        }
        let ghost before = strs(out@);
        push_protocol_names(&mut out, &interface_programs[i]);
        i += 1;
    }
    push_protocol_names(&mut out, syntax_program);
    proof {
        assert(interface_programs@.skip(i as int).len() == 0);
    }
    out
}

/// Whether a protocol of that name is visible to the program.
pub fn protocol_name_is_visible(interface_programs: &Vec<Program>, syntax_program: &Program, name: &str) -> (r: bool)
    ensures
        r == has_name(visible_protocols(interface_programs@, *syntax_program), name@),
{
    let names = visible_protocol_names(interface_programs, syntax_program);
    contains_name(&names, name)
}

/// Whether the implementation maps `method`.
pub open spec fn maps_method(imp: ProtocolImpl, method: Seq<char>) -> bool {
    exists|i: int| 0 <= i < imp.mappings@.len() && #[trigger] imp.mappings@[i].method@ == method
}

/// The protocol's methods, in declaration order, that the implementation
/// leaves without a mapping.
pub open spec fn unmapped(methods: Seq<Seq<char>>, imp: ProtocolImpl) -> Seq<Seq<char>>
    decreases methods.len(),
{
    if methods.len() == 0 {
        Seq::empty()
    } else {
        unmapped(methods.drop_last(), imp) + if maps_method(imp, methods.last()) {
            Seq::empty()
        } else {
            seq![methods.last()]
        }
    }
}

fn maps_method_exec(imp: &ProtocolImpl, method: &str) -> (r: bool)
    ensures
        r == maps_method(*imp, method@),
{
    let mut i: usize = 0;
    while i < imp.mappings.len()
        invariant
            i <= imp.mappings@.len(),
            forall|j: int| 0 <= j < i ==> #[trigger] imp.mappings@[j].method@ != method@,
        decreases imp.mappings.len() - i,
    {
        if str_eq(imp.mappings[i].method.as_str(), method) {
            return true;
        }
        i += 1;
    }
    false
}

/// The methods of the implemented protocol, as the visible items declare
/// them, that the implementation does not map to a function; each gets a
/// "missing protocol method mapping" report.
pub fn protocol_methods_without_mapping(items: &Vec<Item>, protocol_impl: &ProtocolImpl) -> (r: Vec<String>)
    ensures
        strs(r@) == unmapped(protocol_methods(items@, protocol_impl.protocol@), *protocol_impl),
{
    let methods = protocol_method_names(items, protocol_impl.protocol.as_str());
    let ghost ms = strs(methods@);
    let mut out: Vec<String> = Vec::new();
    let mut i: usize = 0;
    while i < methods.len()
        invariant
            ms == strs(methods@),
            i <= methods@.len(),
            strs(out@) == unmapped(ms.take(i as int), *protocol_impl),
        decreases methods.len() - i,
    {
        assert(ms.take(i + 1).drop_last() == ms.take(i as int));
        assert(ms[i as int] == methods@[i as int]@);
        if !maps_method_exec(protocol_impl, methods[i].as_str()) {
            let ghost before = out@;
            out.push(methods[i].clone());
            assert(strs(out@) =~= strs(before).push(ms[i as int]));
        } else {
            assert(unmapped(ms.take(i + 1), *protocol_impl) =~= unmapped(ms.take(i as int), *protocol_impl));
        }
        i += 1;
    }
    assert(ms.take(ms.len() as int) == ms);
    out
}

} // verus!
