use rsscript_compiler::ast::{DataEffect, Span};
use rsscript_compiler::call_args::{
    bind_call_arguments, CallArgument, CallBinding, CallResolution, CallSignature, ResolvedKind, SignatureParam,
};

fn sp(line: usize) -> Span {
    Span { file: "main.rss".to_string(), line, column: 1, length: 1 }
}

fn sig(params: &[(&str, Option<DataEffect>)], is_public: bool) -> CallSignature {
    CallSignature {
        params: params.iter().map(|(n, e)| SignatureParam { name: n.to_string(), effect: *e }).collect(),
        is_public,
    }
}

fn arg(name: Option<&str>, index: Option<usize>, ident: Option<&str>) -> CallArgument {
    CallArgument {
        name: name.map(|s| s.to_string()),
        parameter_index: index,
        ident: ident.map(|s| s.to_string()),
        effect: None,
        span: sp(1),
        value_span: sp(2),
    }
}

fn resolved(b: &CallBinding) -> Vec<Option<String>> {
    match b {
        CallBinding::Bound { arguments, .. } => arguments.iter().map(|a| a.resolved_name.clone()).collect(),
        other => panic!("unexpected {:?}", other),
    }
}

#[test]
fn unresolved_callees_bind_nothing() {
    let args = vec![arg(None, None, None)];
    assert!(matches!(bind_call_arguments(false, &CallResolution::Unknown, &args), CallBinding::UnknownCallee));
    assert!(matches!(bind_call_arguments(false, &CallResolution::EnumVariant, &args), CallBinding::EnumVariant));
    let amb = CallResolution::Ambiguous { candidates: vec!["A.len".to_string(), "B.len".to_string()] };
    match bind_call_arguments(true, &amb, &args) {
        CallBinding::AmbiguousCallee { candidates } => assert_eq!(candidates, vec!["A.len".to_string(), "B.len".to_string()]),
        other => panic!("unexpected {:?}", other),
    }
}

#[test]
fn private_functions_take_positional_arguments() {
    let res = CallResolution::Resolved { kind: ResolvedKind::UserFunction, signature: sig(&[("x", None), ("y", None)], false) };
    let b = bind_call_arguments(false, &res, &vec![arg(None, None, None), arg(None, None, None), arg(None, None, None)]);
    assert_eq!(resolved(&b), vec![Some("x".to_string()), Some("y".to_string()), None]);
    match &b {
        CallBinding::Bound { allow_positional_args, parameters, .. } => {
            assert!(*allow_positional_args);
            assert!(parameters.iter().all(|p| p.accepts_argument && p.required));
        }
        other => panic!("unexpected {:?}", other),
    }
}

#[test]
fn public_functions_need_named_arguments() {
    let res = CallResolution::Resolved { kind: ResolvedKind::UserFunction, signature: sig(&[("x", None), ("y", None)], true) };
    let b = bind_call_arguments(false, &res, &vec![arg(None, Some(0), None), arg(Some("y"), Some(1), None), arg(Some("z"), None, None)]);
    assert_eq!(resolved(&b), vec![None, Some("y".to_string()), Some("z".to_string())]);
}

#[test]
fn receiver_calls_skip_the_receiver_slot() {
    let res = CallResolution::Resolved {
        kind: ResolvedKind::Other,
        signature: sig(&[("self", Some(DataEffect::Mut)), ("item", None)], true),
    };
    let b = bind_call_arguments(true, &res, &vec![arg(None, None, None)]);
    assert_eq!(resolved(&b), vec![Some("item".to_string())]);
    match &b {
        CallBinding::Bound { parameters, .. } => {
            assert!(!parameters[0].accepts_argument && !parameters[0].required);
            assert_eq!(parameters[0].effect, Some(DataEffect::Mut));
            assert!(parameters[1].accepts_argument);
        }
        other => panic!("unexpected {:?}", other),
    }
}

#[test]
fn constructors_accept_field_shorthand() {
    let res = CallResolution::Resolved { kind: ResolvedKind::Constructor, signature: sig(&[("width", None), ("height", None)], true) };
    let b = bind_call_arguments(false, &res, &vec![arg(None, None, Some("height")), arg(None, None, Some("depth"))]);
    assert_eq!(resolved(&b), vec![Some("height".to_string()), None]);
    match &b {
        CallBinding::Bound { arguments, allow_positional_args, .. } => {
            assert!(!allow_positional_args);
            assert!(arguments[0].constructor_shorthand);
            assert!(!arguments[1].constructor_shorthand);
            assert!(!arguments[0].explicit_name);
        }
        other => panic!("unexpected {:?}", other),
    }
}
