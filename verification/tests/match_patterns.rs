use rsscript_compiler::aliases::{AliasDefinition, AliasTable};
use rsscript_compiler::ast::{FieldPattern, MatchArm, MatchPattern, Block, Span, TypeRef};
use rsscript_compiler::patterns::{
    check_match_pattern_matches_type, check_match_patterns_match_scrutinee, DeclaredField, DeclaredKind,
    DeclaredType, DeclaredVariant, PatternIssue, PatternTypes,
};
use rsscript_compiler::types::render_type_ref;

fn sp(line: usize) -> Span {
    Span { file: "main.rss".to_string(), line, column: 1, length: 1 }
}

fn named(name: &str, args: Vec<TypeRef>) -> TypeRef {
    TypeRef {
        name: name.to_string(),
        args,
        fn_params: Vec::new(),
        fn_param_effects: Vec::new(),
        fn_return: None,
        is_fresh: false,
        is_noescape: false,
        is_owned: false,
        malformed_arg_spans: Vec::new(),
        span: sp(0),
    }
}

fn field(name: &str, ty: TypeRef) -> DeclaredField {
    DeclaredField { name: name.to_string(), ty }
}

fn binding(name: &str) -> MatchPattern {
    MatchPattern::Binding { name: name.to_string(), span: sp(1) }
}

fn variant(name: &str, bindings: Vec<MatchPattern>) -> MatchPattern {
    MatchPattern::Variant { name: name.to_string(), bindings, span: sp(2) }
}

fn literal(value: &str) -> MatchPattern {
    MatchPattern::Literal { value: value.to_string(), span: sp(3) }
}

/// `sum Shape { Circle(r: Int), Rect(w: Int, h: Int) }`,
/// `struct Pair<A, B> { left: A, right: B }`, `type Shapes = List<Shape>`.
fn declarations() -> PatternTypes {
    PatternTypes {
        aliases: AliasTable {
            aliases: vec![AliasDefinition {
                name: "Shapes".to_string(),
                parameters: Vec::new(),
                target: named("List", vec![named("Shape", vec![])]),
                span: sp(9),
            }],
        },
        types: vec![
            DeclaredType {
                name: "Pair".to_string(),
                kind: DeclaredKind::Struct,
                type_params: vec!["A".to_string(), "B".to_string()],
                fields: vec![field("left", named("A", vec![])), field("right", named("B", vec![]))],
            },
            DeclaredType { name: "Shape".to_string(), kind: DeclaredKind::Sum, type_params: Vec::new(), fields: Vec::new() },
        ],
        variants: vec![
            DeclaredVariant { sum: "Shape".to_string(), name: "Circle".to_string(), fields: vec![field("r", named("Int", vec![]))] },
            DeclaredVariant {
                sum: "Shape".to_string(),
                name: "Rect".to_string(),
                fields: vec![field("w", named("Int", vec![])), field("h", named("Int", vec![]))],
            },
        ],
    }
}

fn check(p: &MatchPattern, ty: &TypeRef) -> Vec<PatternIssue> {
    let mut out = Vec::new();
    check_match_pattern_matches_type(&declarations(), p, ty, &mut out);
    out
}

#[test]
fn bindings_and_wildcards_fit_any_type() {
    assert!(check(&binding("x"), &named("Int", vec![])).is_empty());
    assert!(check(&MatchPattern::Wildcard(sp(1)), &named("Shape", vec![])).is_empty());
}

#[test]
fn option_patterns_take_some_and_none_only() {
    let opt = named("Option", vec![named("Int", vec![])]);
    assert!(check(&variant("Some", vec![binding("x")]), &opt).is_empty());
    assert!(check(&variant("None", vec![]), &opt).is_empty());
    let issues = check(&variant("Ok", vec![binding("x")]), &opt);
    assert_eq!(issues.len(), 1);
    match &issues[0] {
        PatternIssue::VariantFamily { variant, scrutinee, allowed, .. } => {
            assert_eq!(variant, "Ok");
            assert_eq!(render_type_ref(scrutinee), "Option<Int>");
            assert_eq!(allowed, &vec!["Some".to_string(), "None".to_string()]);
        }
        other => panic!("unexpected {:?}", other),
    }
    let issues = check(&variant("None", vec![binding("x")]), &opt);
    match &issues[..] {
        [PatternIssue::Arity { variant, expected, found, .. }] => {
            assert_eq!(variant, "None");
            assert_eq!((*expected, *found), (0, 1));
        }
        other => panic!("unexpected {:?}", other),
    }
}

#[test]
fn payload_patterns_are_checked_against_type_arguments() {
    let res = named("Result", vec![named("Int", vec![]), named("Shape", vec![])]);
    let issues = check(&variant("Err", vec![variant("Square", vec![])]), &res);
    match &issues[..] {
        [PatternIssue::VariantFamily { variant, allowed, .. }] => {
            assert_eq!(variant, "Square");
            assert_eq!(allowed, &vec!["Circle".to_string(), "Rect".to_string()]);
        }
        other => panic!("unexpected {:?}", other),
    }
    let issues = check(&variant("Ok", vec![binding("a"), binding("b")]), &res);
    assert!(matches!(&issues[..], [PatternIssue::Arity { expected: 1, found: 2, .. }]));
}

#[test]
fn sum_variant_payloads_need_one_pattern_per_field() {
    let shape = named("Shape", vec![]);
    assert!(check(&variant("Rect", vec![]), &shape).is_empty());
    assert!(check(&variant("Rect", vec![binding("w"), binding("h")]), &shape).is_empty());
    let issues = check(&variant("Rect", vec![binding("w")]), &shape);
    assert!(matches!(&issues[..], [PatternIssue::Arity { expected: 2, found: 1, .. }]));
    let issues = check(&variant("Circle", vec![literal("1")]), &shape);
    match &issues[..] {
        [PatternIssue::Literal { value, against, .. }] => {
            assert_eq!(value, "1");
            assert_eq!(render_type_ref(against), "Int");
        }
        other => panic!("unexpected {:?}", other),
    }
}

#[test]
fn variants_against_undeclared_types_cannot_match() {
    let issues = check(&variant("Circle", vec![]), &named("Int", vec![]));
    match &issues[..] {
        [PatternIssue::PatternType { pattern, scrutinee, .. }] => {
            assert_eq!(pattern, "Circle");
            assert_eq!(render_type_ref(scrutinee), "Int");
        }
        other => panic!("unexpected {:?}", other),
    }
}

#[test]
fn struct_fields_see_the_scrutinee_arguments() {
    let pair = named("Pair", vec![named("Int", vec![]), named("Shape", vec![])]);
    let pattern = MatchPattern::Struct {
        name: "Pair".to_string(),
        fields: vec![
            FieldPattern { name: "left".to_string(), pattern: Some(Box::new(literal("3"))) },
            FieldPattern { name: "right".to_string(), pattern: Some(Box::new(variant("Some", vec![]))) },
            FieldPattern { name: "other".to_string(), pattern: Some(Box::new(literal("4"))) },
        ],
        span: sp(4),
    };
    let issues = check(&pattern, &pair);
    assert_eq!(issues.len(), 2);
    match &issues[0] {
        PatternIssue::Literal { against, .. } => assert_eq!(render_type_ref(against), "Int"),
        other => panic!("unexpected {:?}", other),
    }
    match &issues[1] {
        PatternIssue::VariantFamily { scrutinee, .. } => assert_eq!(render_type_ref(scrutinee), "Shape"),
        other => panic!("unexpected {:?}", other),
    }
    let wrong = MatchPattern::Struct { name: "Point".to_string(), fields: Vec::new(), span: sp(5) };
    assert!(matches!(&check(&wrong, &pair)[..], [PatternIssue::PatternType { .. }]));
}

#[test]
fn list_patterns_fit_lists_through_aliases() {
    let shapes = named("Shapes", vec![]);
    let pattern = MatchPattern::List {
        prefix: vec![variant("Circle", vec![binding("r")])],
        rest: Some("more".to_string()),
        suffix: vec![variant("Triangle", vec![])],
        span: sp(6),
    };
    let issues = check(&pattern, &shapes);
    match &issues[..] {
        [PatternIssue::VariantFamily { variant, .. }] => assert_eq!(variant, "Triangle"),
        other => panic!("unexpected {:?}", other),
    }
    let issues = check(&pattern, &named("Int", vec![]));
    match &issues[..] {
        [PatternIssue::PatternType { pattern, .. }] => assert_eq!(pattern, "[..]"),
        other => panic!("unexpected {:?}", other),
    }
}

#[test]
fn arms_are_checked_only_when_the_scrutinee_type_is_known() {
    let arms = vec![
        MatchArm { pattern: variant("Circle", vec![binding("r")]), body: Block { statements: Vec::new(), span: sp(7) }, span: sp(7) },
        MatchArm { pattern: variant("Oval", vec![]), body: Block { statements: Vec::new(), span: sp(8) }, span: sp(8) },
    ];
    let mut out = Vec::new();
    check_match_patterns_match_scrutinee(&declarations(), &Some(named("Shape", vec![])), &arms, &mut out);
    assert_eq!(out.len(), 1);
    let mut none = Vec::new();
    check_match_patterns_match_scrutinee(&declarations(), &None, &arms, &mut none);
    assert!(none.is_empty());
}
