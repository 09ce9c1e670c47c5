use rsscript_compiler::ast::Span;
use rsscript_compiler::variants::{conventional_variant_form, variant_field_issues, VariantArg, VariantFieldIssue};

fn sp(line: usize) -> Span {
    Span { file: "main.rss".to_string(), line, column: 1, length: 1 }
}

fn arg(name: Option<&str>, line: usize, actual: Option<&str>) -> VariantArg {
    VariantArg {
        name: name.map(|n| n.to_string()),
        span: sp(line),
        actual_type: actual.map(|t| t.to_string()),
        literal_accepted: false,
        generic_unresolved: false,
        value_span: sp(line + 100),
    }
}

fn fields() -> Vec<(String, String)> {
    vec![("a".to_string(), "Int".to_string()), ("b".to_string(), "String".to_string())]
}

#[test]
fn field_errors_come_in_argument_order_then_missing_fields() {
    let args = vec![
        arg(Some("a"), 1, Some("Int")),
        arg(Some("a"), 2, Some("Int")),
        arg(Some("c"), 3, None),
        arg(Some("b"), 4, Some("Bool")),
    ];
    assert_eq!(
        variant_field_issues(&fields(), &args, &sp(0)),
        vec![
            VariantFieldIssue::Duplicate { field: "a".to_string(), span: sp(2) },
            VariantFieldIssue::UnknownField { name: "c".to_string(), span: sp(3) },
            VariantFieldIssue::TypeMismatch {
                field: "b".to_string(),
                actual: "Bool".to_string(),
                expected: "String".to_string(),
                span: sp(104),
            },
        ]
    );
    let only_a = vec![arg(Some("a"), 1, Some("Int"))];
    assert_eq!(
        variant_field_issues(&fields(), &only_a, &sp(9)),
        vec![VariantFieldIssue::Missing { field: "b".to_string(), span: sp(9) }]
    );
}

#[test]
fn an_unnamed_value_is_the_only_issue_reported() {
    let args = vec![arg(Some("a"), 1, Some("Bool")), arg(None, 2, None), arg(None, 3, None)];
    assert_eq!(variant_field_issues(&fields(), &args, &sp(0)), vec![VariantFieldIssue::Unnamed { span: sp(2) }]);
}

#[test]
fn accepted_literals_and_unresolved_generics_are_not_type_checked() {
    let mut literal = arg(Some("a"), 1, Some("String"));
    literal.literal_accepted = true;
    let mut generic = arg(Some("b"), 2, Some("T"));
    generic.generic_unresolved = true;
    assert!(variant_field_issues(&fields(), &vec![literal, generic], &sp(0)).is_empty());
}

#[test]
fn builtin_variants_take_their_conventional_form() {
    assert!(conventional_variant_form("Ok", &vec![arg(None, 1, None)], &sp(0)).is_none());
    assert!(conventional_variant_form("Custom", &Vec::new(), &sp(0)).is_none());
    assert_eq!(conventional_variant_form("None", &Vec::new(), &sp(5)), Some(("`None`", sp(5))));
    assert_eq!(
        conventional_variant_form("Some", &vec![arg(Some("x"), 2, None)], &sp(5)),
        Some(("`Some(value)`", sp(2)))
    );
    assert_eq!(
        conventional_variant_form("Result", &Vec::new(), &sp(5)),
        Some(("`Ok(value)` or `Err(error)`", sp(5)))
    );
}
