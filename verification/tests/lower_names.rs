use rsscript_compiler::names::{
    is_reserved_generated_name_str, is_valid_rust_identifier_str, lowered_symbol_name,
    rust_function_ident, rust_path_segment, rust_qualified_function_ident, split_qualified_name,
};

#[test]
fn names_are_available_without_the_aot_lowerer() {
    assert_eq!(lowered_symbol_name("MultiBuffer.ref"), "MultiBuffer_ref");
    assert_eq!(lowered_symbol_name("gen"), "r#gen");
}

#[test]
fn dotted_keyword_member_is_flattened_before_escaping() {
    assert_eq!(lowered_symbol_name("a.b.c"), "a_b_c");
    assert_eq!(lowered_symbol_name("type"), "r#type");
    assert_eq!(lowered_symbol_name("helpers.count"), "helpers_count");
}

#[test]
fn pins_override_projection_and_last_pin_wins() {
    let pins = vec![
        ("helpers.count".to_string(), "first".to_string()),
        ("helpers.count".to_string(), "second".to_string()),
    ];
    assert_eq!(rust_function_ident(&pins, "helpers.count"), "second");
    assert_eq!(rust_function_ident(&pins, "helpers.total"), "helpers_total");
}

#[test]
fn rust_identifier_validation() {
    assert!(is_valid_rust_identifier_str("rss_count"));
    assert!(is_valid_rust_identifier_str("_x1"));
    assert!(!is_valid_rust_identifier_str(""));
    assert!(!is_valid_rust_identifier_str("1x"));
    assert!(!is_valid_rust_identifier_str("a-b"));
    assert!(!is_valid_rust_identifier_str("fn"));
}

#[test]
fn reserved_generated_names() {
    assert!(is_reserved_generated_name_str("__rss_tmp"));
    assert!(is_reserved_generated_name_str("__rsscript_helper"));
    assert!(!is_reserved_generated_name_str("__hash__"));
    assert!(!is_reserved_generated_name_str("__Tuple2"));
}

#[test]
fn qualified_names_split_at_the_last_dot() {
    assert_eq!(
        split_qualified_name("host.log.emit"),
        (Some("host.log".to_string()), "emit".to_string())
    );
    assert_eq!(split_qualified_name("main"), (None, "main".to_string()));
}

#[test]
fn qualified_function_idents_join_escaped_segments() {
    let pins = vec![("helpers.count".to_string(), "hc".to_string())];
    assert_eq!(rust_qualified_function_ident(&pins, "helpers.io", "Reader<T>"), "helpers_io_Reader");
    assert_eq!(rust_qualified_function_ident(&pins, "type.mod", "fn"), "r#type_r#mod_r#fn");
    assert_eq!(rust_qualified_function_ident(&pins, "helpers", "count"), "hc");
    assert_eq!(rust_qualified_function_ident(&pins, "", "run"), "_run");
    assert_eq!(rust_path_segment("match::<Int>"), "r#match::<Int>");
    assert_eq!(rust_path_segment("plain"), "plain");
}
