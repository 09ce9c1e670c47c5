use rsscript_compiler::typestr::{argument_type_matches, function_type_matches};

#[test]
fn function_type_matching_normalizes_omitted_read() {
    assert!(argument_type_matches("Fn(Int) -> Int", "Fn(read Int) -> Int"));
    assert!(argument_type_matches(
        "List<owned Fn(Int) -> Int>",
        "List<owned Fn(read Int) -> Int>"
    ));
    assert!(!argument_type_matches("Fn(Int) -> Int", "Fn(Int) -> String"));
    assert!(!argument_type_matches("noescape Fn(Int) -> Int", "Fn(read Int) -> Int"));
}

#[test]
fn argument_matching_accepts_self_fresh_and_untyped_constructors() {
    assert!(argument_type_matches("Self", "Anything"));
    assert!(argument_type_matches("fresh List<Int>", "List<Int>"));
    assert!(argument_type_matches("Option<Int>", "Option<?>"));
    assert!(argument_type_matches("Result<Int, String>", "Result<?>"));
    assert!(!argument_type_matches("List<Int>", "Option<?>"));
    assert!(argument_type_matches("Map<String, List<Int>>", "Map<String, List<Int>>"));
    assert!(!argument_type_matches("Map<String, Int>", "Map<String, Float>"));
}

#[test]
fn function_types_compare_prefix_params_and_return() {
    assert!(function_type_matches("owned Fn(read Int, mut Ctx) -> Unit", "owned Fn(Int, mut Ctx) -> Unit"));
    assert!(!function_type_matches("owned Fn(Int) -> Unit", "Fn(Int) -> Unit"));
    assert!(!function_type_matches("Fn(mut Int) -> Unit", "Fn(Int) -> Unit"));
    assert!(function_type_matches("Fn() -> Int", "Fn() -> Int"));
    assert!(!function_type_matches("List<Int>", "List<Int>"));
}
