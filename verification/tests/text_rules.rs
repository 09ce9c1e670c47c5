use rsscript_compiler::calls::{fn_type_param_effects, fn_type_param_type_name, is_option_type_name, is_result_type_name};
use rsscript_compiler::ast::DataEffect;
use rsscript_compiler::digest::{catalog_input, hex_string, interface_catalog_digest, source_hash};
use rsscript_compiler::generics::{
    collect_type_param_substitutions, collect_type_param_substitutions_bounded, SubstitutionBudget,
};
use rsscript_compiler::package::{select_package_runnable_source, PackageSource, RunnableSourceError};

fn generics(names: &[&str]) -> Vec<String> {
    names.iter().map(|n| n.to_string()).collect()
}

fn budget() -> SubstitutionBudget {
    SubstitutionBudget { max_depth: 64, remaining: 10_000, exhausted: false }
}

#[test]
fn substitutions_are_read_from_matching_positions() {
    let mut subs = Vec::new();
    let mut b = budget();
    assert!(collect_type_param_substitutions(&mut b, "Map<K, List<V>>", "Map<String, List<Int>>", &generics(&["K", "V"]), &mut subs));
    assert_eq!(subs, vec![("K".to_string(), "String".to_string()), ("V".to_string(), "Int".to_string())]);
}

#[test]
fn the_first_substitution_for_a_parameter_stays() {
    let mut subs = Vec::new();
    let mut b = budget();
    assert!(collect_type_param_substitutions(&mut b, "Result<T, T>", "Result<Int, String>", &generics(&["T"]), &mut subs));
    assert_eq!(subs, vec![("T".to_string(), "Int".to_string())]);
}

#[test]
fn unknown_actuals_and_mismatched_roots_record_nothing() {
    let mut subs = Vec::new();
    let mut b = budget();
    assert!(collect_type_param_substitutions(&mut b, "List<T>", "?", &generics(&["T"]), &mut subs));
    assert!(collect_type_param_substitutions(&mut b, "List<T>", "Option<Int>", &generics(&["T"]), &mut subs));
    assert!(subs.is_empty());
}

#[test]
fn fresh_and_function_types_are_walked() {
    let mut subs = Vec::new();
    let mut b = budget();
    assert!(collect_type_param_substitutions(&mut b, "fresh T", "fresh Point", &generics(&["T"]), &mut subs));
    assert!(collect_type_param_substitutions(&mut b, "Fn(A) -> R", "Fn(read Int) -> String", &generics(&["A", "R"]), &mut subs));
    assert_eq!(
        subs,
        vec![
            ("T".to_string(), "Point".to_string()),
            ("A".to_string(), "Int".to_string()),
            ("R".to_string(), "String".to_string()),
        ]
    );
}

#[test]
fn deep_substitution_fails_when_the_depth_runs_out() {
    let mut ty = "Int".to_string();
    for _ in 0..300 {
        ty = format!("List<{ty}>");
    }
    let mut subs = Vec::new();
    let mut b = SubstitutionBudget { max_depth: 32, remaining: 10_000, exhausted: false };
    assert!(!collect_type_param_substitutions_bounded(&mut b, &ty, &ty, &generics(&["T"]), &mut subs, 0));
    assert!(b.exhausted);
    let mut b = SubstitutionBudget { max_depth: 64, remaining: 3, exhausted: false };
    assert!(!collect_type_param_substitutions(&mut b, &ty, &ty, &generics(&["T"]), &mut subs));
    assert_eq!(b.remaining, 0);
    assert!(b.is_exhausted());
    let mut ok = SubstitutionBudget { max_depth: 64, remaining: 10_000, exhausted: false };
    assert!(collect_type_param_substitutions(&mut ok, "List<T>", "List<Int>", &generics(&["T"]), &mut subs));
    assert!(!ok.exhausted);
}

#[test]
fn function_type_parameter_queries() {
    assert_eq!(
        fn_type_param_effects("owned Fn(read UOp, mut Ctx, Int) -> Option<UOp>"),
        vec![Some(DataEffect::Read), Some(DataEffect::Mut), None]
    );
    assert_eq!(fn_type_param_effects("List<Int>"), Vec::<Option<DataEffect>>::new());
    assert_eq!(fn_type_param_type_name("owned Fn(read UOp, mut Ctx) -> Option<UOp>", 1), Some("Ctx".to_string()));
    assert_eq!(fn_type_param_type_name("Fn(take Buffer) -> Unit", 0), Some("Buffer".to_string()));
    assert_eq!(fn_type_param_type_name("Fn(Int) -> Unit", 3), None);
    assert!(is_result_type_name(" Result<Int, String>"));
    assert!(is_option_type_name("Option<T>"));
    assert!(!is_option_type_name("Optional"));
}

#[test]
fn catalog_digest_frames_paths_and_sources() {
    assert_eq!(
        interface_catalog_digest(&Vec::new()),
        "sha256:e3b0c44298fc1c149afbf4c8996fb92427ae41e4649b934ca495991b7852b855"
    );
    let catalog = vec![("core.rssi".to_string(), "fn f() -> Int\n".to_string())];
    assert_eq!(
        interface_catalog_digest(&catalog),
        "sha256:b13e9526840192a69de26873a02ac435eef60c643ee348fa308f8831c0319343"
    );
    let bytes = catalog_input(&catalog);
    assert_eq!(&bytes[..8], &[0, 0, 0, 0, 0, 0, 0, 9]);
    assert_eq!(bytes.len(), 8 + 9 + 8 + 14);
    assert_eq!(hex_string(&vec![0x00, 0xab, 0x7f]), "00ab7f");
}

fn source(relative: &str) -> PackageSource {
    PackageSource {
        path: format!("/pkg/{relative}"),
        relative_path: relative.to_string(),
        contents: String::new(),
    }
}

#[test]
fn the_runnable_source_is_the_only_one_or_the_main() {
    assert_eq!(select_package_runnable_source(&Vec::new()), Err(RunnableSourceError::NoSource));
    assert_eq!(select_package_runnable_source(&vec![source("src/app.rss")]), Ok(0));
    assert_eq!(
        select_package_runnable_source(&vec![source("src/a.rss"), source("src/main.rss"), source("src/b.rss")]),
        Ok(1)
    );
    assert_eq!(
        select_package_runnable_source(&vec![source("src/a.rss"), source("src/b.rss")]),
        Err(RunnableSourceError::NoMain)
    );
    assert_eq!(
        RunnableSourceError::NoSource.message(),
        "rss run requires one package source file under `src`."
    );
}

#[test]
fn source_hash_frames_sources_then_interfaces() {
    let sources = vec![("main.rss".to_string(), "fn main() {}".to_string())];
    let interfaces = vec![("core.rssi".to_string(), "x".to_string())];
    assert_eq!(
        source_hash(&sources, &interfaces),
        "sha256:2cdea31d5a44a349ef43aaece81956f0af8468999671f3178bf84a225d82cd5b"
    );
    assert_eq!(
        source_hash(&Vec::new(), &Vec::new()),
        "sha256:e3b0c44298fc1c149afbf4c8996fb92427ae41e4649b934ca495991b7852b855"
    );
    assert_ne!(source_hash(&interfaces, &sources), source_hash(&sources, &interfaces));
}
