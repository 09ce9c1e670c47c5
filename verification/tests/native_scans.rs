use rsscript_compiler::native_scan::{
    build_script_may_download_code, build_script_reads_environment, is_rust_ident_continue, is_rust_ident_start,
    native_build_script_risks, scan_source_semantics, source_contains_rust_unsafe_keyword,
    source_without_rust_comments, NativeBuildScriptRisk, NativeSemanticScanAccumulator,
};
use rsscript_compiler::cargo_manifest::{native_parallel_backends_from_cargo, parallel_backends_in_sections};
use rsscript_compiler::native_scan::{native_source_scan_report, sorted_unique_texts};
use rsscript_compiler::package::{
    is_skipped_package_entry,
    feature_values_label, package_feature_may_change_boundary_risk, package_feature_token_is_boundary_risk,
    package_risk_label, PackageRisk,
};

fn keyword() -> String {
    format!("{}{}", "uns", "afe")
}

fn empty_scan() -> NativeSemanticScanAccumulator {
    NativeSemanticScanAccumulator {
        native_parallel_backends: vec!["rayon".to_string()],
        thread_detected: false,
        unsafe_detected: false,
        ffi_detected: false,
        filesystem_detected: false,
        network_detected: false,
        build_script_present: true,
    }
}

#[test]
fn comments_are_removed_and_newlines_kept() {
    assert_eq!(source_without_rust_comments("a // note\nb"), "a \nb");
    assert_eq!(source_without_rust_comments("x /* y */ z"), "x  z");
    assert_eq!(source_without_rust_comments("keep /* open"), "keep ");
    assert_eq!(source_without_rust_comments("a / b"), "a / b");
    assert_eq!(source_without_rust_comments("//"), "");
    assert_eq!(source_without_rust_comments("/*/ x"), "");
}

#[test]
fn non_ascii_bytes_come_back_one_character_each() {
    // `é` is two UTF-8 bytes; each kept byte becomes the character with its number.
    assert_eq!(source_without_rust_comments("é"), "\u{c3}\u{a9}");
}

#[test]
fn keyword_is_found_only_as_a_token() {
    let kw = keyword();
    assert!(source_contains_rust_unsafe_keyword(&format!("fn f() {{ {kw} {{ }} }}")));
    assert!(!source_contains_rust_unsafe_keyword(&format!("let not_{kw} = 1;")));
    assert!(!source_contains_rust_unsafe_keyword(&format!("let x = \"{kw}\";")));
    assert!(!source_contains_rust_unsafe_keyword(&format!("// {kw}\nfn f() {{}}")));
    assert!(!source_contains_rust_unsafe_keyword(&format!("/* {kw} */")));
    assert!(!source_contains_rust_unsafe_keyword(&format!("let s = \"a\\\" {kw}\";")));
    assert!(source_contains_rust_unsafe_keyword(&format!("let c = 'a'; {kw} fn g() {{}}")));
    assert!(!source_contains_rust_unsafe_keyword(&format!("{kw}2")));
}

#[test]
fn identifier_bytes() {
    assert!(is_rust_ident_start(b'_'));
    assert!(is_rust_ident_start(b'Z'));
    assert!(!is_rust_ident_start(b'1'));
    assert!(is_rust_ident_continue(b'1'));
    assert!(!is_rust_ident_continue(b'-'));
}

#[test]
fn build_script_patterns() {
    assert!(build_script_reads_environment("let v = std::env::var(\"X\");"));
    assert!(build_script_reads_environment("option_env!(\"X\")"));
    assert!(!build_script_reads_environment("let v = 1;"));
    assert!(build_script_may_download_code("fetch(\"HTTPS://example.org\")"));
    assert!(build_script_may_download_code("Command::new(\"Git Clone\")"));
    assert!(!build_script_may_download_code("fn main() {}"));
}

#[test]
fn build_script_risks_ignore_comments() {
    let sources = vec!["// env::var(\"X\")\nfn main() {}".to_string(), "fn main() { curl(); }".to_string()];
    assert_eq!(
        native_build_script_risks(&sources),
        NativeBuildScriptRisk { env_detected: false, download_detected: true }
    );
    assert_eq!(native_build_script_risks(&Vec::new()), NativeBuildScriptRisk::default());
}

#[test]
fn source_scan_raises_flags() {
    let mut scan = empty_scan();
    scan_source_semantics("use std::thread; fn main() { thread::spawn(|| {}); }", &mut scan);
    assert!(scan.thread_detected);
    assert!(!scan.unsafe_detected && !scan.ffi_detected && !scan.filesystem_detected && !scan.network_detected);
    let ffi = format!("{} \"C\" {{ fn f(); }}", format!("{}{}", "ext", "ern"));
    scan_source_semantics(&ffi, &mut scan);
    assert!(scan.ffi_detected);
    scan_source_semantics("let f = File::open(\"x\");", &mut scan);
    assert!(scan.filesystem_detected);
    scan_source_semantics("let s = TcpStream::connect(a);", &mut scan);
    assert!(scan.network_detected);
    scan_source_semantics(&format!("fn g() {{ {} {{ }} }}", keyword()), &mut scan);
    assert!(scan.unsafe_detected);
    assert_eq!(scan.native_parallel_backends, vec!["rayon".to_string()]);
    assert!(scan.build_script_present);
}

#[test]
fn comments_hide_source_scan_patterns() {
    let mut scan = empty_scan();
    scan_source_semantics("// thread::spawn and File:: and https://x\nfn main() {}", &mut scan);
    assert!(!scan.thread_detected && !scan.filesystem_detected && !scan.network_detected);
}

#[test]
fn feature_tokens_and_labels() {
    assert!(package_feature_token_is_boundary_risk("Native-Bindings"));
    assert!(package_feature_token_is_boundary_risk(&keyword().to_uppercase()));
    assert!(!package_feature_token_is_boundary_risk("serde"));
    assert!(package_feature_may_change_boundary_risk("default", &vec!["serde".to_string(), "proc-macro".to_string()]));
    assert!(!package_feature_may_change_boundary_risk("default", &vec!["serde".to_string()]));
    assert_eq!(feature_values_label(&Vec::new()), "[]");
    assert_eq!(feature_values_label(&vec!["a".to_string()]), "a");
    assert_eq!(feature_values_label(&vec!["a".to_string(), "b".to_string(), "c".to_string()]), "a, b, c");
    assert_eq!(package_risk_label(PackageRisk::Low), "low");
    assert_eq!(package_risk_label(PackageRisk::Elevated), "elevated");
    assert_eq!(package_risk_label(PackageRisk::High), "high");
    assert_eq!(package_risk_label(PackageRisk::Unknown), "unknown");
}

#[test]
fn parallel_backends_are_read_from_dependency_tables() {
    let manifest = "[package]\nname = \"n\"\n\n[dependencies]\nrayon-parallel = \"1\"\nserde = \"1\"\n\n[dev-dependencies]\nworker-pool = \"0.1\"\n\n[build-dependencies]\ncc = \"1\"\n";
    assert_eq!(
        native_parallel_backends_from_cargo(manifest),
        vec!["rayon-parallel".to_string(), "worker-pool".to_string()]
    );
    assert!(native_parallel_backends_from_cargo("not [valid toml").is_empty());
    assert!(native_parallel_backends_from_cargo("dependencies = 3").is_empty());
}

#[test]
fn parallel_backends_keep_section_order() {
    let sections = vec![
        Some(vec!["b-worker".to_string(), "plain".to_string()]),
        None,
        Some(vec!["a-parallel".to_string()]),
    ];
    assert_eq!(
        parallel_backends_in_sections(&sections),
        vec!["b-worker".to_string(), "a-parallel".to_string()]
    );
}

#[test]
fn names_sort_and_deduplicate() {
    let v = vec!["b".to_string(), "a".to_string(), "b".to_string(), "ab".to_string()];
    assert_eq!(sorted_unique_texts(v), vec!["a".to_string(), "ab".to_string(), "b".to_string()]);
    assert!(sorted_unique_texts(Vec::new()).is_empty());
}

#[test]
fn scan_report_sorts_backends_and_reports_completeness() {
    let mut scan = empty_scan();
    scan.native_parallel_backends = vec!["z-worker".to_string(), "a-parallel".to_string(), "z-worker".to_string()];
    let report = native_source_scan_report(scan, Vec::new());
    assert_eq!(report.tool, "rss-native-source-scan");
    assert_eq!(report.selected_graph, "package-native-rust");
    assert_eq!(report.native_parallel_backends, vec!["a-parallel".to_string(), "z-worker".to_string()]);
    assert!(report.worker_thread_parallelism_detected);
    assert!(report.complete);
    assert!(report.build_script_present);

    let mut quiet = empty_scan();
    quiet.native_parallel_backends = Vec::new();
    let report = native_source_scan_report(quiet, vec!["failed to read x".to_string()]);
    assert!(!report.worker_thread_parallelism_detected);
    assert!(!report.complete);
    assert_eq!(report.errors, vec!["failed to read x".to_string()]);
}

#[test]
fn stripping_twice_changes_nothing() {
    for source in ["a//b\n/ /*c*/ /", "x / /* y */ / z", "/**/ /", "//", "a /* open", "plain / text * here"] {
        let once = source_without_rust_comments(source);
        assert_eq!(source_without_rust_comments(&once), once);
        assert!(!once.contains("//") && !once.contains("/*"));
    }
}

#[test]
fn sorted_names_do_not_depend_on_input_order() {
    let a = vec!["w".to_string(), "b".to_string(), "w".to_string(), "a".to_string()];
    let mut b = a.clone();
    b.reverse();
    assert_eq!(sorted_unique_texts(a), sorted_unique_texts(b));
}

#[test]
fn package_scans_skip_build_output_and_metadata() {
    for name in ["target", ".git", ".DS_Store", "Cargo.lock"] {
        assert!(is_skipped_package_entry(name));
    }
    assert!(!is_skipped_package_entry("src"));
    assert!(!is_skipped_package_entry("Cargo.toml"));
}
