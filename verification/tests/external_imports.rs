use rsscript_compiler::ast::Span;
use rsscript_compiler::imports::{package_external_imports, ImportCallSite};
use rsscript_compiler::package::PackageSource;

fn sp(file: &str, line: usize) -> Span {
    Span { file: file.to_string(), line, column: 1, length: 1 }
}

fn site(function: &str, namespace: Option<&str>, name: &str, external: bool, line: usize) -> ImportCallSite {
    ImportCallSite {
        function: function.to_string(),
        namespace: namespace.map(|s| s.to_string()),
        name: name.to_string(),
        is_external: external,
        span: sp("/pkg/src/main.rss", line),
    }
}

fn sources() -> Vec<PackageSource> {
    vec![PackageSource {
        path: "/pkg/src/main.rss".to_string(),
        relative_path: "src/main.rss".to_string(),
        contents: String::new(),
    }]
}

#[test]
fn neutral_analysis_does_not_require_review_metadata_for_external_imports() {
    let sites = vec![site("main", Some("HostClock"), "now", true, 1)];
    let imports = package_external_imports(&sites, &sources());
    assert_eq!(imports.len(), 1);
    assert_eq!(imports[0].function, "main");
    assert_eq!(imports[0].symbol, "HostClock.now");
    assert_eq!(imports[0].call_chain, vec!["main".to_string(), "HostClock.now".to_string()]);
    assert_eq!(imports[0].span.as_ref().map(|s| s.file.clone()), Some("src/main.rss".to_string()));
}

#[test]
fn imports_follow_the_shortest_chain_back_to_the_symbol() {
    let sites = vec![
        site("b", None, "ext_read", true, 1),
        site("c", None, "ext_read", true, 2),
        site("a", None, "b", false, 3),
        site("a", None, "c", false, 4),
        site("b", None, "b", false, 5),
        site("d", None, "a", false, 6),
        site("z", Some("Net"), "send", true, 7),
    ];
    let imports = package_external_imports(&sites, &sources());
    let got: Vec<(String, String, Vec<String>, usize)> = imports
        .iter()
        .map(|i| (i.symbol.clone(), i.function.clone(), i.call_chain.clone(), i.span.as_ref().unwrap().line))
        .collect();
    let v = |x: &[&str]| x.iter().map(|s| s.to_string()).collect::<Vec<_>>();
    assert_eq!(
        got,
        vec![
            ("Net.send".to_string(), "z".to_string(), v(&["z", "Net.send"]), 7),
            ("ext_read".to_string(), "a".to_string(), v(&["a", "b", "ext_read"]), 3),
            ("ext_read".to_string(), "b".to_string(), v(&["b", "ext_read"]), 1),
            ("ext_read".to_string(), "c".to_string(), v(&["c", "ext_read"]), 2),
            ("ext_read".to_string(), "d".to_string(), v(&["d", "a", "b", "ext_read"]), 6),
        ]
    );
}

#[test]
fn calls_to_internal_functions_import_nothing() {
    let sites = vec![site("a", None, "b", false, 1), site("b", None, "c", false, 2)];
    assert!(package_external_imports(&sites, &sources()).is_empty());
}
