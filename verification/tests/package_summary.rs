use rsscript_compiler::ast::Span;
use rsscript_compiler::diag::{Diagnostic, Severity};
use rsscript_compiler::exports::{
    assemble_package_exports, package_analysis_exports, package_analysis_summary, ContractSet, FunctionContract,
    InterfaceDiagnosticExport, PackageReviewFileKind, ParamContract,
};

fn s(v: &str) -> String {
    v.to_string()
}

fn empty() -> ContractSet {
    ContractSet {
        types: Vec::new(),
        functions: Vec::new(),
        sum_types: Vec::new(),
        type_aliases: Vec::new(),
        consts: Vec::new(),
        protocol_impls: Vec::new(),
        protocols: Vec::new(),
    }
}

fn function(name: &str, is_async: bool, mutating: bool, retains: bool, boundary: bool, fresh: bool) -> FunctionContract {
    FunctionContract {
        name: s(name),
        is_async,
        params: vec![ParamContract { name: s("x"), effect: if mutating { Some(s("mut")) } else { Some(s("read")) }, ty: s("Int") }],
        has_resource_boundary: boundary,
        returns_fresh: fresh,
        retained_params: if retains { vec![s("x")] } else { Vec::new() },
        return_type: None,
    }
}

fn diagnostic(severity: Severity) -> Diagnostic {
    Diagnostic {
        code: s("RS0001"),
        severity,
        message: s("m"),
        span: Span { file: s("a.rss"), line: 1, column: 1, length: 1 },
        label: s("l"),
        causes: Vec::new(),
        fixes: Vec::new(),
    }
}

#[test]
fn summary_counts_files_items_and_apis() {
    let kinds = vec![
        PackageReviewFileKind::Interface,
        PackageReviewFileKind::Source,
        PackageReviewFileKind::Source,
        PackageReviewFileKind::Test,
    ];
    let mut iface = empty();
    iface.functions = vec![
        function("a", true, true, false, false, false),
        function("b", false, false, true, true, true),
        function("c", true, true, true, false, false),
    ];
    iface.consts = vec![s("LIMIT")];
    let mut src = empty();
    src.functions = vec![function("only_source", false, false, false, false, false)];
    src.types = vec![];
    src.sum_types = vec![s("Color"), s("Shape")];
    let diags = vec![diagnostic(Severity::Error), diagnostic(Severity::Warning), diagnostic(Severity::Error)];
    let summary = package_analysis_summary(&kinds, &iface, &src, 4, &diags);
    assert_eq!(summary.interface_files, 1);
    assert_eq!(summary.source_files, 2);
    assert_eq!(summary.public_functions, 3);
    assert_eq!(summary.public_consts, 1);
    assert_eq!(summary.public_sum_types, 2);
    assert_eq!(summary.public_types, 0);
    assert_eq!(summary.mutating_apis, 2);
    assert_eq!(summary.retaining_apis, 2);
    assert_eq!(summary.resource_apis, 1);
    assert_eq!(summary.fresh_returning_apis, 1);
    assert_eq!(summary.async_apis, 2);
    assert_eq!(summary.await_sites, 4);
    assert_eq!(summary.diagnostics, 3);
    assert_eq!(summary.errors, 2);
}

#[test]
fn diagnostic_exports_join_the_sorted_export_list() {
    let mut src = empty();
    src.consts = vec![s("A"), s("B")];
    src.sum_types = vec![s("Color")];
    let exports = package_analysis_exports(&empty(), &src);
    let extra = vec![
        InterfaceDiagnosticExport {
            name: s("broken"),
            kind: s("function"),
            function_kind: Some(s("sync")),
            retained_params: Vec::new(),
            reasons: vec![s("interface diagnostic")],
        },
        InterfaceDiagnosticExport {
            name: s("A"),
            kind: s("const"),
            function_kind: None,
            retained_params: Vec::new(),
            reasons: vec![s("duplicate")],
        },
    ];
    let all = assemble_package_exports(exports, extra);
    let keys: Vec<(String, String)> = all.iter().map(|e| (e.kind.clone(), e.name.clone())).collect();
    assert_eq!(
        keys,
        vec![
            (s("const"), s("A")),
            (s("const"), s("A")),
            (s("const"), s("B")),
            (s("function"), s("broken")),
            (s("sum_type"), s("Color")),
        ]
    );
    assert!(all[0].semantic_facts.is_empty());
    assert_eq!(all[1].semantic_facts, vec![s("duplicate")]);
    assert_eq!(all[3].function_kind, Some(s("sync")));
    assert!(all[3].parameters.is_empty());
}
