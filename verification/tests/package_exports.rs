use rsscript_compiler::exports::{
    package_analysis_exports, ContractSet, FunctionContract, PackageAnalysisExport, PackageAnalysisParameter,
    ParamContract, TypeContract,
};

fn empty() -> ContractSet {
    ContractSet {
        types: Vec::new(),
        functions: Vec::new(),
        sum_types: Vec::new(),
        type_aliases: Vec::new(),
        consts: Vec::new(),
        protocol_impls: Vec::new(),
        protocols: Vec::new(),
    }
}

fn s(v: &str) -> String {
    v.to_string()
}

fn open_file() -> FunctionContract {
    FunctionContract {
        name: s("open_file"),
        is_async: true,
        params: vec![
            ParamContract { name: s("path"), effect: None, ty: s("String") },
            ParamContract { name: s("buf"), effect: Some(s("mut")), ty: s("Buffer") },
            ParamContract { name: s("h"), effect: Some(s("take")), ty: s("Handle") },
        ],
        has_resource_boundary: true,
        returns_fresh: true,
        retained_params: vec![s("buf")],
        return_type: Some(s("File")),
    }
}

fn named(name: &str, kind: &str) -> PackageAnalysisExport {
    PackageAnalysisExport {
        name: s(name),
        kind: s(kind),
        function_kind: None,
        parameters: Vec::new(),
        return_type: None,
        retained_params: Vec::new(),
        semantic_facts: Vec::new(),
    }
}

#[test]
fn function_exports_sort_facts_and_default_effects() {
    let mut src = empty();
    src.functions = vec![open_file()];
    let exports = package_analysis_exports(&empty(), &src);
    assert_eq!(exports.len(), 1);
    let e = &exports[0];
    assert_eq!(e.kind, "function");
    assert_eq!(e.function_kind, Some(s("async")));
    assert_eq!(
        e.semantic_facts,
        vec![
            s("async boundary"),
            s("mut parameter `buf`"),
            s("resource boundary"),
            s("retains(buf)"),
            s("returns fresh value"),
            s("take parameter `h`"),
        ]
    );
    assert_eq!(e.retained_params, vec![s("buf")]);
    assert_eq!(
        e.parameters[0],
        PackageAnalysisParameter { name: s("path"), effect: s("read"), ty: s("String"), retained: false }
    );
    assert!(e.parameters[1].retained);
    assert_eq!(e.return_type, Some(s("File")));
}

#[test]
fn interface_contracts_win_and_kinds_come_in_name_order() {
    let mut iface = empty();
    iface.types = vec![TypeContract { name: s("Conn"), is_resource: true, has_handle_field: true, has_weak_field: false }];
    iface.protocols = vec![s("Reader")];
    let mut src = empty();
    src.types = vec![TypeContract { name: s("Hidden"), is_resource: false, has_handle_field: false, has_weak_field: false }];
    src.consts = vec![s("LIMIT")];
    src.type_aliases = vec![s("Bytes")];
    src.sum_types = vec![s("Shape")];
    src.protocol_impls = vec![s("Reader for Conn")];
    let exports = package_analysis_exports(&iface, &src);
    let kinds: Vec<(String, String)> = exports.iter().map(|e| (e.kind.clone(), e.name.clone())).collect();
    assert_eq!(
        kinds,
        vec![
            (s("const"), s("LIMIT")),
            (s("protocol"), s("Reader")),
            (s("protocol_impl"), s("Reader for Conn")),
            (s("sum_type"), s("Shape")),
            (s("type"), s("Conn")),
            (s("type_alias"), s("Bytes")),
        ]
    );
    assert_eq!(exports[4].semantic_facts, vec![s("resource type"), s("handle field")]);
    assert_eq!(exports[0], named("LIMIT", "const"));
}
