use rsscript_compiler::analyzer::{
    analyze_source, analyze_source_with_interfaces, analyze_source_with_interfaces_without_core,
    analyze_sources_with_interfaces, analyze_sources_with_interfaces_without_core, analyze_syntax_source,
    prepare_analysis, validate_source, validate_sources_with_interfaces, AnalysisFlavor,
};
use rsscript_compiler::ast::{
    Block, CallArg, Callee, DataEffect, Expr, FieldDecl, FunctionDecl, GenericParam, Item, Param, Program,
    ReturnStmt, Span, Stmt, TypeAliasDecl, TypeDecl, TypeKind, TypeRef,
};
use rsscript_compiler::types::render_type_ref;

fn span(file: &str, line: usize) -> Span {
    Span { file: file.to_string(), line, column: 1, length: 1 }
}

fn named(name: &str, args: Vec<TypeRef>) -> TypeRef {
    TypeRef {
        name: name.to_string(),
        args,
        fn_params: Vec::new(),
        fn_param_effects: Vec::new(),
        fn_return: None,
        is_fresh: false,
        is_noescape: false,
        is_owned: false,
        malformed_arg_spans: Vec::new(),
        span: span("types", 1),
    }
}

fn function_type(params: Vec<TypeRef>, ret: TypeRef, owned: bool) -> TypeRef {
    let n = params.len();
    let mut t = named("Fn", Vec::new());
    t.fn_params = params;
    t.fn_param_effects = vec![None; n];
    t.fn_return = Some(Box::new(ret));
    t.is_owned = owned;
    t
}

fn function(name: &str, params: Vec<Param>, ret: TypeRef, body: Vec<Stmt>, file: &str, line: usize) -> Item {
    Item::Function(FunctionDecl {
        name: name.to_string(),
        lower_name: None,
        type_params: Vec::new(),
        params,
        return_ty: Some(ret),
        body: Block { statements: body, span: span(file, line) },
        has_body: true,
        is_async: false,
        is_public: false,
        malformed_generic_param_spans: Vec::new(),
        malformed_param_spans: Vec::new(),
        span: span(file, line),
    })
}

fn ret(value: Expr, file: &str, line: usize) -> Stmt {
    Stmt::Return(ReturnStmt { value: Some(value), span: span(file, line) })
}

fn alias(name: &str, params: &[&str], target: TypeRef, file: &str, line: usize) -> Item {
    Item::TypeAlias(TypeAliasDecl {
        name: name.to_string(),
        type_params: params
            .iter()
            .map(|p| GenericParam { name: p.to_string(), bound: None, span: span(file, line) })
            .collect(),
        target,
        span: span(file, line),
    })
}

fn program(items: Vec<Item>) -> Program {
    Program {
        items,
        unknown_top_level_spans: Vec::new(),
        malformed_declaration_spans: Vec::new(),
        protocols: Vec::new(),
        protocol_impls: Vec::new(),
    }
}

/// `fn helper(value: read Int) -> Int { return value }`
/// `fn main() -> Int { return helper(value: 1) }`
fn source() -> Program {
    let helper = function(
        "helper",
        vec![Param {
            name: "value".to_string(),
            ty: named("Int", Vec::new()),
            effect: Some(DataEffect::Read),
            span: span("main.rss", 1),
        }],
        named("Int", Vec::new()),
        vec![ret(Expr::Ident("value".to_string(), span("main.rss", 1)), "main.rss", 1)],
        "main.rss",
        1,
    );
    let call = Expr::Call {
        callee: Callee::Name("helper".to_string()),
        args: vec![CallArg {
            name: Some("value".to_string()),
            value: Expr::Number("1".to_string(), span("main.rss", 2)),
            malformed: false,
            span: span("main.rss", 2),
        }],
        span: span("main.rss", 2),
    };
    let main = function("main", Vec::new(), named("Int", Vec::new()), vec![ret(call, "main.rss", 2)], "main.rss", 2);
    program(vec![helper, main])
}

/// `type CallerAlias<T> = Result<T, String>`
fn caller_interface() -> Program {
    program(vec![alias(
        "CallerAlias",
        &["T"],
        named("Result", vec![named("T", Vec::new()), named("String", Vec::new())]),
        "caller.rssi",
        1,
    )])
}

/// `type SourceAlias = CallerAlias<Int>`
/// `type Callback = owned Fn(Int) -> String`
/// `fn main() -> Unit { return Unit }`
fn alias_source() -> Program {
    program(vec![
        alias("SourceAlias", &[], named("CallerAlias", vec![named("Int", Vec::new())]), "main.rss", 1),
        alias(
            "Callback",
            &[],
            function_type(vec![named("Int", Vec::new())], named("String", Vec::new()), true),
            "main.rss",
            2,
        ),
        function(
            "main",
            Vec::new(),
            named("Unit", Vec::new()),
            vec![ret(Expr::Ident("Unit".to_string(), span("main.rss", 3)), "main.rss", 3)],
            "main.rss",
            3,
        ),
    ])
}

#[test]
fn single_and_merged_entrypoints_agree_for_each_interface_policy() {
    let sources = vec![source()];
    let interfaces: Vec<Program> = Vec::new();

    assert_eq!(
        analyze_source_with_interfaces(&source(), &interfaces),
        analyze_sources_with_interfaces(&sources, &interfaces),
    );
    assert_eq!(
        analyze_source_with_interfaces_without_core(&source(), &interfaces),
        analyze_sources_with_interfaces_without_core(&sources, &interfaces),
    );
}

#[test]
fn cyclic_generic_aliases_in_interfaces_report_rs0039() {
    // type A<T> = B<List<T>>
    // type B<T> = A<List<T>>
    let interfaces = vec![program(vec![
        alias("A", &["T"], named("B", vec![named("List", vec![named("T", Vec::new())])]), "cycle.rssi", 1),
        alias("B", &["T"], named("A", vec![named("List", vec![named("T", Vec::new())])]), "cycle.rssi", 2),
    ])];
    let diagnostics = analyze_source_with_interfaces_without_core(&source(), &interfaces);

    assert_eq!(
        diagnostics.iter().filter(|diagnostic| diagnostic.code == "RS0039").count(),
        2,
        "{diagnostics:?}"
    );
}

#[test]
fn preparation_builds_alias_metadata_from_prepared_programs() {
    let prepared = prepare_analysis(
        AnalysisFlavor::FullWithoutBuiltinInterfaces,
        &Vec::new(),
        &vec![alias_source()],
        &vec![caller_interface()],
    );
    let aliases = &prepared.type_aliases;
    let caller = aliases.get("CallerAlias").expect("CallerAlias");
    let source_alias = aliases.get("SourceAlias").expect("SourceAlias");
    let callback = aliases.get("Callback").expect("Callback");

    assert_eq!(render_type_ref(&aliases.aliases[caller].target), "Result<T, String>");
    assert_eq!(aliases.aliases[caller].parameters, vec!["T"]);
    assert_eq!(render_type_ref(&aliases.aliases[source_alias].target), "CallerAlias<Int>");
    assert_eq!(render_type_ref(&aliases.aliases[callback].target), "owned Fn(Int) -> String");
}

#[test]
fn syntax_only_preparation_has_no_aliases_or_interfaces() {
    let prepared = prepare_analysis(AnalysisFlavor::SyntaxOnly, &Vec::new(), &vec![alias_source()], &vec![caller_interface()]);
    assert!(prepared.type_aliases.aliases.is_empty());
    assert_eq!(prepared.interface_programs, 0);
    let with = prepare_analysis(AnalysisFlavor::FullWithBuiltinInterfaces, &Vec::new(), &vec![source()], &vec![caller_interface()]);
    assert_eq!(with.interface_programs, 1);
}

#[test]
fn a_valid_program_has_no_diagnostics_and_validates() {
    assert!(analyze_source(&source()).is_empty());
    assert!(validate_source(&source()).is_ok());
    assert!(validate_sources_with_interfaces(&vec![source()], &vec![caller_interface()]).is_ok());
}

fn float_struct(derives: &[&str], kind: TypeKind) -> Item {
    Item::Type(TypeDecl {
        name: "Point".to_string(),
        kind,
        derives: derives.iter().map(|d| d.to_string()).collect(),
        type_params: Vec::new(),
        fields: vec![FieldDecl {
            name: "x".to_string(),
            ty: named("Float", Vec::new()),
            is_handle: false,
            is_weak: false,
            span: span("main.rss", 7),
        }],
        is_opaque: false,
        drop_body: None,
        malformed_generic_param_spans: Vec::new(),
        malformed_field_spans: Vec::new(),
        span: span("main.rss", 6),
    })
}

#[test]
fn a_float_field_cannot_support_an_eq_derive() {
    let p = program(vec![float_struct(&["Eq", "Debug"], TypeKind::Struct)]);
    let diagnostics = analyze_source(&p);
    assert_eq!(diagnostics.len(), 1);
    let d = &diagnostics[0];
    assert_eq!(d.code, "DERIVE_FIELD_UNSUPPORTED");
    assert_eq!(d.message, "`Eq` derive is not supported by field `x`.");
    assert_eq!(d.label, "`Float` does not support the `Eq` derive");
    assert_eq!(d.span, span("main.rss", 7));
    assert_eq!(d.fixes[0].id, "remove_or_change_derive");
    assert!(validate_source(&p).is_err());
}

#[test]
fn resources_and_json_derives_accept_float_fields() {
    assert!(analyze_source(&program(vec![float_struct(&["Eq"], TypeKind::Resource)])).is_empty());
    assert!(analyze_source(&program(vec![float_struct(&["JsonEncode"], TypeKind::Struct)])).is_empty());
}

#[test]
fn the_syntax_check_alone_ignores_derives_and_flags_spawn() {
    let spawn = Expr::Spawn {
        value: Box::new(Expr::Ident("work".to_string(), span("main.rss", 9))),
        span: span("main.rss", 9),
    };
    let p = program(vec![
        float_struct(&["Eq"], TypeKind::Struct),
        function("main", Vec::new(), named("Unit", Vec::new()), vec![Stmt::Expr(spawn)], "main.rss", 8),
    ]);
    let syntax = analyze_syntax_source(&p);
    assert_eq!(syntax.len(), 1);
    assert_eq!(syntax[0].code, "UNSUPPORTED_SYNTAX");
    assert_eq!(syntax[0].label, "unsupported spawn expression");
    assert_eq!(syntax[0].span, span("main.rss", 9));
    let full = analyze_source(&p);
    assert_eq!(full.len(), 2);
    assert_eq!(full[0], syntax[0]);
    assert_eq!(full[1].code, "DERIVE_FIELD_UNSUPPORTED");
}

#[test]
fn a_take_callback_must_be_owned_after_alias_expansion() {
    // type Callback = Fn(Int) -> String
    // fn run(cb: take Callback) -> Unit
    let alias_item = alias(
        "Callback",
        &[],
        function_type(vec![named("Int", Vec::new())], named("String", Vec::new()), false),
        "main.rss",
        1,
    );
    let run = function(
        "run",
        vec![Param {
            name: "cb".to_string(),
            ty: named("Callback", Vec::new()),
            effect: Some(DataEffect::Take),
            span: span("main.rss", 2),
        }],
        named("Unit", Vec::new()),
        Vec::new(),
        "main.rss",
        2,
    );
    let diagnostics = analyze_source(&program(vec![alias_item, run]));
    assert_eq!(diagnostics.len(), 1);
    assert_eq!(diagnostics[0].label, "unsupported by-value callback parameter");
    assert_eq!(diagnostics[0].span, span("main.rss", 2));
}

#[test]
fn merged_sources_report_in_source_order() {
    let a = program(vec![float_struct(&["Hash"], TypeKind::Struct)]);
    let mut b_item = float_struct(&["Ord"], TypeKind::Struct);
    if let Item::Type(ref mut d) = b_item {
        d.name = "Other".to_string();
    }
    let b = program(vec![b_item]);
    let diagnostics = analyze_sources_with_interfaces(&vec![a, b], &Vec::new());
    assert_eq!(diagnostics.len(), 2);
    assert_eq!(diagnostics[0].message, "`Hash` derive is not supported by field `x`.");
    assert_eq!(diagnostics[1].message, "`Ord` derive is not supported by field `x`.");
}

/// Two stand-in catalog programs, one declaring an alias, for the builtin
/// catalogs the analysis is handed.
fn catalogs() -> Vec<Program> {
    vec![alias_source(), program(Vec::new())]
}

#[test]
fn preparation_preserves_analyzer_interface_program_policy() {
    let cats = catalogs();
    let standard = prepare_analysis(AnalysisFlavor::FullWithStandardPackages, &cats, &vec![source()], &Vec::new());
    assert_eq!(standard.interface_programs, cats.len());
    assert!(standard.type_aliases.get("SourceAlias").is_some());

    let with_builtins =
        prepare_analysis(AnalysisFlavor::FullWithBuiltinInterfaces, &cats, &vec![source()], &vec![caller_interface()]);
    assert_eq!(with_builtins.interface_programs, 1);
    assert!(with_builtins.type_aliases.get("SourceAlias").is_some());
    assert!(with_builtins.type_aliases.get("CallerAlias").is_some());

    let without_builtins = prepare_analysis(
        AnalysisFlavor::FullWithoutBuiltinInterfaces,
        &cats,
        &vec![source()],
        &vec![caller_interface()],
    );
    assert_eq!(without_builtins.interface_programs, 1);
    assert!(without_builtins.type_aliases.get("CallerAlias").is_some());

    let syntax_only = prepare_analysis(AnalysisFlavor::SyntaxOnly, &cats, &vec![source()], &Vec::new());
    assert_eq!(syntax_only.interface_programs, 0);
    assert!(syntax_only.type_aliases.aliases.is_empty());
}
