use rsscript_compiler::aliases::{alias_cycle_diagnostics, canonical_type_ref, collect_type_alias_metadata, substitute_alias_type_ref};
use rsscript_compiler::ast::{
    Block, CallArg, Callee, DataEffect, Expr, FieldPattern, FunctionDecl, GenericParam, IfStmt, Item, LetStmt,
    MatchPattern, Program, ProtocolDecl, ProtocolImpl, ProtocolMapping, SelectArm, SelectStmt, Span, Stmt,
    TaskGroupStmt, TypeAliasDecl, TypeRef,
};
use rsscript_compiler::calls::{
    call_expr_label, callee_display, callee_name, dyn_from_protocol, enum_variant_type_name,
    explicit_callee_type_args, fresh_return_target_type,
};
use rsscript_compiler::declarations::check_lowered_name_conflicts;
use rsscript_compiler::derives::{combine_support, field_supports_derive, hash_key_support, required_field_derives, DeriveSupport, FieldDerive, LocalType, LocalTypes};
use rsscript_compiler::items::{
    builtin_match_is_exhaustive, constrained_field_patterns, constructor_pattern_is_irrefutable,
    function_belongs_to_protocol, function_body_belongs_to_protocol, item_span_file, protocol_method_names,
    protocol_methods_without_mapping, protocol_name_is_visible, visible_protocol_names,
};
use rsscript_compiler::task_group::{
    collect_all_async_let_spans, collect_direct_task_group_awaited_handles, collect_nested_task_group_async_lets,
    collect_task_group_async_lets, collect_task_group_awaited_handles, direct_task_group_awaited_handles_in_stmt,
    find_task_group_await_span,
};
use rsscript_compiler::types::{render_type_ref, type_ref_name};

fn sp(line: usize) -> Span {
    Span { file: "main.rss".to_string(), line, column: 1, length: 1 }
}

fn named(name: &str, args: Vec<TypeRef>) -> TypeRef {
    TypeRef {
        name: name.to_string(),
        args,
        fn_params: Vec::new(),
        fn_param_effects: Vec::new(),
        fn_return: None,
        is_fresh: false,
        is_noescape: false,
        is_owned: false,
        malformed_arg_spans: Vec::new(),
        span: sp(0),
    }
}

fn ident(name: &str, line: usize) -> Expr {
    Expr::Ident(name.to_string(), sp(line))
}

fn call(name: &str, line: usize) -> Expr {
    Expr::Call { callee: Callee::Name(name.to_string()), args: Vec::new(), span: sp(line) }
}

fn await_(value: Expr, line: usize) -> Expr {
    Expr::Await { value: Box::new(value), span: sp(line) }
}

fn let_(name: &str, is_async: bool, value: Expr, line: usize) -> Stmt {
    Stmt::Let(LetStmt {
        name: name.to_string(),
        is_async,
        is_mut: false,
        malformed: false,
        type_annotation: None,
        value: Some(value),
        span: sp(line),
    })
}

fn block(statements: Vec<Stmt>) -> Block {
    Block { statements, span: sp(0) }
}

/// async let a = fetch()             (line 1)
/// if ready { async let b = fetch() }  (line 2, 3)
/// select { x = await a => { async let c = fetch() } } (line 4, 5)
/// let y = await b                   (line 6)
/// task_group { async let d = fetch() }  (line 7, 8)
fn task_body() -> Block {
    block(vec![
        let_("a", true, call("fetch", 1), 1),
        Stmt::If(IfStmt {
            condition: ident("ready", 2),
            then_body: block(vec![let_("b", true, call("fetch", 3), 3)]),
            else_body: None,
            span: sp(2),
        }),
        Stmt::Select(SelectStmt {
            arms: vec![SelectArm {
                binding: "x".to_string(),
                operation: await_(ident("a", 4), 4),
                body: block(vec![let_("c", true, call("fetch", 5), 5)]),
                span: sp(4),
            }],
            span: sp(4),
        }),
        let_("y", false, await_(ident("b", 6), 6), 6),
        Stmt::TaskGroup(TaskGroupStmt { body: block(vec![let_("d", true, call("fetch", 8), 8)]), span: sp(7) }),
    ])
}

#[test]
fn task_group_async_lets_skip_select_arms_and_nested_groups() {
    let mut lets = Vec::new();
    collect_task_group_async_lets(&task_body(), &mut lets);
    assert_eq!(lets, vec![("a".to_string(), sp(1)), ("b".to_string(), sp(3))]);
}

#[test]
fn all_async_let_spans_enter_select_arms() {
    let mut spans = Vec::new();
    collect_all_async_let_spans(&task_body(), &mut spans);
    assert_eq!(spans, vec![sp(1), sp(3), sp(5)]);
    let mut nested = Vec::new();
    collect_nested_task_group_async_lets(&task_body(), &mut nested);
    assert_eq!(nested, vec![sp(3)]);
}

#[test]
fn awaited_handles_and_their_spans() {
    let mut awaited = Vec::new();
    collect_task_group_awaited_handles(&task_body(), &mut awaited);
    assert_eq!(awaited, vec!["b".to_string()]);
    let mut direct = Vec::new();
    collect_direct_task_group_awaited_handles(&task_body(), &mut direct);
    assert_eq!(direct, vec!["b".to_string()]);
    assert_eq!(find_task_group_await_span(&task_body(), "b"), Some(sp(6)));
    assert_eq!(find_task_group_await_span(&task_body(), "a"), None);
    let stmt = let_("z", false, Expr::Try { value: Box::new(await_(ident("h", 9), 9)), span: sp(9) }, 9);
    assert_eq!(direct_task_group_awaited_handles_in_stmt(&stmt), vec![("h".to_string(), sp(9))]);
}

fn function(name: &str, lower_name: Option<&str>, statements: Vec<Stmt>, line: usize) -> Item {
    Item::Function(FunctionDecl {
        name: name.to_string(),
        lower_name: lower_name.map(|s| s.to_string()),
        type_params: Vec::new(),
        params: Vec::new(),
        return_ty: None,
        body: block(statements),
        has_body: true,
        is_async: false,
        is_public: false,
        malformed_generic_param_spans: Vec::new(),
        malformed_param_spans: Vec::new(),
        span: sp(line),
    })
}

#[test]
fn protocol_membership_is_read_from_qualified_names() {
    let items = vec![
        function("Writer.write", None, vec![Stmt::Expr(ident("x", 1))], 1),
        function("Writer.flush", None, Vec::new(), 2),
        function("Reader.read", None, Vec::new(), 3),
        function("main", None, Vec::new(), 4),
    ];
    assert_eq!(protocol_method_names(&items, "Writer"), vec!["write".to_string(), "flush".to_string()]);
    let protocols = vec!["Writer".to_string()];
    if let (Item::Function(write), Item::Function(flush), Item::Function(main)) = (&items[0], &items[1], &items[3]) {
        assert!(function_belongs_to_protocol(write, &protocols));
        assert!(function_body_belongs_to_protocol(write, &protocols));
        assert!(!function_body_belongs_to_protocol(flush, &protocols));
        assert!(!function_belongs_to_protocol(main, &protocols));
    } else {
        panic!("fixture items are functions");
    }
    assert_eq!(item_span_file(&items[2]), "main.rss");
}

#[test]
fn builtin_matches_are_exhaustive_with_both_constructors() {
    let names = |v: &[&str]| v.iter().map(|s| s.to_string()).collect::<Vec<_>>();
    assert!(builtin_match_is_exhaustive(&names(&["None", "Some"])));
    assert!(builtin_match_is_exhaustive(&names(&["Ok", "Err"])));
    assert!(!builtin_match_is_exhaustive(&names(&["Some", "Ok"])));
}

#[test]
fn irrefutable_and_constrained_patterns() {
    let binding = MatchPattern::Binding { name: "x".to_string(), span: sp(1) };
    let literal = MatchPattern::Literal { value: "1".to_string(), span: sp(1) };
    let variant = MatchPattern::Variant {
        name: "V".to_string(),
        bindings: vec![MatchPattern::Binding { name: "y".to_string(), span: sp(1) }, MatchPattern::Wildcard(sp(1))],
        span: sp(1),
    };
    assert!(constructor_pattern_is_irrefutable(&variant));
    let refutable = MatchPattern::Variant { name: "V".to_string(), bindings: vec![literal], span: sp(1) };
    assert!(!constructor_pattern_is_irrefutable(&refutable));
    let list_any = MatchPattern::List { prefix: Vec::new(), rest: Some("rest".to_string()), suffix: Vec::new(), span: sp(1) };
    assert!(constructor_pattern_is_irrefutable(&list_any));
    let structure = MatchPattern::Struct {
        name: "P".to_string(),
        fields: vec![
            FieldPattern { name: "a".to_string(), pattern: None },
            FieldPattern { name: "b".to_string(), pattern: Some(Box::new(binding)) },
            FieldPattern {
                name: "c".to_string(),
                pattern: Some(Box::new(MatchPattern::Literal { value: "2".to_string(), span: sp(2) })),
            },
        ],
        span: sp(1),
    };
    assert!(!constructor_pattern_is_irrefutable(&structure));
    let constrained = constrained_field_patterns(&structure);
    assert_eq!(constrained.len(), 1);
    assert_eq!(constrained[0].0, "c");
}

#[test]
fn pinned_backend_names_must_be_identifiers_and_unique() {
    let items = vec![
        function("a.count", None, Vec::new(), 1),
        function("other", Some("a_count"), Vec::new(), 2),
        function("bad", Some("1x"), Vec::new(), 3),
        function("b.c", None, Vec::new(), 4),
        function("b_c", None, Vec::new(), 5),
    ];
    let diagnostics = check_lowered_name_conflicts(&items);
    assert_eq!(diagnostics.len(), 2);
    assert_eq!(diagnostics[0].message, "`#lower_name(\"1x\")` is not a valid Rust identifier.");
    assert_eq!(diagnostics[0].span, sp(3));
    assert_eq!(diagnostics[1].message, "lowered backend name `a_count` is already used by `a.count`.");
    assert_eq!(diagnostics[1].span, sp(2));
    assert_eq!(diagnostics[1].fixes[0].id, "rename_lowered");
}

#[test]
fn callee_and_expression_labels() {
    let receiver = Expr::Field { base: Box::new(ident("self", 1)), name: "buf".to_string(), span: sp(1) };
    let method = Callee::ReceiverCall { receiver: Box::new(receiver), method: "push".to_string(), effect: Some(DataEffect::Mut) };
    assert_eq!(callee_display(&method), "mut self.buf.push");
    assert_eq!(callee_name(&method), "push");
    let q = Callee::Qualified { namespace: "List".to_string(), name: "new".to_string() };
    assert_eq!(callee_display(&q), "List.new");
    let c = Expr::Call { callee: q, args: vec![CallArg { name: None, value: ident("x", 1), malformed: false, span: sp(1) }], span: sp(1) };
    assert_eq!(call_expr_label(&c), "List.new()");
    assert_eq!(call_expr_label(&Expr::String("hi \"you\"".to_string(), sp(1))), "\"hi \\\"you\\\"\"");
    assert_eq!(call_expr_label(&Expr::Number("1".to_string(), sp(1))), "<expr>");
    let plain = Callee::ReceiverCall { receiver: Box::new(ident("v", 1)), method: "len".to_string(), effect: None };
    assert_eq!(callee_display(&plain), "read v.len");
    assert_eq!(enum_variant_type_name(&Callee::Name("Some".to_string())), Some("Option<?>"));
    assert_eq!(enum_variant_type_name(&Callee::Name("Err".to_string())), Some("Result<?>"));
    assert_eq!(enum_variant_type_name(&Callee::Name("Other".to_string())), None);
    let dynamic = Callee::Qualified { namespace: "Dyn<Writer>".to_string(), name: "from".to_string() };
    assert_eq!(dyn_from_protocol(&dynamic), Some("Writer".to_string()));
    assert_eq!(explicit_callee_type_args(&Callee::Name("make<Int, String>".to_string())), Some(vec!["Int".to_string(), "String".to_string()]));
    assert_eq!(explicit_callee_type_args(&Callee::Name("make".to_string())), None);
}

fn alias(name: &str, params: &[&str], target: TypeRef, line: usize) -> Item {
    Item::TypeAlias(TypeAliasDecl {
        name: name.to_string(),
        type_params: params.iter().map(|p| GenericParam { name: p.to_string(), bound: None, span: sp(line) }).collect(),
        target,
        span: sp(line),
    })
}

fn program(items: Vec<Item>) -> Program {
    Program { items, unknown_top_level_spans: Vec::new(), malformed_declaration_spans: Vec::new(), protocols: Vec::new(), protocol_impls: Vec::new() }
}

#[test]
fn aliases_expand_below_arguments_and_keep_markers() {
    // type Pair<T> = Result<T, String>; type Ints = List<Int>
    let table = collect_type_alias_metadata(&vec![program(vec![
        alias("Pair", &["T"], named("Result", vec![named("T", Vec::new()), named("String", Vec::new())]), 1),
        alias("Ints", &[], named("List", vec![named("Int", Vec::new())]), 2),
    ])]);
    let mut ty = named("Option", vec![named("Pair", vec![named("Ints", Vec::new())])]);
    ty.is_fresh = true;
    let canonical = canonical_type_ref(&table, &ty);
    assert_eq!(render_type_ref(&canonical), "fresh Option<Result<List<Int>, String>>");
    let substituted = substitute_alias_type_ref(
        &named("Map", vec![named("K", Vec::new()), named("V", Vec::new())]),
        &vec!["K".to_string(), "V".to_string()],
        &vec![named("String", Vec::new()), named("Int", Vec::new())],
    );
    assert_eq!(render_type_ref(&substituted), "Map<String, Int>");
}

#[test]
fn a_later_alias_shadows_an_earlier_one_and_self_reference_is_a_cycle() {
    let table = collect_type_alias_metadata(&vec![
        program(vec![alias("Id", &[], named("Int", Vec::new()), 1)]),
        program(vec![alias("Id", &[], named("String", Vec::new()), 2), alias("Tree", &[], named("List", vec![named("Tree", Vec::new())]), 3)]),
    ]);
    assert_eq!(table.get("Id"), Some(1));
    assert_eq!(render_type_ref(&canonical_type_ref(&table, &named("Id", Vec::new()))), "String");
    let cycles = alias_cycle_diagnostics(&table);
    assert_eq!(cycles.len(), 1);
    assert_eq!(cycles[0].code, "RS0039");
    assert_eq!(cycles[0].message, "type alias `Tree` expands to itself");
    assert_eq!(cycles[0].span, sp(3));
}

#[test]
fn type_names_in_messages_show_effective_effects() {
    let mut f = named("Fn", Vec::new());
    f.fn_params = vec![named("Int", Vec::new()), named("Ctx", Vec::new())];
    f.fn_param_effects = vec![None, Some(DataEffect::Mut)];
    f.is_owned = true;
    f.is_noescape = true;
    assert_eq!(type_ref_name(&f), "noescape Fn(read Int, mut Ctx)");
    assert_eq!(render_type_ref(&f), "noescape owned Fn(Int, mut Ctx) -> Unit");
    let result = named("Result", vec![named("Point", Vec::new()), named("String", Vec::new())]);
    assert_eq!(fresh_return_target_type(&result).name, "Point");
}

#[test]
fn derive_support_combines_and_reads_local_types() {
    assert_eq!(combine_support(DeriveSupport::Yes, DeriveSupport::Unknown), DeriveSupport::Unknown);
    assert_eq!(combine_support(DeriveSupport::Unknown, DeriveSupport::No), DeriveSupport::No);
    assert_eq!(combine_support(DeriveSupport::Yes, DeriveSupport::Yes), DeriveSupport::Yes);
    let derives = vec!["Debug".to_string(), "Eq".to_string(), "Ord".to_string(), "JsonDecode".to_string()];
    assert_eq!(required_field_derives(&derives), vec![FieldDerive::Ord, FieldDerive::JsonDecode]);
    let locals = LocalTypes {
        entries: vec![LocalType { name: "Key".to_string(), is_value: true, derives: vec!["Eq".to_string()] }],
    };
    let no_generics: Vec<String> = Vec::new();
    let key_map = named("Map", vec![named("Key", Vec::new()), named("Int", Vec::new())]);
    assert_eq!(field_supports_derive(&key_map, FieldDerive::Eq, &locals, &no_generics), DeriveSupport::No);
    assert_eq!(field_supports_derive(&named("Key", Vec::new()), FieldDerive::Eq, &locals, &no_generics), DeriveSupport::Yes);
    assert_eq!(field_supports_derive(&named("Remote", Vec::new()), FieldDerive::Eq, &locals, &no_generics), DeriveSupport::Unknown);
    let generic = vec!["T".to_string()];
    assert_eq!(field_supports_derive(&named("T", Vec::new()), FieldDerive::Hash, &locals, &generic), DeriveSupport::Unknown);
    let generic_key = named("Set", vec![named("T", Vec::new())]);
    assert_eq!(field_supports_derive(&generic_key, FieldDerive::Eq, &locals, &generic), DeriveSupport::No);
    assert_eq!(field_supports_derive(&named("List", vec![named("Float", Vec::new())]), FieldDerive::JsonEncode, &locals, &no_generics), DeriveSupport::Yes);
}

#[test]
fn protocol_visibility_and_unmapped_methods() {
    let mut interface = program(Vec::new());
    interface.protocols = vec![ProtocolDecl { name: "Display".to_string(), span: sp(1) }];
    let mut own = program(vec![
        function("Writer.write", None, Vec::new(), 1),
        function("Writer.flush", None, Vec::new(), 2),
        function("Writer.close", None, Vec::new(), 3),
    ]);
    own.protocols = vec![ProtocolDecl { name: "Writer".to_string(), span: sp(4) }];
    let interfaces = vec![interface];
    assert_eq!(visible_protocol_names(&interfaces, &own), vec!["Display".to_string(), "Writer".to_string()]);
    assert!(protocol_name_is_visible(&interfaces, &own, "Display"));
    assert!(!protocol_name_is_visible(&interfaces, &own, "Reader"));
    let imp = ProtocolImpl {
        protocol: "Writer".to_string(),
        for_type: "File".to_string(),
        mappings: vec![ProtocolMapping { method: "flush".to_string(), target: "File.flush".to_string(), span: sp(5) }],
        span: sp(5),
    };
    assert_eq!(
        protocol_methods_without_mapping(&own.items, &imp),
        vec!["write".to_string(), "close".to_string()]
    );
}

#[test]
fn a_generic_anywhere_in_a_key_is_not_hashable() {
    let locals = LocalTypes { entries: Vec::new() };
    let generics = vec!["T".to_string()];
    let ext_t = named("Ext", vec![named("T", Vec::new())]);
    assert_eq!(hash_key_support(&ext_t, &locals, &generics), DeriveSupport::No);
    let deep = named("Ext", vec![named("Wrap", vec![named("List", vec![named("T", Vec::new())])])]);
    assert_eq!(hash_key_support(&deep, &locals, &generics), DeriveSupport::No);
    let ext_int = named("Ext", vec![named("Int", Vec::new())]);
    assert_eq!(hash_key_support(&ext_int, &locals, &generics), DeriveSupport::Unknown);
}
