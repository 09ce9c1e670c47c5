use rsscript_compiler::ast::{
    Block, Expr, FunctionDecl, Item, LetStmt, LoopStmt, Program, SelectArm, SelectStmt, Span, Stmt, TaskGroupStmt,
    TypeRef, WithStmt,
};
use rsscript_compiler::diag::{Diagnostic, Severity};
use rsscript_compiler::execution::{
    collect_block, collect_execution_facts, count_async_bindings, count_select_arms,
    PackageAnalysisResourceLifetime, PackageAnalysisTaskGroup,
};
use rsscript_compiler::package::dedup_diagnostics;
use rsscript_compiler::types::{plain_type_ref_name, result_error_type_ref_name, type_ref_name};

fn sp(line: usize) -> Span {
    Span { file: "main.rss".to_string(), line, column: 1, length: 1 }
}

fn block(statements: Vec<Stmt>) -> Block {
    Block { statements, span: sp(0) }
}

fn async_let(name: &str) -> Stmt {
    Stmt::Let(LetStmt {
        name: name.to_string(),
        is_async: true,
        is_mut: false,
        malformed: false,
        type_annotation: None,
        value: Some(Expr::Ident("work".to_string(), sp(1))),
        span: sp(1),
    })
}

fn with(binding: &str, body: Vec<Stmt>) -> Stmt {
    Stmt::With(WithStmt {
        resource: Expr::Ident("open".to_string(), sp(1)),
        binding: binding.to_string(),
        body: block(body),
        span: sp(1),
    })
}

fn select(arms: usize) -> Stmt {
    Stmt::Select(SelectStmt {
        arms: (0..arms)
            .map(|i| SelectArm {
                binding: format!("v{i}"),
                operation: Expr::Ident("h".to_string(), sp(2)),
                body: block(Vec::new()),
                span: sp(2),
            })
            .collect(),
        span: sp(2),
    })
}

fn task_group(body: Vec<Stmt>) -> Stmt {
    Stmt::TaskGroup(TaskGroupStmt { body: block(body), span: sp(3) })
}

fn function(name: &str, body: Vec<Stmt>) -> Item {
    Item::Function(FunctionDecl {
        name: name.to_string(),
        lower_name: None,
        type_params: Vec::new(),
        params: Vec::new(),
        return_ty: None,
        body: block(body),
        has_body: true,
        is_async: false,
        is_public: false,
        malformed_generic_param_spans: Vec::new(),
        malformed_param_spans: Vec::new(),
        span: sp(0),
    })
}

fn program(items: Vec<Item>) -> Program {
    Program {
        items,
        unknown_top_level_spans: Vec::new(),
        malformed_declaration_spans: Vec::new(),
        protocols: Vec::new(),
        protocol_impls: Vec::new(),
    }
}

fn held(function: &str, binding: &str) -> (String, String, String, String, bool) {
    (function.to_string(), binding.to_string(), "with".to_string(), "scope_exit".to_string(), true)
}

fn resource_tuple(r: &PackageAnalysisResourceLifetime) -> (String, String, String, String, bool) {
    (r.function.clone(), r.binding.clone(), r.acquisition.clone(), r.cleanup.clone(), r.cleanup_on_cancellation)
}

fn group_tuple(g: &PackageAnalysisTaskGroup) -> (String, u32, u32, bool, bool) {
    (g.function.clone(), g.spawned_tasks, g.select_arms, g.drains_on_exit, g.cleanup_on_cancellation)
}

#[test]
fn counts_look_only_at_direct_statements() {
    let body = block(vec![async_let("a"), async_let("b"), select(2), select(1), with("f", vec![async_let("c")])]);
    assert_eq!(count_async_bindings(&body), 2);
    assert_eq!(count_select_arms(&body), 3);
    assert_eq!(count_async_bindings(&block(Vec::new())), 0);
}

#[test]
fn block_walk_reports_nested_with_and_task_groups_in_order() {
    let body = block(vec![
        with("outer", vec![with("inner", Vec::new())]),
        Stmt::Loop(LoopStmt {
            condition: None,
            body: block(vec![task_group(vec![async_let("a"), select(2), task_group(Vec::new())])]),
            span: sp(4),
        }),
    ]);
    let mut resources = Vec::new();
    let mut groups = Vec::new();
    collect_block("main", &body, &mut resources, &mut groups);
    let r: Vec<_> = resources.iter().map(resource_tuple).collect();
    assert_eq!(r, vec![held("main", "outer"), held("main", "inner")]);
    let g: Vec<_> = groups.iter().map(group_tuple).collect();
    assert_eq!(g, vec![("main".to_string(), 1, 2, true, true), ("main".to_string(), 0, 0, true, true)]);
}

#[test]
fn package_facts_are_sorted_and_deduplicated() {
    let programs = vec![
        program(vec![
            function("zeta", vec![with("file", Vec::new()), with("file", Vec::new())]),
            function("alpha", vec![with("socket", Vec::new()), with("db", Vec::new())]),
        ]),
        program(vec![function("mid", vec![task_group(vec![async_let("a")]), task_group(Vec::new())])]),
        program(vec![function("alpha", vec![task_group(Vec::new())])]),
    ];
    let (resources, groups) = collect_execution_facts(&programs);
    let r: Vec<_> = resources.iter().map(resource_tuple).collect();
    assert_eq!(r, vec![held("alpha", "db"), held("alpha", "socket"), held("zeta", "file")]);
    let g: Vec<_> = groups.iter().map(group_tuple).collect();
    assert_eq!(
        g,
        vec![
            ("alpha".to_string(), 0, 0, true, true),
            ("mid".to_string(), 0, 0, true, true),
            ("mid".to_string(), 1, 0, true, true),
        ]
    );
}

fn diagnostic(code: &str, message: &str, line: usize, label: &str) -> Diagnostic {
    Diagnostic {
        code: code.to_string(),
        severity: Severity::Error,
        message: message.to_string(),
        span: sp(line),
        label: label.to_string(),
        causes: Vec::new(),
        fixes: Vec::new(),
    }
}

#[test]
fn dedup_keeps_the_first_diagnostic_of_each_key() {
    let mut diagnostics = vec![
        diagnostic("RS1", "bad", 1, "first"),
        diagnostic("RS1", "bad", 2, "other line"),
        diagnostic("RS1", "bad", 1, "same key, later"),
        diagnostic("RS2", "bad", 1, "other code"),
    ];
    dedup_diagnostics(&mut diagnostics);
    let labels: Vec<_> = diagnostics.iter().map(|d| d.label.clone()).collect();
    assert_eq!(labels, vec!["first", "other line", "other code"]);
    let again = diagnostics.clone();
    dedup_diagnostics(&mut diagnostics);
    assert_eq!(diagnostics, again);
}

fn named(name: &str, args: Vec<TypeRef>) -> TypeRef {
    TypeRef {
        name: name.to_string(),
        args,
        fn_params: Vec::new(),
        fn_param_effects: Vec::new(),
        fn_return: None,
        is_fresh: false,
        is_noescape: false,
        is_owned: false,
        malformed_arg_spans: Vec::new(),
        span: sp(0),
    }
}

#[test]
fn result_error_names_and_plain_function_types() {
    let result = named("Result", vec![named("Int", Vec::new()), named("IoError", Vec::new())]);
    assert_eq!(result_error_type_ref_name(&result), Some("IoError".to_string()));
    assert_eq!(result_error_type_ref_name(&named("Result", vec![named("Int", Vec::new())])), None);
    assert_eq!(result_error_type_ref_name(&named("Option", vec![named("Int", Vec::new()), named("E", Vec::new())])), None);
    let mut f = named("Fn", Vec::new());
    f.fn_params = vec![named("Int", Vec::new())];
    f.fn_param_effects = vec![None];
    f.fn_return = Some(Box::new(named("Bool", Vec::new())));
    f.is_fresh = true;
    assert_eq!(plain_type_ref_name(&f), "fresh Fn(Int) -> Bool");
    assert_eq!(type_ref_name(&f), "fresh Fn(read Int) -> Bool");
}

#[test]
fn package_facts_do_not_depend_on_program_order() {
    let make = || {
        vec![
            program(vec![function("b", vec![with("x", Vec::new()), task_group(vec![async_let("t")])])]),
            program(vec![function("a", vec![with("y", Vec::new()), with("x", Vec::new())])]),
        ]
    };
    let forward = make();
    let mut backward = make();
    backward.reverse();
    let (r1, g1) = collect_execution_facts(&forward);
    let (r2, g2) = collect_execution_facts(&backward);
    assert_eq!(r1.iter().map(resource_tuple).collect::<Vec<_>>(), r2.iter().map(resource_tuple).collect::<Vec<_>>());
    assert_eq!(g1.iter().map(group_tuple).collect::<Vec<_>>(), g2.iter().map(group_tuple).collect::<Vec<_>>());
    assert_eq!(r1.iter().map(resource_tuple).collect::<Vec<_>>(), vec![held("a", "x"), held("a", "y"), held("b", "x")]);
}
