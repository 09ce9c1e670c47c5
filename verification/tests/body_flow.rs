use rsscript_compiler::ast::Span;
use rsscript_compiler::flow::{
    clone_state, fallthrough_projection, merge_fallthrough_states, merge_if_state, merge_loop_state, BodyState, Flow,
    MovedPath,
};

fn sp(line: usize) -> Span {
    Span { file: "main.rss".to_string(), line, column: 1, length: 1 }
}

fn names(v: &[&str]) -> Vec<String> {
    v.iter().map(|s| s.to_string()).collect()
}

fn state(locals: &[&str], moved: &[(&str, usize)], clean: &[&str], fresh: &[&str]) -> BodyState {
    BodyState {
        locals: names(locals),
        field_splittable_locals: Vec::new(),
        managed: names(&["m"]),
        read_views: Vec::new(),
        resources: Vec::new(),
        value_types: vec![("a".to_string(), "Int".to_string())],
        moved: moved.iter().map(|(n, l)| (n.to_string(), sp(*l))).collect(),
        moved_paths: Vec::new(),
        clean_locals: names(clean),
        fresh_returnable_locals: names(fresh),
    }
}

fn moved_names(s: &BodyState) -> Vec<(String, usize)> {
    let mut v: Vec<(String, usize)> = s.moved.iter().map(|(n, sp)| (n.clone(), sp.line)).collect();
    v.sort();
    v
}

fn sorted(v: &[String]) -> Vec<String> {
    let mut v = v.to_vec();
    v.sort();
    v
}

fn base() -> BodyState {
    state(&["a", "b", "c"], &[("c", 1)], &["a", "b", "m"], &["a", "b"])
}

#[test]
fn both_branches_falling_through_join_their_moves() {
    let then_state = state(&["a", "b", "c", "t"], &[("c", 1), ("a", 5), ("t", 6)], &["b", "m"], &["b"]);
    let else_state = state(&["a", "b", "c"], &[("c", 1), ("b", 7), ("a", 8)], &["a", "b", "m"], &["a", "b"]);
    let mut out = clone_state(&base());
    let flow = merge_if_state(&mut out, &base(), then_state, Flow::Fallthrough, Some((else_state, Flow::Fallthrough)), Flow::Return);
    assert_eq!(flow, Flow::Fallthrough);
    assert_eq!(moved_names(&out), vec![("a".to_string(), 5), ("b".to_string(), 7), ("c".to_string(), 1)]);
    assert_eq!(sorted(&out.clean_locals), names(&["b", "m"]));
    assert_eq!(sorted(&out.fresh_returnable_locals), names(&["b"]));
    assert_eq!(out.locals, base().locals);
}

#[test]
fn a_branch_that_leaves_does_not_join() {
    let then_state = state(&["a", "b", "c"], &[("c", 1), ("a", 5)], &["b"], &["b"]);
    let mut out = clone_state(&base());
    let flow = merge_if_state(&mut out, &base(), then_state, Flow::Return, None, Flow::Return);
    assert_eq!(flow, Flow::Fallthrough);
    assert_eq!(moved_names(&out), vec![("c".to_string(), 1)]);
    assert_eq!(sorted(&out.clean_locals), names(&["a", "b", "m"]));
}

#[test]
fn both_branches_leaving_keep_the_base_state() {
    let then_state = state(&["a"], &[("a", 5)], &[], &[]);
    let else_state = state(&["a"], &[("b", 6)], &[], &[]);
    let mut out = state(&[], &[], &[], &[]);
    let flow = merge_if_state(&mut out, &base(), then_state, Flow::Return, Some((else_state, Flow::Break)), Flow::Break);
    assert_eq!(flow, Flow::Break);
    assert_eq!(moved_names(&out), moved_names(&base()));
    assert_eq!(out.clean_locals, base().clean_locals);
}

#[test]
fn only_tracked_moves_survive_a_projection() {
    let mut branch = state(&["a", "b", "c", "x"], &[("x", 3), ("b", 4)], &["a", "b", "zz"], &["a", "zz"]);
    branch.moved_paths = vec![
        MovedPath { path: "a.f".to_string(), root: Some("a".to_string()), span: sp(9) },
        MovedPath { path: "x.g".to_string(), root: Some("x".to_string()), span: sp(10) },
    ];
    let out = fallthrough_projection(&base(), &branch);
    assert_eq!(moved_names(&out), vec![("b".to_string(), 4), ("c".to_string(), 1)]);
    let paths: Vec<&str> = out.moved_paths.iter().map(|p| p.path.as_str()).collect();
    assert_eq!(paths, vec!["a.f"]);
    assert_eq!(sorted(&out.clean_locals), names(&["a", "b"]));
    assert_eq!(sorted(&out.fresh_returnable_locals), names(&["a"]));
}

#[test]
fn swapping_the_branches_moves_the_same_locals() {
    let left = state(&["a", "b", "c"], &[("a", 2)], &["a"], &["a"]);
    let right = state(&["a", "b", "c"], &[("b", 3)], &["a", "b"], &["a"]);
    let one = merge_fallthrough_states(&base(), &left, &right);
    let two = merge_fallthrough_states(&base(), &right, &left);
    let keys = |s: &BodyState| {
        let mut v: Vec<String> = s.moved.iter().map(|(n, _)| n.clone()).collect();
        v.sort();
        v
    };
    assert_eq!(keys(&one), keys(&two));
    assert_eq!(sorted(&one.clean_locals), sorted(&two.clean_locals));
}

#[test]
fn loops_join_by_how_the_body_leaves() {
    let body = state(&["a", "b", "c"], &[("a", 4)], &["a"], &[]);
    let mut out = state(&[], &[], &[], &[]);
    assert_eq!(merge_loop_state(&mut out, &base(), clone_state(&body), Flow::Return, false), Flow::Return);
    assert_eq!(moved_names(&out), moved_names(&base()));
    assert_eq!(merge_loop_state(&mut out, &base(), clone_state(&body), Flow::Break, false), Flow::Fallthrough);
    assert_eq!(moved_names(&out), vec![("a".to_string(), 4), ("c".to_string(), 1)]);
    assert_eq!(merge_loop_state(&mut out, &base(), clone_state(&body), Flow::Return, true), Flow::Fallthrough);
    assert_eq!(moved_names(&out), vec![("c".to_string(), 1)]);
    assert_eq!(sorted(&out.clean_locals), names(&["a"]));
    assert_eq!(merge_loop_state(&mut out, &base(), body, Flow::Fallthrough, true), Flow::Fallthrough);
    assert_eq!(moved_names(&out), vec![("a".to_string(), 4), ("c".to_string(), 1)]);
}

#[test]
fn a_loop_that_may_fall_through_joins_like_one_branch() {
    let body = state(&["a", "b", "c"], &[("b", 4)], &["a", "m"], &["a"]);
    let mut looped = state(&[], &[], &[], &[]);
    merge_loop_state(&mut looped, &base(), clone_state(&body), Flow::Continue, true);
    let projected = fallthrough_projection(&base(), &body);
    assert_eq!(moved_names(&looped), moved_names(&projected));
    assert_eq!(sorted(&looped.clean_locals), sorted(&projected.clean_locals));
    assert_eq!(sorted(&looped.fresh_returnable_locals), sorted(&projected.fresh_returnable_locals));
}

#[test]
fn joining_a_branch_with_itself_moves_what_it_moves() {
    let branch = state(&["a", "b", "c"], &[("a", 2), ("q", 3)], &["a"], &[]);
    let joined = merge_fallthrough_states(&base(), &branch, &clone_state(&branch));
    let projected = fallthrough_projection(&base(), &branch);
    assert_eq!(moved_names(&joined), moved_names(&projected));
    assert_eq!(moved_names(&joined), vec![("a".to_string(), 2), ("c".to_string(), 1)]);
}
