//! The execution facts of a package's functions: the resources they hold in
//! `with` blocks and the task groups they open, each reported once, in order.
use vstd::prelude::*;
use crate::ast::{Block, Item, MatchArm, Program, SelectArm, Stmt};
use crate::chars::str_eq;

verus! {

/// A resource a function holds for the extent of a `with` block.
#[derive(Debug)]
pub struct PackageAnalysisResourceLifetime {
    pub function: String,
    pub binding: String,
    pub acquisition: String,
    pub cleanup: String,
    pub cleanup_on_cancellation: bool,
}

/// A task group a function opens.
#[derive(Debug)]
pub struct PackageAnalysisTaskGroup {
    pub function: String,
    pub spawned_tasks: u32,
    pub select_arms: u32,
    pub drains_on_exit: bool,
    pub cleanup_on_cancellation: bool,
}

/// A count as a `u32`, saturating at `u32::MAX`.
pub open spec fn saturate(n: nat) -> u32 {
    if n > u32::MAX {
        u32::MAX
    } else {
        n as u32
    }
}

/// How many of the statements are `async let` bindings.
pub open spec fn async_lets(s: Seq<Stmt>) -> nat
    decreases s.len(),
{
    if s.len() == 0 {
        0
    } else {
        async_lets(s.drop_last()) + match s.last() {
            Stmt::Let(b) => if b.is_async {
                1nat
            } else {
                0nat
            },
            _ => 0nat,
        }
    }
}

/// How many arms the `select` statements among these have in all.
pub open spec fn select_arm_total(s: Seq<Stmt>) -> nat
    decreases s.len(),
{
    if s.len() == 0 {
        0
    } else {
        select_arm_total(s.drop_last()) + match s.last() {
            Stmt::Select(st) => st.arms@.len(),
            _ => 0nat,
        }
    }
}

/// The facts found in a body: the bindings of its `with` blocks, and the
/// (spawned tasks, select arms) counts of its task groups, each in the order
/// a pre-order walk meets them.
pub type Facts = (Seq<Seq<char>>, Seq<(u32, u32)>);

pub open spec fn no_facts() -> Facts {
    (Seq::empty(), Seq::empty())
}

pub open spec fn cat(a: Facts, b: Facts) -> Facts {
    (a.0 + b.0, a.1 + b.1)
}

pub open spec fn block_facts(b: Block) -> Facts
    decreases b, 0nat,
{
    stmts_facts(b.statements@)
}

pub open spec fn stmts_facts(s: Seq<Stmt>) -> Facts
    decreases s, 0nat,
{
    if s.len() == 0 {
        no_facts()
    } else {
        cat(stmts_facts(s.drop_last()), stmt_facts(s.last()))
    }
}

pub open spec fn arms_facts(s: Seq<MatchArm>) -> Facts
    decreases s, 0nat,
{
    if s.len() == 0 {
        no_facts()
    } else {
        cat(arms_facts(s.drop_last()), block_facts(s.last().body))
    }
}

pub open spec fn select_facts(s: Seq<SelectArm>) -> Facts
    decreases s, 0nat,
{
    if s.len() == 0 {
        no_facts()
    } else {
        cat(select_facts(s.drop_last()), block_facts(s.last().body))
    }
}

/// A statement's facts: a `with` block reports its binding, a task group its
/// counts, and both, like the other compound statements, what their bodies
/// hold.
pub open spec fn stmt_facts(s: Stmt) -> Facts
    decreases s, 0nat,
{
    match s {
        Stmt::With(w) => cat((seq![w.binding@], Seq::empty()), block_facts(w.body)),
        Stmt::TaskGroup(g) => cat(
            (
                Seq::empty(),
                seq![(saturate(async_lets(g.body.statements@)), saturate(select_arm_total(g.body.statements@)))],
            ),
            block_facts(g.body),
        ),
        Stmt::If(st) => cat(
            block_facts(st.then_body),
            match st.else_body {
                Some(b) => block_facts(b),
                None => no_facts(),
            },
        ),
        Stmt::Loop(st) => block_facts(st.body),
        Stmt::For(st) => block_facts(st.body),
        Stmt::Match(st) => arms_facts(st.arms@),
        Stmt::Select(st) => select_facts(st.arms@),
        Stmt::LetElse(st) => block_facts(st.else_body),
        _ => no_facts(),
    }
}

pub open spec fn resource_view(r: PackageAnalysisResourceLifetime) -> (Seq<char>, Seq<char>, Seq<char>, Seq<char>, bool) {
    (r.function@, r.binding@, r.acquisition@, r.cleanup@, r.cleanup_on_cancellation)
}

pub open spec fn resource_views(v: Seq<PackageAnalysisResourceLifetime>) -> Seq<
    (Seq<char>, Seq<char>, Seq<char>, Seq<char>, bool),
> {
    v.map_values(|r: PackageAnalysisResourceLifetime| resource_view(r))
}

pub open spec fn group_view(g: PackageAnalysisTaskGroup) -> (Seq<char>, u32, u32, bool, bool) {
    (g.function@, g.spawned_tasks, g.select_arms, g.drains_on_exit, g.cleanup_on_cancellation)
}

pub open spec fn group_views(v: Seq<PackageAnalysisTaskGroup>) -> Seq<(Seq<char>, u32, u32, bool, bool)> {
    v.map_values(|g: PackageAnalysisTaskGroup| group_view(g))
}

/// The resource records of function `f` for the given bindings.
pub open spec fn held(f: Seq<char>, bs: Seq<Seq<char>>) -> Seq<(Seq<char>, Seq<char>, Seq<char>, Seq<char>, bool)> {
    bs.map_values(|b: Seq<char>| (f, b, "with"@, "scope_exit"@, true))
}

/// The task group records of function `f` for the given counts.
pub open spec fn opened(f: Seq<char>, cs: Seq<(u32, u32)>) -> Seq<(Seq<char>, u32, u32, bool, bool)> {
    cs.map_values(|c: (u32, u32)| (f, c.0, c.1, true, true))
}

/// The number of `async let` bindings directly in a block, saturating.
pub fn count_async_bindings(block: &Block) -> (r: u32)
    ensures
        r == saturate(async_lets(block.statements@)),
{
    let s = &block.statements;
    let mut n: u32 = 0;
    let mut i: usize = 0;
    while i < s.len()
        invariant
            i <= s@.len(),
            n == saturate(async_lets(s@.take(i as int))),
        decreases s.len() - i,
    {
        assert(s@.take(i + 1).drop_last() == s@.take(i as int));
        match &s[i] {
            Stmt::Let(b) => {
                if b.is_async && n < u32::MAX {
                    n = n + 1;
                }
            },
            _ => {},
        }
        i += 1;
    }
    assert(s@.take(s@.len() as int) == s@);
    n
}

/// The number of `select` arms directly in a block, saturating.
pub fn count_select_arms(block: &Block) -> (r: u32)
    ensures
        r == saturate(select_arm_total(block.statements@)),
{
    let s = &block.statements;
    let mut n: u32 = 0;
    let mut i: usize = 0;
    while i < s.len()
        invariant
            i <= s@.len(),
            n == saturate(select_arm_total(s@.take(i as int))),
        decreases s.len() - i,
    {
        assert(s@.take(i + 1).drop_last() == s@.take(i as int));
        match &s[i] {
            Stmt::Select(st) => {
                let k = st.arms.len();
                if k as u64 >= (u32::MAX - n) as u64 {
                    n = u32::MAX;
                } else {
                    n = n + k as u32;
                }
            },
            _ => {},
        }
        i += 1;
    }
    assert(s@.take(s@.len() as int) == s@);
    n
}

pub proof fn lemma_held_cat(f: Seq<char>, a: Seq<Seq<char>>, b: Seq<Seq<char>>)
    ensures
        held(f, a + b) == held(f, a) + held(f, b),
{
    assert(held(f, a + b) =~= held(f, a) + held(f, b));
}

pub proof fn lemma_opened_cat(f: Seq<char>, a: Seq<(u32, u32)>, b: Seq<(u32, u32)>)
    ensures
        opened(f, a + b) == opened(f, a) + opened(f, b),
{
    assert(opened(f, a + b) =~= opened(f, a) + opened(f, b));
}

fn collect_arms(
    function: &str,
    v: &Vec<MatchArm>,
    resources: &mut Vec<PackageAnalysisResourceLifetime>,
    task_groups: &mut Vec<PackageAnalysisTaskGroup>,
)
    ensures
        resource_views(final(resources)@) == resource_views(old(resources)@) + held(function@, arms_facts(v@).0),
        group_views(final(task_groups)@) == group_views(old(task_groups)@) + opened(function@, arms_facts(v@).1),
    decreases v,
{
    let ghost r0 = resource_views(resources@);
    let ghost g0 = group_views(task_groups@);
    let mut i: usize = 0;
    while i < v.len()
        invariant
            i <= v@.len(),
            resource_views(resources@) == r0 + held(function@, arms_facts(v@.take(i as int)).0),
            group_views(task_groups@) == g0 + opened(function@, arms_facts(v@.take(i as int)).1),
        decreases v.len() - i,
    {
        proof {
            assert(decreases_to!(*v => v@[i as int].body));
        }
        collect_block(function, &v[i].body, resources, task_groups);
        proof {
            let t = v@.take(i + 1);
            assert(t.drop_last() == v@.take(i as int));
            lemma_held_cat(function@, arms_facts(v@.take(i as int)).0, block_facts(v@[i as int].body).0);
            lemma_opened_cat(function@, arms_facts(v@.take(i as int)).1, block_facts(v@[i as int].body).1);
        }
        i += 1;
    }
    assert(v@.take(v@.len() as int) == v@);
}

fn collect_select(
    function: &str,
    v: &Vec<SelectArm>,
    resources: &mut Vec<PackageAnalysisResourceLifetime>,
    task_groups: &mut Vec<PackageAnalysisTaskGroup>,
)
    ensures
        resource_views(final(resources)@) == resource_views(old(resources)@) + held(function@, select_facts(v@).0),
        group_views(final(task_groups)@) == group_views(old(task_groups)@) + opened(function@, select_facts(v@).1),
    decreases v,
{
    let ghost r0 = resource_views(resources@);
    let ghost g0 = group_views(task_groups@);
    let mut i: usize = 0;
    while i < v.len()
        invariant
            i <= v@.len(),
            resource_views(resources@) == r0 + held(function@, select_facts(v@.take(i as int)).0),
            group_views(task_groups@) == g0 + opened(function@, select_facts(v@.take(i as int)).1),
        decreases v.len() - i,
    {
        proof {
            assert(decreases_to!(*v => v@[i as int].body));
        }
        collect_block(function, &v[i].body, resources, task_groups);
        proof {
            let t = v@.take(i + 1);
            assert(t.drop_last() == v@.take(i as int));
            lemma_held_cat(function@, select_facts(v@.take(i as int)).0, block_facts(v@[i as int].body).0);
            lemma_opened_cat(function@, select_facts(v@.take(i as int)).1, block_facts(v@[i as int].body).1);
        }
        i += 1;
    }
    assert(v@.take(v@.len() as int) == v@);
}

/// Appends the facts of one function body: a resource record for each
/// `with` block and a task group record for each task group, found by a
/// pre-order walk through nested blocks, match arms and select arms.
pub fn collect_block(
    function: &str,
    block: &Block,
    resources: &mut Vec<PackageAnalysisResourceLifetime>,
    task_groups: &mut Vec<PackageAnalysisTaskGroup>,
)
    ensures
        resource_views(final(resources)@) == resource_views(old(resources)@) + held(function@, block_facts(*block).0),
        group_views(final(task_groups)@) == group_views(old(task_groups)@) + opened(function@, block_facts(*block).1),
    decreases block,
{
    let ghost r0 = resource_views(resources@);
    let ghost g0 = group_views(task_groups@);
    let s = &block.statements;
    let mut i: usize = 0;
    while i < s.len()
        invariant
            s == &block.statements,
            i <= s@.len(),
            resource_views(resources@) == r0 + held(function@, stmts_facts(s@.take(i as int)).0),
            group_views(task_groups@) == g0 + opened(function@, stmts_facts(s@.take(i as int)).1),
        decreases s.len() - i,
    {
        proof {
            assert(decreases_to!(*block => block.statements@[i as int]));
        }
        collect_stmt(function, &s[i], resources, task_groups);
        proof {
            let t = s@.take(i + 1);
            assert(t.drop_last() == s@.take(i as int));
            lemma_held_cat(function@, stmts_facts(s@.take(i as int)).0, stmt_facts(s@[i as int]).0);
            lemma_opened_cat(function@, stmts_facts(s@.take(i as int)).1, stmt_facts(s@[i as int]).1);
        }
        i += 1;
    }
    assert(s@.take(s@.len() as int) == s@);
}

fn collect_stmt(
    function: &str,
    statement: &Stmt,
    resources: &mut Vec<PackageAnalysisResourceLifetime>,
    task_groups: &mut Vec<PackageAnalysisTaskGroup>,
)
    ensures
        resource_views(final(resources)@) == resource_views(old(resources)@) + held(function@, stmt_facts(*statement).0),
        group_views(final(task_groups)@) == group_views(old(task_groups)@) + opened(function@, stmt_facts(*statement).1),
    decreases statement,
{
    let ghost r0 = resource_views(resources@);
    let ghost g0 = group_views(task_groups@);
    match statement {
        Stmt::With(with) => {
            let record = PackageAnalysisResourceLifetime {
                function: function.to_string(),
                binding: with.binding.clone(),
                acquisition: "with".to_string(),
                cleanup: "scope_exit".to_string(),
                cleanup_on_cancellation: true,
            };
            resources.push(record);
            proof {
                assert(resource_views(resources@) =~= r0 + held(function@, seq![with.binding@]));
            }
            collect_block(function, &with.body, resources, task_groups);
            proof {
                lemma_held_cat(function@, seq![with.binding@], block_facts(with.body).0);
                lemma_opened_cat(function@, Seq::empty(), block_facts(with.body).1);
                assert(Seq::<(u32, u32)>::empty() + block_facts(with.body).1 == block_facts(with.body).1);
                assert(opened(function@, Seq::empty()) =~= Seq::empty());
            }
        },
        Stmt::TaskGroup(group) => {
            let spawned = count_async_bindings(&group.body);
            let arms = count_select_arms(&group.body);
            let record = PackageAnalysisTaskGroup {
                function: function.to_string(),
                spawned_tasks: spawned,
                select_arms: arms,
                drains_on_exit: true,
                cleanup_on_cancellation: true,
            };
            task_groups.push(record);
            proof {
                assert(group_views(task_groups@) =~= g0 + opened(function@, seq![(spawned, arms)]));
            }
            collect_block(function, &group.body, resources, task_groups);
            proof {
                lemma_opened_cat(function@, seq![(spawned, arms)], block_facts(group.body).1);
                lemma_held_cat(function@, Seq::empty(), block_facts(group.body).0);
                assert(Seq::<Seq<char>>::empty() + block_facts(group.body).0 == block_facts(group.body).0);
                assert(held(function@, Seq::empty()) =~= Seq::empty());
            }
        },
        Stmt::If(statement) => {
            collect_block(function, &statement.then_body, resources, task_groups);
            match &statement.else_body {
                Some(else_body) => {
                    collect_block(function, else_body, resources, task_groups);
                    proof {
                        lemma_held_cat(function@, block_facts(statement.then_body).0, block_facts(*else_body).0);
                        lemma_opened_cat(function@, block_facts(statement.then_body).1, block_facts(*else_body).1);
                    }
                },
                None => {
                    proof {
                        assert(block_facts(statement.then_body).0 + Seq::<Seq<char>>::empty() == block_facts(
                            statement.then_body,
                        ).0);
                        assert(block_facts(statement.then_body).1 + Seq::<(u32, u32)>::empty() == block_facts(
                            statement.then_body,
                        ).1);
                    }
                },
            }
        },
        Stmt::Loop(statement) => collect_block(function, &statement.body, resources, task_groups),
        Stmt::For(statement) => collect_block(function, &statement.body, resources, task_groups),
        Stmt::Match(statement) => collect_arms(function, &statement.arms, resources, task_groups),
        Stmt::Select(statement) => collect_select(function, &statement.arms, resources, task_groups),
        Stmt::LetElse(statement) => collect_block(function, &statement.else_body, resources, task_groups),
        _ => {
            proof {
                assert(resource_views(resources@) =~= r0 + held(function@, Seq::empty()));
                assert(group_views(task_groups@) =~= g0 + opened(function@, Seq::empty()));
            }
        },
    }
}

// ---------------------------------------------------------------------------
// Order and deduplication
// ---------------------------------------------------------------------------

/// Lexicographic order of texts by character, the order `str`'s `Ord` gives
/// (UTF-8 byte order and code point order agree).
pub open spec fn text_lt(a: Seq<char>, b: Seq<char>) -> bool
    decreases a.len(),
{
    if b.len() == 0 {
        false
    } else if a.len() == 0 {
        true
    } else if a[0] != b[0] {
        (a[0] as int) < (b[0] as int)
    } else {
        text_lt(a.drop_first(), b.drop_first())
    }
}

pub proof fn lemma_text_lt_irreflexive(a: Seq<char>)
    ensures
        !text_lt(a, a),
    decreases a.len(),
{
    if a.len() > 0 {
        lemma_text_lt_irreflexive(a.drop_first());
    }
}

pub proof fn lemma_text_lt_transitive(a: Seq<char>, b: Seq<char>, c: Seq<char>)
    requires
        text_lt(a, b),
        text_lt(b, c),
    ensures
        text_lt(a, c),
    decreases a.len(),
{
    if a.len() > 0 && b.len() > 0 && c.len() > 0 && a[0] == b[0] && b[0] == c[0] {
        lemma_text_lt_transitive(a.drop_first(), b.drop_first(), c.drop_first());
    }
}

pub proof fn lemma_text_lt_total(a: Seq<char>, b: Seq<char>)
    ensures
        a == b || text_lt(a, b) || text_lt(b, a),
        !(text_lt(a, b) && text_lt(b, a)),
    decreases a.len(),
{
    if a.len() > 0 && b.len() > 0 {
        if a[0] == b[0] {
            lemma_text_lt_total(a.drop_first(), b.drop_first());
            if a.drop_first() == b.drop_first() {
                assert(a =~= seq![a[0]] + a.drop_first());
                assert(b =~= seq![b[0]] + b.drop_first());
            }
        } else {
            assert((a[0] as int) != (b[0] as int));
        }
    } else if a.len() == 0 && b.len() == 0 {
        assert(a =~= b);
    }
}

pub fn text_less(a: &str, b: &str) -> (r: bool)
    ensures
        r == text_lt(a@, b@),
{
    let x = crate::chars::chars_of(a);
    let y = crate::chars::chars_of(b);
    let mut i: usize = 0;
    assert(x@.skip(0) == x@ && y@.skip(0) == y@);
    while i < x.len() && i < y.len() && x[i] == y[i]
        invariant
            x@ == a@,
            y@ == b@,
            i <= x@.len(),
            i <= y@.len(),
            text_lt(a@, b@) == text_lt(x@.skip(i as int), y@.skip(i as int)),
        decreases x.len() - i,
    {
        assert(x@.skip(i as int).drop_first() == x@.skip(i + 1));
        assert(y@.skip(i as int).drop_first() == y@.skip(i + 1));
        i += 1;
    }
    if i == y.len() {
        false
    } else if i == x.len() {
        true
    } else {
        x[i] < y[i]
    }
}

/// The shape of every resource record: acquired by `with`, released at
/// scope exit, and on cancellation.
pub open spec fn resource_shape(v: (Seq<char>, Seq<char>, Seq<char>, Seq<char>, bool)) -> bool {
    v.2 == "with"@ && v.3 == "scope_exit"@ && v.4
}

/// Resource records in order of function, then binding.
pub open spec fn resource_lt(
    a: (Seq<char>, Seq<char>, Seq<char>, Seq<char>, bool),
    b: (Seq<char>, Seq<char>, Seq<char>, Seq<char>, bool),
) -> bool {
    text_lt(a.0, b.0) || (a.0 == b.0 && text_lt(a.1, b.1))
}

/// The shape of every task group record: it drains on exit and cleans up on
/// cancellation.
pub open spec fn group_shape(v: (Seq<char>, u32, u32, bool, bool)) -> bool {
    v.3 && v.4
}

/// Task group records in order of function, spawned tasks, then select arms.
pub open spec fn group_lt(a: (Seq<char>, u32, u32, bool, bool), b: (Seq<char>, u32, u32, bool, bool)) -> bool {
    text_lt(a.0, b.0) || (a.0 == b.0 && (a.1 < b.1 || (a.1 == b.1 && a.2 < b.2)))
}

/// Strictly ascending: in order, and so with no record twice.
pub open spec fn resources_ascending(s: Seq<(Seq<char>, Seq<char>, Seq<char>, Seq<char>, bool)>) -> bool {
    forall|i: int, j: int| 0 <= i < j < s.len() ==> resource_lt(#[trigger] s[i], #[trigger] s[j])
}

pub open spec fn groups_ascending(s: Seq<(Seq<char>, u32, u32, bool, bool)>) -> bool {
    forall|i: int, j: int| 0 <= i < j < s.len() ==> group_lt(#[trigger] s[i], #[trigger] s[j])
}

proof fn lemma_resource_lt_facts(
    a: (Seq<char>, Seq<char>, Seq<char>, Seq<char>, bool),
    b: (Seq<char>, Seq<char>, Seq<char>, Seq<char>, bool),
    c: (Seq<char>, Seq<char>, Seq<char>, Seq<char>, bool),
)
    requires
        resource_shape(a),
        resource_shape(b),
    ensures
        !resource_lt(a, a),
        a == b || resource_lt(a, b) || resource_lt(b, a),
        !(resource_lt(a, b) && resource_lt(b, a)),
        resource_lt(a, b) && resource_lt(b, c) ==> resource_lt(a, c),
{
    lemma_text_lt_irreflexive(a.0);
    lemma_text_lt_irreflexive(a.1);
    lemma_text_lt_total(a.0, b.0);
    lemma_text_lt_total(a.1, b.1);
    if resource_lt(a, b) && resource_lt(b, c) {
        if text_lt(a.0, b.0) && text_lt(b.0, c.0) {
            lemma_text_lt_transitive(a.0, b.0, c.0);
        }
        if a.0 == b.0 && b.0 == c.0 {
            lemma_text_lt_transitive(a.1, b.1, c.1);
        }
    }
}

proof fn lemma_group_lt_facts(
    a: (Seq<char>, u32, u32, bool, bool),
    b: (Seq<char>, u32, u32, bool, bool),
    c: (Seq<char>, u32, u32, bool, bool),
)
    requires
        group_shape(a),
        group_shape(b),
    ensures
        !group_lt(a, a),
        a == b || group_lt(a, b) || group_lt(b, a),
        !(group_lt(a, b) && group_lt(b, a)),
        group_lt(a, b) && group_lt(b, c) ==> group_lt(a, c),
{
    lemma_text_lt_irreflexive(a.0);
    lemma_text_lt_total(a.0, b.0);
    if group_lt(a, b) && group_lt(b, c) {
        if text_lt(a.0, b.0) && text_lt(b.0, c.0) {
            lemma_text_lt_transitive(a.0, b.0, c.0);
        }
    }
}

fn resource_less(a: &PackageAnalysisResourceLifetime, b: &PackageAnalysisResourceLifetime) -> (r: bool)
    ensures
        r == resource_lt(resource_view(*a), resource_view(*b)),
{
    text_less(a.function.as_str(), b.function.as_str()) || (str_eq(a.function.as_str(), b.function.as_str())
        && text_less(a.binding.as_str(), b.binding.as_str()))
}

fn resource_same(a: &PackageAnalysisResourceLifetime, b: &PackageAnalysisResourceLifetime) -> (r: bool)
    ensures
        r == (resource_view(*a) == resource_view(*b)),
{
    str_eq(a.function.as_str(), b.function.as_str()) && str_eq(a.binding.as_str(), b.binding.as_str()) && str_eq(
        a.acquisition.as_str(),
        b.acquisition.as_str(),
    ) && str_eq(a.cleanup.as_str(), b.cleanup.as_str()) && a.cleanup_on_cancellation == b.cleanup_on_cancellation
}

proof fn lemma_resource_insert_ascending(s: Seq<(Seq<char>, Seq<char>, Seq<char>, Seq<char>, bool)>, k: int, x: (Seq<char>, Seq<char>, Seq<char>, Seq<char>, bool))
    requires
        resources_ascending(s),
        forall|i: int| 0 <= i < s.len() ==> resource_shape(#[trigger] s[i]),
        resource_shape(x),
        0 <= k <= s.len(),
        forall|i: int| 0 <= i < k ==> resource_lt(#[trigger] s[i], x),
        k < s.len() ==> !resource_lt(s[k], x) && s[k] != x,
    ensures
        resources_ascending(s.insert(k, x)),
{
    let t = s.insert(k, x);
    assert forall|i: int, j: int| 0 <= i < j < t.len() implies resource_lt(#[trigger] t[i], #[trigger] t[j]) by {
        if j < k {
            assert(t[i] == s[i] && t[j] == s[j]);
        } else if j == k {
            assert(t[i] == s[i] && t[j] == x);
        } else if i < k {
            assert(t[i] == s[i] && t[j] == s[j - 1]);
        } else if i == k {
            assert(t[i] == x && t[j] == s[j - 1]);
            lemma_resource_lt_facts(s[k], x, s[j - 1]);
            lemma_resource_lt_facts(x, s[k], s[j - 1]);
            if j - 1 > k {
                assert(resource_lt(s[k], s[j - 1]));
            }
        } else {
            assert(t[i] == s[i - 1] && t[j] == s[j - 1]);
        }
    }
}

proof fn lemma_resource_insert_members(s: Seq<(Seq<char>, Seq<char>, Seq<char>, Seq<char>, bool)>, k: int, x: (Seq<char>, Seq<char>, Seq<char>, Seq<char>, bool))
    requires
        0 <= k <= s.len(),
    ensures
        s.insert(k, x).to_set() == s.to_set().insert(x),
{
    let t = s.insert(k, x);
    assert forall|y: (Seq<char>, Seq<char>, Seq<char>, Seq<char>, bool)| t.to_set().contains(y) <==> s.to_set().insert(x).contains(y) by {
        if t.contains(y) {
            let i = choose|i: int| 0 <= i < t.len() && t[i] == y;
            if i < k {
                assert(s[i] == y);
            } else if i > k {
                assert(s[i - 1] == y);
            }
        }
        if s.contains(y) {
            let i = choose|i: int| 0 <= i < s.len() && s[i] == y;
            if i < k {
                assert(t[i] == y);
            } else {
                assert(t[i + 1] == y);
            }
        }
        if y == x {
            assert(t[k] == y);
        }
    }
    assert(t.to_set() =~= s.to_set().insert(x));
}

/// Adds a record to an ascending list unless it is there already.
fn insert_resource(sorted: &mut Vec<PackageAnalysisResourceLifetime>, x: PackageAnalysisResourceLifetime)
    requires
        resources_ascending(resource_views(old(sorted)@)),
        forall|i: int| 0 <= i < old(sorted)@.len() ==> resource_shape(#[trigger] resource_views(old(sorted)@)[i]),
        resource_shape(resource_view(x)),
    ensures
        resources_ascending(resource_views(final(sorted)@)),
        forall|i: int| 0 <= i < final(sorted)@.len() ==> resource_shape(#[trigger] resource_views(final(sorted)@)[i]),
        resource_views(final(sorted)@).to_set() == resource_views(old(sorted)@).to_set().insert(resource_view(x)),
{
    let ghost s = resource_views(sorted@);
    let ghost xv = resource_view(x);
    let mut k: usize = 0;
    while k < sorted.len() && resource_less(&sorted[k], &x)
        invariant
            s == resource_views(sorted@),
            k <= sorted@.len(),
            forall|i: int| 0 <= i < k ==> resource_lt(#[trigger] s[i], xv),
            xv == resource_view(x),
        decreases sorted.len() - k,
    {
        assert(s[k as int] == resource_view(sorted@[k as int]));
        k += 1;
    }
    if k < sorted.len() && resource_same(&sorted[k], &x) {
        proof {
            assert(s[k as int] == xv);
            assert(s.to_set().insert(xv) =~= s.to_set());
        }
        return;
    }
    proof {
        if k < s.len() {
            assert(!resource_lt(s[k as int], xv));
            assert(s[k as int] != xv);
        }
        lemma_resource_insert_ascending(s, k as int, xv);
        lemma_resource_insert_members(s, k as int, xv);
    }
    sorted.insert(k, x);
    assert(resource_views(sorted@) =~= s.insert(k as int, xv));
}

/// The records in ascending order, each once.
fn sorted_resources(v: Vec<PackageAnalysisResourceLifetime>) -> (r: Vec<PackageAnalysisResourceLifetime>)
    requires
        forall|i: int| 0 <= i < v@.len() ==> resource_shape(#[trigger] resource_views(v@)[i]),
    ensures
        resources_ascending(resource_views(r@)),
        resource_views(r@).to_set() == resource_views(v@).to_set(),
{
    let ghost all = resource_views(v@);
    let mut rest = v;
    let mut out: Vec<PackageAnalysisResourceLifetime> = Vec::new();
    let mut k: usize = 0;
    let n = rest.len();
    proof {
        assert(all.take(0).to_set() =~= Set::empty());
        assert(resource_views(out@).to_set() =~= Set::empty());
    }
    while 0 < rest.len()
        invariant
            k + rest@.len() == n,
            n == all.len(),
            resource_views(rest@) == all.skip(k as int),
            forall|i: int| 0 <= i < all.len() ==> resource_shape(#[trigger] all[i]),
            resources_ascending(resource_views(out@)),
            forall|i: int| 0 <= i < out@.len() ==> resource_shape(#[trigger] resource_views(out@)[i]),
            resource_views(out@).to_set() == all.take(k as int).to_set(),
        decreases rest.len(),
    {
        let ghost before = rest@;
        let x = rest.remove(0);
        proof {
            assert(resource_views(before)[0] == resource_view(before[0]));
            assert(all.skip(k as int)[0] == all[k as int]);
            assert(resource_view(x) == all[k as int]);
            assert(resource_views(rest@) =~= resource_views(before).skip(1));
            assert(all.skip(k as int).skip(1) =~= all.skip(k + 1));
            assert(resource_views(rest@) =~= all.skip(k + 1));
            assert(all.take(k + 1) == all.take(k as int).push(all[k as int]));
            assert(all.take(k as int).push(all[k as int]).to_set() =~= all.take(k as int).to_set().insert(
                all[k as int],
            )) by {
                let t = all.take(k as int);
                assert forall|y| t.push(all[k as int]).to_set().contains(y) <==> t.to_set().insert(
                    all[k as int],
                ).contains(y) by {
                    if t.push(all[k as int]).contains(y) {
                        let i = choose|i: int| 0 <= i < t.len() + 1 && t.push(all[k as int])[i] == y;
                        if i < t.len() {
                            assert(t[i] == y);
                        }
                    }
                    if t.contains(y) {
                        let i = choose|i: int| 0 <= i < t.len() && t[i] == y;
                        assert(t.push(all[k as int])[i] == y);
                    }
                    if y == all[k as int] {
                        assert(t.push(all[k as int])[t.len() as int] == y);
                    }
                }
            }
        }
        insert_resource(&mut out, x);
        k += 1;
    }
    proof {
        assert(all.take(n as int) == all);
    }
    out
}

fn group_less(a: &PackageAnalysisTaskGroup, b: &PackageAnalysisTaskGroup) -> (r: bool)
    ensures
        r == group_lt(group_view(*a), group_view(*b)),
{
    text_less(a.function.as_str(), b.function.as_str()) || (str_eq(a.function.as_str(), b.function.as_str()) && (
    a.spawned_tasks < b.spawned_tasks || (a.spawned_tasks == b.spawned_tasks && a.select_arms < b.select_arms)))
}

fn group_same(a: &PackageAnalysisTaskGroup, b: &PackageAnalysisTaskGroup) -> (r: bool)
    ensures
        r == (group_view(*a) == group_view(*b)),
{
    str_eq(a.function.as_str(), b.function.as_str()) && a.spawned_tasks == b.spawned_tasks && a.select_arms
        == b.select_arms && a.drains_on_exit == b.drains_on_exit && a.cleanup_on_cancellation
        == b.cleanup_on_cancellation
}

proof fn lemma_group_insert_ascending(s: Seq<(Seq<char>, u32, u32, bool, bool)>, k: int, x: (Seq<char>, u32, u32, bool, bool))
    requires
        groups_ascending(s),
        forall|i: int| 0 <= i < s.len() ==> group_shape(#[trigger] s[i]),
        group_shape(x),
        0 <= k <= s.len(),
        forall|i: int| 0 <= i < k ==> group_lt(#[trigger] s[i], x),
        k < s.len() ==> !group_lt(s[k], x) && s[k] != x,
    ensures
        groups_ascending(s.insert(k, x)),
{
    let t = s.insert(k, x);
    assert forall|i: int, j: int| 0 <= i < j < t.len() implies group_lt(#[trigger] t[i], #[trigger] t[j]) by {
        if j < k {
            assert(t[i] == s[i] && t[j] == s[j]);
        } else if j == k {
            assert(t[i] == s[i] && t[j] == x);
        } else if i < k {
            assert(t[i] == s[i] && t[j] == s[j - 1]);
        } else if i == k {
            assert(t[i] == x && t[j] == s[j - 1]);
            lemma_group_lt_facts(s[k], x, s[j - 1]);
            lemma_group_lt_facts(x, s[k], s[j - 1]);
            if j - 1 > k {
                assert(group_lt(s[k], s[j - 1]));
            }
        } else {
            assert(t[i] == s[i - 1] && t[j] == s[j - 1]);
        }
    }
}

proof fn lemma_group_insert_members(s: Seq<(Seq<char>, u32, u32, bool, bool)>, k: int, x: (Seq<char>, u32, u32, bool, bool))
    requires
        0 <= k <= s.len(),
    ensures
        s.insert(k, x).to_set() == s.to_set().insert(x),
{
    let t = s.insert(k, x);
    assert forall|y: (Seq<char>, u32, u32, bool, bool)| t.to_set().contains(y) <==> s.to_set().insert(x).contains(y) by {
        if t.contains(y) {
            let i = choose|i: int| 0 <= i < t.len() && t[i] == y;
            if i < k {
                assert(s[i] == y);
            } else if i > k {
                assert(s[i - 1] == y);
            }
        }
        if s.contains(y) {
            let i = choose|i: int| 0 <= i < s.len() && s[i] == y;
            if i < k {
                assert(t[i] == y);
            } else {
                assert(t[i + 1] == y);
            }
        }
        if y == x {
            assert(t[k] == y);
        }
    }
    assert(t.to_set() =~= s.to_set().insert(x));
}

/// Adds a record to an ascending list unless it is there already.
fn insert_group(sorted: &mut Vec<PackageAnalysisTaskGroup>, x: PackageAnalysisTaskGroup)
    requires
        groups_ascending(group_views(old(sorted)@)),
        forall|i: int| 0 <= i < old(sorted)@.len() ==> group_shape(#[trigger] group_views(old(sorted)@)[i]),
        group_shape(group_view(x)),
    ensures
        groups_ascending(group_views(final(sorted)@)),
        forall|i: int| 0 <= i < final(sorted)@.len() ==> group_shape(#[trigger] group_views(final(sorted)@)[i]),
        group_views(final(sorted)@).to_set() == group_views(old(sorted)@).to_set().insert(group_view(x)),
{
    let ghost s = group_views(sorted@);
    let ghost xv = group_view(x);
    let mut k: usize = 0;
    while k < sorted.len() && group_less(&sorted[k], &x)
        invariant
            s == group_views(sorted@),
            k <= sorted@.len(),
            forall|i: int| 0 <= i < k ==> group_lt(#[trigger] s[i], xv),
            xv == group_view(x),
        decreases sorted.len() - k,
    {
        assert(s[k as int] == group_view(sorted@[k as int]));
        k += 1;
    }
    if k < sorted.len() && group_same(&sorted[k], &x) {
        proof {
            assert(s[k as int] == xv);
            assert(s.to_set().insert(xv) =~= s.to_set());
        }
        return;
    }
    proof {
        if k < s.len() {
            assert(!group_lt(s[k as int], xv));
            assert(s[k as int] != xv);
        }
        lemma_group_insert_ascending(s, k as int, xv);
        lemma_group_insert_members(s, k as int, xv);
    }
    sorted.insert(k, x);
    assert(group_views(sorted@) =~= s.insert(k as int, xv));
}

/// The records in ascending order, each once.
fn sorted_groups(v: Vec<PackageAnalysisTaskGroup>) -> (r: Vec<PackageAnalysisTaskGroup>)
    requires
        forall|i: int| 0 <= i < v@.len() ==> group_shape(#[trigger] group_views(v@)[i]),
    ensures
        groups_ascending(group_views(r@)),
        group_views(r@).to_set() == group_views(v@).to_set(),
{
    let ghost all = group_views(v@);
    let mut rest = v;
    let mut out: Vec<PackageAnalysisTaskGroup> = Vec::new();
    let mut k: usize = 0;
    let n = rest.len();
    proof {
        assert(all.take(0).to_set() =~= Set::empty());
        assert(group_views(out@).to_set() =~= Set::empty());
    }
    while 0 < rest.len()
        invariant
            k + rest@.len() == n,
            n == all.len(),
            group_views(rest@) == all.skip(k as int),
            forall|i: int| 0 <= i < all.len() ==> group_shape(#[trigger] all[i]),
            groups_ascending(group_views(out@)),
            forall|i: int| 0 <= i < out@.len() ==> group_shape(#[trigger] group_views(out@)[i]),
            group_views(out@).to_set() == all.take(k as int).to_set(),
        decreases rest.len(),
    {
        let ghost before = rest@;
        let x = rest.remove(0);
        proof {
            assert(group_views(before)[0] == group_view(before[0]));
            assert(all.skip(k as int)[0] == all[k as int]);
            assert(group_view(x) == all[k as int]);
            assert(group_views(rest@) =~= group_views(before).skip(1));
            assert(all.skip(k as int).skip(1) =~= all.skip(k + 1));
            assert(group_views(rest@) =~= all.skip(k + 1));
            assert(all.take(k + 1) == all.take(k as int).push(all[k as int]));
            assert(all.take(k as int).push(all[k as int]).to_set() =~= all.take(k as int).to_set().insert(
                all[k as int],
            )) by {
                let t = all.take(k as int);
                assert forall|y| t.push(all[k as int]).to_set().contains(y) <==> t.to_set().insert(
                    all[k as int],
                ).contains(y) by {
                    if t.push(all[k as int]).contains(y) {
                        let i = choose|i: int| 0 <= i < t.len() + 1 && t.push(all[k as int])[i] == y;
                        if i < t.len() {
                            assert(t[i] == y);
                        }
                    }
                    if t.contains(y) {
                        let i = choose|i: int| 0 <= i < t.len() && t[i] == y;
                        assert(t.push(all[k as int])[i] == y);
                    }
                    if y == all[k as int] {
                        assert(t.push(all[k as int])[t.len() as int] == y);
                    }
                }
            }
        }
        insert_group(&mut out, x);
        k += 1;
    }
    proof {
        assert(all.take(n as int) == all);
    }
    out
}

/// The resource records of the functions among the items, in item order.
pub open spec fn items_resources(items: Seq<Item>) -> Seq<(Seq<char>, Seq<char>, Seq<char>, Seq<char>, bool)>
    decreases items.len(),
{
    if items.len() == 0 {
        Seq::empty()
    } else {
        items_resources(items.drop_last()) + match items.last() {
            Item::Function(f) => held(f.name@, block_facts(f.body).0),
            _ => Seq::empty(),
        }
    }
}

/// The task group records of the functions among the items, in item order.
pub open spec fn items_groups(items: Seq<Item>) -> Seq<(Seq<char>, u32, u32, bool, bool)>
    decreases items.len(),
{
    if items.len() == 0 {
        Seq::empty()
    } else {
        items_groups(items.drop_last()) + match items.last() {
            Item::Function(f) => opened(f.name@, block_facts(f.body).1),
            _ => Seq::empty(),
        }
    }
}

pub open spec fn programs_resources(ps: Seq<Program>) -> Seq<(Seq<char>, Seq<char>, Seq<char>, Seq<char>, bool)>
    decreases ps.len(),
{
    if ps.len() == 0 {
        Seq::empty()
    } else {
        programs_resources(ps.drop_last()) + items_resources(ps.last().items@)
    }
}

pub open spec fn programs_groups(ps: Seq<Program>) -> Seq<(Seq<char>, u32, u32, bool, bool)>
    decreases ps.len(),
{
    if ps.len() == 0 {
        Seq::empty()
    } else {
        programs_groups(ps.drop_last()) + items_groups(ps.last().items@)
    }
}

proof fn lemma_held_shape(
    old_v: Seq<(Seq<char>, Seq<char>, Seq<char>, Seq<char>, bool)>,
    f: Seq<char>,
    bs: Seq<Seq<char>>,
)
    requires
        forall|i: int| 0 <= i < old_v.len() ==> resource_shape(#[trigger] old_v[i]),
    ensures
        forall|i: int| 0 <= i < (old_v + held(f, bs)).len() ==> resource_shape(#[trigger] (old_v + held(f, bs))[i]),
{
    assert forall|i: int| 0 <= i < (old_v + held(f, bs)).len() implies resource_shape(
        #[trigger] (old_v + held(f, bs))[i],
    ) by {
        if i >= old_v.len() {
            assert((old_v + held(f, bs))[i] == held(f, bs)[i - old_v.len()]);
        } else {
            assert((old_v + held(f, bs))[i] == old_v[i]);
        }
    }
}

proof fn lemma_opened_shape(old_v: Seq<(Seq<char>, u32, u32, bool, bool)>, f: Seq<char>, cs: Seq<(u32, u32)>)
    requires
        forall|i: int| 0 <= i < old_v.len() ==> group_shape(#[trigger] old_v[i]),
    ensures
        forall|i: int| 0 <= i < (old_v + opened(f, cs)).len() ==> group_shape(#[trigger] (old_v + opened(f, cs))[i]),
{
    assert forall|i: int| 0 <= i < (old_v + opened(f, cs)).len() implies group_shape(
        #[trigger] (old_v + opened(f, cs))[i],
    ) by {
        if i >= old_v.len() {
            assert((old_v + opened(f, cs))[i] == opened(f, cs)[i - old_v.len()]);
        } else {
            assert((old_v + opened(f, cs))[i] == old_v[i]);
        }
    }
}

/// The resource lifetimes and task groups of every function of the given
/// source programs: each list in ascending order, with no record twice.
pub fn collect_execution_facts(programs: &Vec<Program>) -> (r: (
    Vec<PackageAnalysisResourceLifetime>,
    Vec<PackageAnalysisTaskGroup>,
))
    ensures
        resources_ascending(resource_views(r.0@)),
        resource_views(r.0@).to_set() == programs_resources(programs@).to_set(),
        groups_ascending(group_views(r.1@)),
        group_views(r.1@).to_set() == programs_groups(programs@).to_set(),
{
    let mut resources: Vec<PackageAnalysisResourceLifetime> = Vec::new();
    let mut task_groups: Vec<PackageAnalysisTaskGroup> = Vec::new();
    let mut p: usize = 0;
    while p < programs.len()
        invariant
            p <= programs@.len(),
            resource_views(resources@) == programs_resources(programs@.take(p as int)),
            group_views(task_groups@) == programs_groups(programs@.take(p as int)),
            forall|i: int| 0 <= i < resources@.len() ==> resource_shape(#[trigger] resource_views(resources@)[i]),
            forall|i: int| 0 <= i < task_groups@.len() ==> group_shape(#[trigger] group_views(task_groups@)[i]),
        decreases programs.len() - p,
    {
        let items = &programs[p].items;
        let ghost r0 = resource_views(resources@);
        let ghost g0 = group_views(task_groups@);
        let mut i: usize = 0;
        while i < items.len()
            invariant
                items == &programs@[p as int].items,
                i <= items@.len(),
                resource_views(resources@) == r0 + items_resources(items@.take(i as int)),
                group_views(task_groups@) == g0 + items_groups(items@.take(i as int)),
                forall|k: int| 0 <= k < resources@.len() ==> resource_shape(#[trigger] resource_views(resources@)[k]),
                forall|k: int| 0 <= k < task_groups@.len() ==> group_shape(#[trigger] group_views(task_groups@)[k]),
            decreases items.len() - i,
        {
            assert(items@.take(i + 1).drop_last() == items@.take(i as int));
            match &items[i] {
                Item::Function(function) => {
                    let ghost rb = resource_views(resources@);
                    let ghost gb = group_views(task_groups@);
                    collect_block(function.name.as_str(), &function.body, &mut resources, &mut task_groups);
                    proof {
                        lemma_held_shape(rb, function.name@, block_facts(function.body).0);
                        lemma_opened_shape(gb, function.name@, block_facts(function.body).1);
                    }
                },
                _ => {
                    assert(resource_views(resources@) =~= r0 + items_resources(items@.take(i + 1)));
                    assert(group_views(task_groups@) =~= g0 + items_groups(items@.take(i + 1)));
                },
            }
            i += 1;
        }
        assert(items@.take(items@.len() as int) == items@);
        assert(programs@.take(p + 1).drop_last() == programs@.take(p as int));
        p += 1;
    }
    assert(programs@.take(programs@.len() as int) == programs@);
    let sorted_resources = sorted_resources(resources);
    let sorted_groups = sorted_groups(task_groups);
    (sorted_resources, sorted_groups)
}

/// A strictly ascending sequence (under a relation that is irreflexive and
/// asymmetric) is fixed by the set of its elements.
pub proof fn lemma_ascending_determined<A>(a: Seq<A>, b: Seq<A>, lt: spec_fn(A, A) -> bool)
    requires
        forall|i: int, j: int| 0 <= i < j < a.len() ==> #[trigger] lt(a[i], a[j]),
        forall|i: int, j: int| 0 <= i < j < b.len() ==> #[trigger] lt(b[i], b[j]),
        forall|x: A| !#[trigger] lt(x, x),
        forall|x: A, y: A| !(#[trigger] lt(x, y) && #[trigger] lt(y, x)),
        a.to_set() == b.to_set(),
    ensures
        a == b,
    decreases a.len(),
{
    if a.len() == 0 {
        if b.len() > 0 {
            assert(b.to_set().contains(b[0]));
            assert(a.to_set().contains(b[0]));
        }
        assert(a =~= b);
    } else {
        assert(a.to_set().contains(a[0]));
        assert(b.to_set().contains(a[0]));
        let j = choose|j: int| 0 <= j < b.len() && b[j] == a[0];
        assert(b.to_set().contains(b[0]));
        assert(a.to_set().contains(b[0]));
        let i = choose|i: int| 0 <= i < a.len() && a[i] == b[0];
        if j > 0 {
            assert(lt(b[0], b[j]));
            if i > 0 {
                assert(lt(a[0], a[i]));
            }
        }
        assert(a[0] == b[0]);
        let a1 = a.drop_first();
        let b1 = b.drop_first();
        assert forall|x: A| a1.to_set().contains(x) <==> b1.to_set().contains(x) by {
            if a1.contains(x) {
                let k = choose|k: int| 0 <= k < a1.len() && a1[k] == x;
                assert(a[k + 1] == x);
                assert(lt(a[0], a[k + 1]));
                assert(a.to_set().contains(x));
                let m = choose|m: int| 0 <= m < b.len() && b[m] == x;
                if m == 0 {
                    assert(x == a[0]);
                } else {
                    assert(b1[m - 1] == x);
                }
            }
            if b1.contains(x) {
                let k = choose|k: int| 0 <= k < b1.len() && b1[k] == x;
                assert(b[k + 1] == x);
                assert(lt(b[0], b[k + 1]));
                assert(b.to_set().contains(x));
                let m = choose|m: int| 0 <= m < a.len() && a[m] == x;
                if m == 0 {
                    assert(x == b[0]);
                } else {
                    assert(a1[m - 1] == x);
                }
            }
        }
        assert(a1.to_set() =~= b1.to_set());
        assert forall|p: int, q: int| 0 <= p < q < a1.len() implies #[trigger] lt(a1[p], a1[q]) by {
            assert(lt(a[p + 1], a[q + 1]));
        }
        assert forall|p: int, q: int| 0 <= p < q < b1.len() implies #[trigger] lt(b1[p], b1[q]) by {
            assert(lt(b[p + 1], b[q + 1]));
        }
        lemma_ascending_determined(a1, b1, lt);
        assert(a =~= seq![a[0]] + a1);
        assert(b =~= seq![b[0]] + b1);
    }
}

/// Resource records in ascending order, each once, are fixed by which
/// records they are: the collected resource lifetimes do not depend on the
/// order in which files, functions and blocks were met.
pub proof fn law_ascending_resources_are_determined(
    a: Seq<(Seq<char>, Seq<char>, Seq<char>, Seq<char>, bool)>,
    b: Seq<(Seq<char>, Seq<char>, Seq<char>, Seq<char>, bool)>,
)
    requires
        resources_ascending(a),
        resources_ascending(b),
        a.to_set() == b.to_set(),
    ensures
        a == b,
{
    let lt = |x: (Seq<char>, Seq<char>, Seq<char>, Seq<char>, bool), y: (Seq<char>, Seq<char>, Seq<char>, Seq<char>, bool)|
        resource_lt(x, y);
    assert forall|x: (Seq<char>, Seq<char>, Seq<char>, Seq<char>, bool)| !#[trigger] lt(x, x) by {
        lemma_text_lt_irreflexive(x.0);
        lemma_text_lt_irreflexive(x.1);
    }
    assert forall|x: (Seq<char>, Seq<char>, Seq<char>, Seq<char>, bool), y: (Seq<char>, Seq<char>, Seq<char>, Seq<char>, bool)|
        !(#[trigger] lt(x, y) && #[trigger] lt(y, x)) by {
        lemma_text_lt_total(x.0, y.0);
        lemma_text_lt_total(x.1, y.1);
        lemma_text_lt_irreflexive(x.0);
    }
    assert forall|i: int, j: int| 0 <= i < j < a.len() implies #[trigger] lt(a[i], a[j]) by {
        assert(resource_lt(a[i], a[j]));
    }
    assert forall|i: int, j: int| 0 <= i < j < b.len() implies #[trigger] lt(b[i], b[j]) by {
        assert(resource_lt(b[i], b[j]));
    }
    lemma_ascending_determined(a, b, lt);
}

/// Task group records in ascending order, each once, are fixed by which
/// records they are.
pub proof fn law_ascending_groups_are_determined(
    a: Seq<(Seq<char>, u32, u32, bool, bool)>,
    b: Seq<(Seq<char>, u32, u32, bool, bool)>,
)
    requires
        groups_ascending(a),
        groups_ascending(b),
        a.to_set() == b.to_set(),
    ensures
        a == b,
{
    let lt = |x: (Seq<char>, u32, u32, bool, bool), y: (Seq<char>, u32, u32, bool, bool)| group_lt(x, y);
    assert forall|x: (Seq<char>, u32, u32, bool, bool)| !#[trigger] lt(x, x) by {
        lemma_text_lt_irreflexive(x.0);
    }
    assert forall|x: (Seq<char>, u32, u32, bool, bool), y: (Seq<char>, u32, u32, bool, bool)|
        !(#[trigger] lt(x, y) && #[trigger] lt(y, x)) by {
        lemma_text_lt_total(x.0, y.0);
        lemma_text_lt_irreflexive(x.0);
    }
    assert forall|i: int, j: int| 0 <= i < j < a.len() implies #[trigger] lt(a[i], a[j]) by {
        assert(group_lt(a[i], a[j]));
    }
    assert forall|i: int, j: int| 0 <= i < j < b.len() implies #[trigger] lt(b[i], b[j]) by {
        assert(group_lt(b[i], b[j]));
    }
    lemma_ascending_determined(a, b, lt);
}

} // verus!
