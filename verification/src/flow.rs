//! The ownership state of a function body where control flow joins: after
//! both branches of an `if`, and after a loop body. What a branch moved stays
//! moved when it was a local of the enclosing state; a local stays clean only
//! where every joining path kept it clean.
use vstd::prelude::*;
use crate::aliases::strs;
use crate::ast::Span;
use crate::chars::str_eq;
use crate::derives::{clone_strings, contains_name};
use crate::types::clone_span;

verus! {

/// How control leaves a statement or block.
#[derive(Clone, Copy, Debug, PartialEq, Eq, Structural)]
pub enum Flow {
    Fallthrough,
    Return,
    Break,
    Continue,
}

/// A moved field path (`a.b.c`), the local it starts from, and where it was
/// moved.
#[derive(Debug)]
pub struct MovedPath {
    pub path: String,
    pub root: Option<String>,
    pub span: Span,
}

/// The ownership state at a point of a function body.
#[derive(Debug)]
pub struct BodyState {
    pub locals: Vec<String>,
    pub field_splittable_locals: Vec<String>,
    pub managed: Vec<String>,
    pub read_views: Vec<String>,
    pub resources: Vec<String>,
    pub value_types: Vec<(String, String)>,
    /// The moved locals and where each was moved, one entry per name.
    pub moved: Vec<(String, Span)>,
    /// The moved field paths, one entry per path.
    pub moved_paths: Vec<MovedPath>,
    pub clean_locals: Vec<String>,
    pub fresh_returnable_locals: Vec<String>,
}

pub open spec fn moved_entries(v: Seq<(String, Span)>) -> Seq<(Seq<char>, Span)> {
    v.map_values(|e: (String, Span)| (e.0@, e.1))
}

pub open spec fn opt_str(o: Option<String>) -> Option<Seq<char>> {
    match o {
        Some(s) => Some(s@),
        None => None,
    }
}

pub open spec fn path_entries(v: Seq<MovedPath>) -> Seq<(Seq<char>, (Option<Seq<char>>, Span))> {
    v.map_values(|p: MovedPath| (p.path@, (opt_str(p.root), p.span)))
}

/// The map an entry list stands for (a later entry of a name wins).
pub open spec fn entry_map<V>(s: Seq<(Seq<char>, V)>) -> Map<Seq<char>, V>
    decreases s.len(),
{
    if s.len() == 0 {
        Map::empty()
    } else {
        entry_map(s.drop_last()).insert(s.last().0, s.last().1)
    }
}

/// No name has two entries.
pub open spec fn unique_keys<V>(s: Seq<(Seq<char>, V)>) -> bool {
    forall|i: int, j: int| 0 <= i < j < s.len() ==> s[i].0 != s[j].0
}

/// The abstract value of a body state.
pub struct StateView {
    pub locals: Seq<Seq<char>>,
    pub field_splittable_locals: Seq<Seq<char>>,
    pub managed: Seq<Seq<char>>,
    pub read_views: Seq<Seq<char>>,
    pub resources: Seq<Seq<char>>,
    pub value_types: Seq<(String, String)>,
    pub moved: Map<Seq<char>, Span>,
    pub moved_paths: Map<Seq<char>, (Option<Seq<char>>, Span)>,
    pub clean_locals: Set<Seq<char>>,
    pub fresh_returnable_locals: Set<Seq<char>>,
}

pub open spec fn sview(s: BodyState) -> StateView {
    StateView {
        locals: strs(s.locals@),
        field_splittable_locals: strs(s.field_splittable_locals@),
        managed: strs(s.managed@),
        read_views: strs(s.read_views@),
        resources: strs(s.resources@),
        value_types: s.value_types@,
        moved: entry_map(moved_entries(s.moved@)),
        moved_paths: entry_map(path_entries(s.moved_paths@)),
        clean_locals: strs(s.clean_locals@).to_set(),
        fresh_returnable_locals: strs(s.fresh_returnable_locals@).to_set(),
    }
}

/// Two states with the same contents, entry for entry.
pub open spec fn same_state(a: BodyState, b: BodyState) -> bool {
    &&& a.locals@ == b.locals@
    &&& a.field_splittable_locals@ == b.field_splittable_locals@
    &&& a.managed@ == b.managed@
    &&& a.read_views@ == b.read_views@
    &&& a.resources@ == b.resources@
    &&& a.value_types@ == b.value_types@
    &&& a.moved@ == b.moved@
    &&& a.moved_paths@ == b.moved_paths@
    &&& a.clean_locals@ == b.clean_locals@
    &&& a.fresh_returnable_locals@ == b.fresh_returnable_locals@
}

impl BodyState {
    /// One entry per moved local and per moved path.
    pub open spec fn wf(self) -> bool {
        unique_keys(moved_entries(self.moved@)) && unique_keys(path_entries(self.moved_paths@))
    }
}

// ---------------------------------------------------------------------------
// What a join keeps
// ---------------------------------------------------------------------------

/// `acc` with the moves of `branch` added that `base` tracks: those of its
/// locals or of names it already had moved; a name already in `acc` keeps
/// its entry.
pub open spec fn absorb_moved(acc: Map<Seq<char>, Span>, base: StateView, branch: Map<Seq<char>, Span>) -> Map<Seq<char>, Span> {
    Map::new(
        |k: Seq<char>| acc.contains_key(k) || (branch.contains_key(k) && (base.locals.contains(k)
            || base.moved.contains_key(k))),
        |k: Seq<char>| if acc.contains_key(k) { acc[k] } else { branch[k] },
    )
}

/// `acc` with the moved paths of `branch` added whose root is a local of
/// `base` or that `base` already had moved; a path already in `acc` keeps its
/// entry.
pub open spec fn absorb_paths(
    acc: Map<Seq<char>, (Option<Seq<char>>, Span)>,
    base: StateView,
    branch: Map<Seq<char>, (Option<Seq<char>>, Span)>,
) -> Map<Seq<char>, (Option<Seq<char>>, Span)> {
    Map::new(
        |k: Seq<char>| acc.contains_key(k) || (branch.contains_key(k) && ((branch[k].0 matches Some(r)
            && base.locals.contains(r)) || base.moved_paths.contains_key(k))),
        |k: Seq<char>| if acc.contains_key(k) { acc[k] } else { branch[k] },
    )
}

/// The locals `base` owns: its locals and its managed bindings.
pub open spec fn owned(base: StateView) -> Set<Seq<char>> {
    Set::new(|n: Seq<char>| base.locals.contains(n) || base.managed.contains(n))
}

/// The state after a single path falls through from `branch` to the join:
/// `base`'s bindings, `branch`'s tracked moves added, and the clean and
/// fresh-returnable locals that both `base` and `branch` keep.
pub open spec fn projection(base: StateView, branch: StateView) -> StateView {
    let clean = branch.clean_locals.intersect(base.clean_locals).intersect(owned(base));
    StateView {
        moved: absorb_moved(base.moved, base, branch.moved),
        moved_paths: absorb_paths(base.moved_paths, base, branch.moved_paths),
        clean_locals: clean,
        fresh_returnable_locals: branch.fresh_returnable_locals.intersect(base.fresh_returnable_locals).intersect(
            clean,
        ),
        ..base
    }
}

/// The state where two paths fall through to the join: `base`'s bindings,
/// the tracked moves of `left` then of `right` added, and the clean and
/// fresh-returnable locals that both paths keep.
pub open spec fn joined(base: StateView, left: StateView, right: StateView) -> StateView {
    let clean = left.clean_locals.intersect(right.clean_locals).intersect(owned(base));
    StateView {
        moved: absorb_moved(absorb_moved(base.moved, base, left.moved), base, right.moved),
        moved_paths: absorb_paths(absorb_paths(base.moved_paths, base, left.moved_paths), base, right.moved_paths),
        clean_locals: clean,
        fresh_returnable_locals: left.fresh_returnable_locals.intersect(right.fresh_returnable_locals).intersect(
            clean,
        ),
        ..base
    }
}

/// The state after a loop: `base`'s bindings, the body's tracked moves
/// unless the body always returns, and the clean and fresh-returnable locals
/// that both `base` and the body keep.
pub open spec fn after_loop(base: StateView, body: StateView, body_flow: Flow) -> StateView {
    let clean = base.clean_locals.intersect(body.clean_locals).intersect(owned(base));
    StateView {
        moved: if body_flow != Flow::Return {
            absorb_moved(base.moved, base, body.moved)
        } else {
            base.moved
        },
        moved_paths: if body_flow != Flow::Return {
            absorb_paths(base.moved_paths, base, body.moved_paths)
        } else {
            base.moved_paths
        },
        clean_locals: clean,
        fresh_returnable_locals: base.fresh_returnable_locals.intersect(body.fresh_returnable_locals).intersect(
            clean,
        ),
        ..base
    }
}

// ---------------------------------------------------------------------------
// Entry lists
// ---------------------------------------------------------------------------

pub proof fn lemma_entry_map<V>(s: Seq<(Seq<char>, V)>)
    ensures
        forall|k: Seq<char>|
            #[trigger] entry_map(s).contains_key(k) <==> exists|i: int| 0 <= i < s.len() && s[i].0 == k,
        unique_keys(s) ==> forall|i: int| 0 <= i < s.len() ==> entry_map(s)[#[trigger] s[i].0] == s[i].1,
    decreases s.len(),
{
    if s.len() > 0 {
        let t = s.drop_last();
        lemma_entry_map(t);
        assert forall|k: Seq<char>| #[trigger] entry_map(s).contains_key(k) implies exists|i: int|
            0 <= i < s.len() && s[i].0 == k by {
            if k == s.last().0 {
                assert(s[s.len() - 1].0 == k);
            } else {
                assert(entry_map(t).contains_key(k));
                let i = choose|i: int| 0 <= i < t.len() && t[i].0 == k;
                assert(s[i] == t[i]);
            }
        }
        assert forall|k: Seq<char>| (exists|i: int| 0 <= i < s.len() && s[i].0 == k) implies #[trigger] entry_map(
            s,
        ).contains_key(k) by {
            let i = choose|i: int| 0 <= i < s.len() && s[i].0 == k;
            if i < s.len() - 1 {
                assert(t[i] == s[i]);
                assert(entry_map(t).contains_key(k));
            }
        }
        if unique_keys(s) {
            assert(unique_keys(t));
            assert forall|i: int| 0 <= i < s.len() implies entry_map(s)[#[trigger] s[i].0] == s[i].1 by {
                if i < s.len() - 1 {
                    assert(t[i] == s[i]);
                    assert(s[i].0 != s.last().0);
                }
            }
        }
    }
}

proof fn lemma_entry_map_push<V>(s: Seq<(Seq<char>, V)>, e: (Seq<char>, V))
    ensures
        entry_map(s.push(e)) == entry_map(s).insert(e.0, e.1),
{
    assert(s.push(e).drop_last() == s);
}

fn has_moved(v: &Vec<(String, Span)>, k: &str) -> (r: bool)
    ensures
        r == entry_map(moved_entries(v@)).contains_key(k@),
{
    proof {
        lemma_entry_map(moved_entries(v@));
    }
    let mut i: usize = 0;
    while i < v.len()
        invariant
            i <= v@.len(),
            forall|j: int| 0 <= j < i ==> (#[trigger] moved_entries(v@)[j]).0 != k@,
        decreases v.len() - i,
    {
        if str_eq(v[i].0.as_str(), k) {
            assert(moved_entries(v@)[i as int].0 == k@);
            proof {
                lemma_entry_map(moved_entries(v@));
            }
            assert(entry_map(moved_entries(v@)).contains_key(k@));
            return true;
        }
        i += 1;
    }
    false
}

fn has_path(v: &Vec<MovedPath>, k: &str) -> (r: bool)
    ensures
        r == entry_map(path_entries(v@)).contains_key(k@),
{
    proof {
        lemma_entry_map(path_entries(v@));
    }
    let mut i: usize = 0;
    while i < v.len()
        invariant
            i <= v@.len(),
            forall|j: int| 0 <= j < i ==> (#[trigger] path_entries(v@)[j]).0 != k@,
        decreases v.len() - i,
    {
        if str_eq(v[i].path.as_str(), k) {
            assert(path_entries(v@)[i as int].0 == k@);
            proof {
                lemma_entry_map(path_entries(v@));
            }
            assert(entry_map(path_entries(v@)).contains_key(k@));
            return true;
        }
        i += 1;
    }
    false
}

fn clone_moved(v: &Vec<(String, Span)>) -> (r: Vec<(String, Span)>)
    ensures
        r@ == v@,
{
    let mut r: Vec<(String, Span)> = Vec::new();
    let mut i: usize = 0;
    while i < v.len()
        invariant
            i <= v@.len(),
            r@ == v@.take(i as int),
        decreases v.len() - i,
    {
        r.push((v[i].0.clone(), clone_span(&v[i].1)));
        assert(r@ =~= v@.take(i + 1));
        i += 1;
    }
    assert(v@.take(v@.len() as int) == v@);
    r
}

fn clone_path(p: &MovedPath) -> (r: MovedPath)
    ensures
        r == *p,
{
    let root = match &p.root {
        Some(s) => Some(s.clone()),
        None => None,
    };
    MovedPath { path: p.path.clone(), root, span: clone_span(&p.span) }
}

fn clone_paths(v: &Vec<MovedPath>) -> (r: Vec<MovedPath>)
    ensures
        r@ == v@,
{
    let mut r: Vec<MovedPath> = Vec::new();
    let mut i: usize = 0;
    while i < v.len()
        invariant
            i <= v@.len(),
            r@ == v@.take(i as int),
        decreases v.len() - i,
    {
        r.push(clone_path(&v[i]));
        assert(r@ =~= v@.take(i + 1));
        i += 1;
    }
    assert(v@.take(v@.len() as int) == v@);
    r
}

fn clone_pairs(v: &Vec<(String, String)>) -> (r: Vec<(String, String)>)
    ensures
        r@ == v@,
{
    let mut r: Vec<(String, String)> = Vec::new();
    let mut i: usize = 0;
    while i < v.len()
        invariant
            i <= v@.len(),
            r@ == v@.take(i as int),
        decreases v.len() - i,
    {
        r.push((v[i].0.clone(), v[i].1.clone()));
        assert(r@ =~= v@.take(i + 1));
        i += 1;
    }
    assert(v@.take(v@.len() as int) == v@);
    r
}

/// Adds to `acc` the moves of `branch` that `base` tracks and `acc` lacks.
fn absorb_moved_into(acc: &mut Vec<(String, Span)>, base: &BodyState, branch: &Vec<(String, Span)>)
    requires
        unique_keys(moved_entries(old(acc)@)),
        unique_keys(moved_entries(branch@)),
    ensures
        unique_keys(moved_entries(final(acc)@)),
        entry_map(moved_entries(final(acc)@)) == absorb_moved(
            entry_map(moved_entries(old(acc)@)),
            sview(*base),
            entry_map(moved_entries(branch@)),
        ),
{
    let ghost a0 = entry_map(moved_entries(acc@));
    let ghost bv = sview(*base);
    let ghost be = moved_entries(branch@);
    let mut i: usize = 0;
    proof {
        assert(moved_entries(branch@.take(0)) =~= Seq::<(Seq<char>, Span)>::empty());
        assert(entry_map(moved_entries(acc@)) =~= absorb_moved(a0, bv, entry_map(moved_entries(branch@.take(0)))));
    }
    while i < branch.len()
        invariant
            i <= branch@.len(),
            bv == sview(*base),
            be == moved_entries(branch@),
            unique_keys(be),
            unique_keys(moved_entries(acc@)),
            entry_map(moved_entries(acc@)) == absorb_moved(a0, bv, entry_map(moved_entries(branch@.take(i as int)))),
        decreases branch.len() - i,
    {
        let name = branch[i].0.as_str();
        let ghost k = name@;
        let ghost e = be[i as int];
        let ghost mi = entry_map(moved_entries(branch@.take(i as int)));
        proof {
            assert(moved_entries(branch@.take(i + 1)) == moved_entries(branch@.take(i as int)).push(e));
            lemma_entry_map_push(moved_entries(branch@.take(i as int)), e);
            lemma_entry_map(moved_entries(branch@.take(i as int)));
            if mi.contains_key(k) {
                let j = choose|j: int| 0 <= j < i && moved_entries(branch@.take(i as int))[j].0 == k;
                assert(moved_entries(branch@.take(i as int))[j] == be[j]);
                assert(false);
            }
            lemma_entry_map(moved_entries(acc@));
        }
        let tracked_name = contains_name(&base.locals, name) || has_moved(&base.moved, name);
        assert(tracked_name == (bv.locals.contains(k) || bv.moved.contains_key(k)));
        if tracked_name && !has_moved(acc, name) {
            let ghost before = moved_entries(acc@);
            acc.push((branch[i].0.clone(), clone_span(&branch[i].1)));
            proof {
                assert(moved_entries(acc@) == before.push(e));
                lemma_entry_map_push(before, e);
                assert(unique_keys(moved_entries(acc@))) by {
                    assert forall|x: int, y: int| 0 <= x < y < moved_entries(acc@).len() implies moved_entries(
                        acc@,
                    )[x].0 != moved_entries(acc@)[y].0 by {
                        if y == before.len() {
                            assert(moved_entries(acc@)[x] == before[x]);
                        } else {
                            assert(moved_entries(acc@)[x] == before[x]);
                            assert(moved_entries(acc@)[y] == before[y]);
                        }
                    }
                }
            }
            assert(entry_map(moved_entries(acc@)) =~= absorb_moved(a0, bv, mi.insert(k, e.1)));
        } else {
            assert(entry_map(moved_entries(acc@)) =~= absorb_moved(a0, bv, mi.insert(k, e.1)));
        }
        i += 1;
    }
    assert(branch@.take(branch@.len() as int) == branch@);
}

/// Adds to `acc` the moved paths of `branch` that `base` tracks and `acc`
/// lacks.
fn absorb_paths_into(acc: &mut Vec<MovedPath>, base: &BodyState, branch: &Vec<MovedPath>)
    requires
        unique_keys(path_entries(old(acc)@)),
        unique_keys(path_entries(branch@)),
    ensures
        unique_keys(path_entries(final(acc)@)),
        entry_map(path_entries(final(acc)@)) == absorb_paths(
            entry_map(path_entries(old(acc)@)),
            sview(*base),
            entry_map(path_entries(branch@)),
        ),
{
    let ghost a0 = entry_map(path_entries(acc@));
    let ghost bv = sview(*base);
    let ghost be = path_entries(branch@);
    let mut i: usize = 0;
    proof {
        assert(path_entries(branch@.take(0)) =~= Seq::<(Seq<char>, (Option<Seq<char>>, Span))>::empty());
        assert(entry_map(path_entries(acc@)) =~= absorb_paths(a0, bv, entry_map(path_entries(branch@.take(0)))));
    }
    while i < branch.len()
        invariant
            i <= branch@.len(),
            bv == sview(*base),
            be == path_entries(branch@),
            unique_keys(be),
            unique_keys(path_entries(acc@)),
            entry_map(path_entries(acc@)) == absorb_paths(a0, bv, entry_map(path_entries(branch@.take(i as int)))),
        decreases branch.len() - i,
    {
        let p = &branch[i];
        let name = p.path.as_str();
        let ghost k = name@;
        let ghost e = be[i as int];
        let ghost mi = entry_map(path_entries(branch@.take(i as int)));
        proof {
            assert(path_entries(branch@.take(i + 1)) == path_entries(branch@.take(i as int)).push(e));
            lemma_entry_map_push(path_entries(branch@.take(i as int)), e);
            lemma_entry_map(path_entries(branch@.take(i as int)));
            if mi.contains_key(k) {
                let j = choose|j: int| 0 <= j < i && path_entries(branch@.take(i as int))[j].0 == k;
                assert(path_entries(branch@.take(i as int))[j] == be[j]);
                assert(false);
            }
            lemma_entry_map(path_entries(acc@));
        }
        let root_is_local = match &p.root {
            Some(r) => contains_name(&base.locals, r.as_str()),
            None => false,
        };
        let tracked_path = root_is_local || has_path(&base.moved_paths, name);
        assert(tracked_path == ((e.1.0 matches Some(r) && bv.locals.contains(r)) || bv.moved_paths.contains_key(k)));
        if tracked_path && !has_path(acc, name) {
            let ghost before = path_entries(acc@);
            acc.push(clone_path(p));
            proof {
                assert(path_entries(acc@) == before.push(e));
                lemma_entry_map_push(before, e);
                assert(unique_keys(path_entries(acc@))) by {
                    assert forall|x: int, y: int| 0 <= x < y < path_entries(acc@).len() implies path_entries(
                        acc@,
                    )[x].0 != path_entries(acc@)[y].0 by {
                        assert(path_entries(acc@)[x] == before[x]);
                        if y < before.len() {
                            assert(path_entries(acc@)[y] == before[y]);
                        }
                    }
                }
            }
            assert(entry_map(path_entries(acc@)) =~= absorb_paths(a0, bv, mi.insert(k, e.1)));
        } else {
            assert(entry_map(path_entries(acc@)) =~= absorb_paths(a0, bv, mi.insert(k, e.1)));
        }
        i += 1;
    }
    assert(branch@.take(branch@.len() as int) == branch@);
}

proof fn lemma_push_contains(s: Seq<Seq<char>>, x: Seq<char>)
    ensures
        forall|n: Seq<char>| #[trigger] s.push(x).contains(n) <==> (s.contains(n) || n == x),
{
    assert forall|n: Seq<char>| #[trigger] s.push(x).contains(n) implies (s.contains(n) || n == x) by {
        let j = choose|j: int| 0 <= j < s.push(x).len() && s.push(x)[j] == n;
        if j < s.len() {
            assert(s[j] == n);
        }
    }
    assert forall|n: Seq<char>| (s.contains(n) || n == x) implies #[trigger] s.push(x).contains(n) by {
        if s.contains(n) {
            let j = choose|j: int| 0 <= j < s.len() && s[j] == n;
            assert(s.push(x)[j] == n);
        } else {
            assert(s.push(x)[s.len() as int] == x);
        }
    }
}

/// The names of `a` that are also in `b` and that `base` owns.
fn owned_common(a: &Vec<String>, b: &Vec<String>, base: &BodyState) -> (r: Vec<String>)
    ensures
        strs(r@).to_set() == strs(a@).to_set().intersect(strs(b@).to_set()).intersect(owned(sview(*base))),
{
    let ghost bv = sview(*base);
    let mut r: Vec<String> = Vec::new();
    let mut i: usize = 0;
    while i < a.len()
        invariant
            i <= a@.len(),
            bv == sview(*base),
            forall|n: Seq<char>| #[trigger] strs(r@).contains(n) <==> (strs(a@).take(i as int).contains(n)
                && strs(b@).contains(n) && owned(bv).contains(n)),
        decreases a.len() - i,
    {
        let ghost before = strs(r@);
        let ghost x = strs(a@)[i as int];
        proof {
            assert(strs(a@).take(i + 1) == strs(a@).take(i as int).push(x));
            lemma_push_contains(strs(a@).take(i as int), x);
        }
        let n = a[i].as_str();
        if contains_name(b, n) && (contains_name(&base.locals, n) || contains_name(&base.managed, n)) {
            r.push(a[i].clone());
            proof {
                assert(strs(r@) == before.push(x));
                lemma_push_contains(before, x);
            }
        }
        i += 1;
    }
    assert(strs(a@).take(a@.len() as int) == strs(a@));
    assert(strs(r@).to_set() =~= strs(a@).to_set().intersect(strs(b@).to_set()).intersect(owned(bv)));
    r
}

/// The names in all three of `a`, `b` and `c`.
fn common3(a: &Vec<String>, b: &Vec<String>, c: &Vec<String>) -> (r: Vec<String>)
    ensures
        strs(r@).to_set() == strs(a@).to_set().intersect(strs(b@).to_set()).intersect(strs(c@).to_set()),
{
    let mut r: Vec<String> = Vec::new();
    let mut i: usize = 0;
    while i < a.len()
        invariant
            i <= a@.len(),
            forall|n: Seq<char>| #[trigger] strs(r@).contains(n) <==> (strs(a@).take(i as int).contains(n)
                && strs(b@).contains(n) && strs(c@).contains(n)),
        decreases a.len() - i,
    {
        let ghost before = strs(r@);
        let ghost x = strs(a@)[i as int];
        proof {
            assert(strs(a@).take(i + 1) == strs(a@).take(i as int).push(x));
            lemma_push_contains(strs(a@).take(i as int), x);
        }
        let n = a[i].as_str();
        if contains_name(b, n) && contains_name(c, n) {
            r.push(a[i].clone());
            proof {
                assert(strs(r@) == before.push(x));
                lemma_push_contains(before, x);
            }
        }
        i += 1;
    }
    assert(strs(a@).take(a@.len() as int) == strs(a@));
    assert(strs(r@).to_set() =~= strs(a@).to_set().intersect(strs(b@).to_set()).intersect(strs(c@).to_set()));
    r
}

// ---------------------------------------------------------------------------
// Joins
// ---------------------------------------------------------------------------

/// A copy of `s`.
pub fn clone_state(s: &BodyState) -> (r: BodyState)
    ensures
        same_state(r, *s),
{
    BodyState {
        locals: clone_strings(&s.locals),
        field_splittable_locals: clone_strings(&s.field_splittable_locals),
        managed: clone_strings(&s.managed),
        read_views: clone_strings(&s.read_views),
        resources: clone_strings(&s.resources),
        value_types: clone_pairs(&s.value_types),
        moved: clone_moved(&s.moved),
        moved_paths: clone_paths(&s.moved_paths),
        clean_locals: clone_strings(&s.clean_locals),
        fresh_returnable_locals: clone_strings(&s.fresh_returnable_locals),
    }
}

/// The state when only `branch` falls through to the join after `base`.
pub fn fallthrough_projection(base: &BodyState, branch: &BodyState) -> (r: BodyState)
    requires
        base.wf(),
        branch.wf(),
    ensures
        r.wf(),
        sview(r) == projection(sview(*base), sview(*branch)),
{
    let mut moved = clone_moved(&base.moved);
    absorb_moved_into(&mut moved, base, &branch.moved);
    let mut moved_paths = clone_paths(&base.moved_paths);
    absorb_paths_into(&mut moved_paths, base, &branch.moved_paths);
    let clean_locals = owned_common(&branch.clean_locals, &base.clean_locals, base);
    let fresh_returnable_locals = common3(&branch.fresh_returnable_locals, &base.fresh_returnable_locals, &clean_locals);
    let r = BodyState {
        locals: clone_strings(&base.locals),
        field_splittable_locals: clone_strings(&base.field_splittable_locals),
        managed: clone_strings(&base.managed),
        read_views: clone_strings(&base.read_views),
        resources: clone_strings(&base.resources),
        value_types: clone_pairs(&base.value_types),
        moved,
        moved_paths,
        clean_locals,
        fresh_returnable_locals,
    };
    assert(sview(r) == projection(sview(*base), sview(*branch)));
    r
}

/// The state when both `left` and `right` fall through to the join after
/// `base`.
pub fn merge_fallthrough_states(base: &BodyState, left: &BodyState, right: &BodyState) -> (r: BodyState)
    requires
        base.wf(),
        left.wf(),
        right.wf(),
    ensures
        r.wf(),
        sview(r) == joined(sview(*base), sview(*left), sview(*right)),
{
    let mut moved = clone_moved(&base.moved);
    absorb_moved_into(&mut moved, base, &left.moved);
    absorb_moved_into(&mut moved, base, &right.moved);
    let mut moved_paths = clone_paths(&base.moved_paths);
    absorb_paths_into(&mut moved_paths, base, &left.moved_paths);
    absorb_paths_into(&mut moved_paths, base, &right.moved_paths);
    let clean_locals = owned_common(&left.clean_locals, &right.clean_locals, base);
    let fresh_returnable_locals = common3(&left.fresh_returnable_locals, &right.fresh_returnable_locals, &clean_locals);
    let r = BodyState {
        locals: clone_strings(&base.locals),
        field_splittable_locals: clone_strings(&base.field_splittable_locals),
        managed: clone_strings(&base.managed),
        read_views: clone_strings(&base.read_views),
        resources: clone_strings(&base.resources),
        value_types: clone_pairs(&base.value_types),
        moved,
        moved_paths,
        clean_locals,
        fresh_returnable_locals,
    };
    assert(sview(r) == joined(sview(*base), sview(*left), sview(*right)));
    r
}

/// Joins the two branches of an `if` whose condition left the state `base`.
/// A missing `else` falls through with `base` unchanged. When both branches
/// fall through the state is their join; when one does, it is that branch's
/// projection; when neither does, it is `base` and the flow is `exit_flow`,
/// what the semantic checker merges the two branch flows to.
pub fn merge_if_state(
    state: &mut BodyState,
    base: &BodyState,
    then_state: BodyState,
    then_flow: Flow,
    else_branch: Option<(BodyState, Flow)>,
    exit_flow: Flow,
) -> (r: Flow)
    requires
        base.wf(),
        then_state.wf(),
        else_branch matches Some(e) ==> e.0.wf(),
    ensures
        final(state).wf(),
        ({
            let else_flow = match else_branch {
                Some(e) => e.1,
                None => Flow::Fallthrough,
            };
            let else_view = match else_branch {
                Some(e) => sview(e.0),
                None => sview(*base),
            };
            &&& (then_flow == Flow::Fallthrough && else_flow == Flow::Fallthrough) ==> r == Flow::Fallthrough
                && sview(*final(state)) == joined(sview(*base), sview(then_state), else_view)
            &&& (then_flow == Flow::Fallthrough && else_flow != Flow::Fallthrough) ==> r == Flow::Fallthrough
                && sview(*final(state)) == projection(sview(*base), sview(then_state))
            &&& (then_flow != Flow::Fallthrough && else_flow == Flow::Fallthrough) ==> r == Flow::Fallthrough
                && sview(*final(state)) == projection(sview(*base), else_view)
            &&& (then_flow != Flow::Fallthrough && else_flow != Flow::Fallthrough) ==> r == exit_flow
                && same_state(*final(state), *base)
        }),
{
    let (else_state, else_flow) = match else_branch {
        Some(e) => e,
        None => (clone_state(base), Flow::Fallthrough),
    };
    if then_flow == Flow::Fallthrough && else_flow == Flow::Fallthrough {
        *state = merge_fallthrough_states(base, &then_state, &else_state);
        Flow::Fallthrough
    } else if then_flow == Flow::Fallthrough {
        *state = fallthrough_projection(base, &then_state);
        Flow::Fallthrough
    } else if else_flow == Flow::Fallthrough {
        *state = fallthrough_projection(base, &else_state);
        Flow::Fallthrough
    } else {
        *state = clone_state(base);
        exit_flow
    }
}

/// Joins a loop body back into the state `base` it started from. A loop that
/// cannot be skipped and whose body always returns leaves `base` and returns;
/// one whose body always breaks falls through with the body's projection;
/// otherwise the state is `after_loop`.
pub fn merge_loop_state(
    state: &mut BodyState,
    base: &BodyState,
    body_state: BodyState,
    body_flow: Flow,
    may_skip: bool,
) -> (r: Flow)
    requires
        base.wf(),
        body_state.wf(),
    ensures
        final(state).wf(),
        (!may_skip && body_flow == Flow::Return) ==> r == Flow::Return && same_state(*final(state), *base),
        (!may_skip && body_flow == Flow::Break) ==> r == Flow::Fallthrough && sview(*final(state)) == projection(
            sview(*base),
            sview(body_state),
        ),
        (may_skip || (body_flow != Flow::Return && body_flow != Flow::Break)) ==> r == Flow::Fallthrough && sview(
            *final(state),
        ) == after_loop(sview(*base), sview(body_state), body_flow),
{
    if !may_skip && body_flow == Flow::Return {
        *state = clone_state(base);
        return Flow::Return;
    }
    if !may_skip && body_flow == Flow::Break {
        *state = fallthrough_projection(base, &body_state);
        return Flow::Fallthrough;
    }
    let mut moved = clone_moved(&base.moved);
    let mut moved_paths = clone_paths(&base.moved_paths);
    if body_flow != Flow::Return {
        absorb_moved_into(&mut moved, base, &body_state.moved);
        absorb_paths_into(&mut moved_paths, base, &body_state.moved_paths);
    }
    let clean_locals = owned_common(&base.clean_locals, &body_state.clean_locals, base);
    let fresh_returnable_locals = common3(
        &base.fresh_returnable_locals,
        &body_state.fresh_returnable_locals,
        &clean_locals,
    );
    *state = BodyState {
        locals: clone_strings(&base.locals),
        field_splittable_locals: clone_strings(&base.field_splittable_locals),
        managed: clone_strings(&base.managed),
        read_views: clone_strings(&base.read_views),
        resources: clone_strings(&base.resources),
        value_types: clone_pairs(&base.value_types),
        moved,
        moved_paths,
        clean_locals,
        fresh_returnable_locals,
    };
    assert(sview(*state) == after_loop(sview(*base), sview(body_state), body_flow));
    Flow::Fallthrough
}

// ---------------------------------------------------------------------------
// Laws
// ---------------------------------------------------------------------------

/// A join loses no earlier move: every local and path `base` had moved is
/// still moved afterwards, with the same location, whichever paths join.
pub proof fn law_join_keeps_earlier_moves(base: StateView, left: StateView, right: StateView, body_flow: Flow)
    ensures
        forall|k: Seq<char>| #[trigger] base.moved.contains_key(k) ==> {
            &&& joined(base, left, right).moved.contains_key(k)
            &&& joined(base, left, right).moved[k] == base.moved[k]
            &&& projection(base, left).moved.contains_key(k)
            &&& projection(base, left).moved[k] == base.moved[k]
            &&& after_loop(base, left, body_flow).moved.contains_key(k)
            &&& after_loop(base, left, body_flow).moved[k] == base.moved[k]
        },
        forall|k: Seq<char>| #[trigger] base.moved_paths.contains_key(k) ==> {
            &&& joined(base, left, right).moved_paths.contains_key(k)
            &&& joined(base, left, right).moved_paths[k] == base.moved_paths[k]
            &&& projection(base, left).moved_paths.contains_key(k)
            &&& projection(base, left).moved_paths[k] == base.moved_paths[k]
        },
{
}

/// A join records only moves the enclosing state tracks: each moved local
/// after it was moved before or is a local of `base`.
pub proof fn law_join_moves_only_tracked_locals(base: StateView, left: StateView, right: StateView)
    ensures
        forall|k: Seq<char>| #[trigger] joined(base, left, right).moved.contains_key(k) ==> base.moved.contains_key(k)
            || base.locals.contains(k),
        forall|k: Seq<char>| #[trigger] projection(base, left).moved.contains_key(k) ==> base.moved.contains_key(k)
            || base.locals.contains(k),
{
}

/// The order of the two joining branches does not change which locals are
/// moved, clean or fresh-returnable afterwards, nor the bindings.
pub proof fn law_join_order_of_branches(base: StateView, left: StateView, right: StateView)
    ensures
        joined(base, left, right).moved.dom() == joined(base, right, left).moved.dom(),
        joined(base, left, right).moved_paths.dom() == joined(base, right, left).moved_paths.dom(),
        joined(base, left, right).clean_locals == joined(base, right, left).clean_locals,
        joined(base, left, right).fresh_returnable_locals == joined(base, right, left).fresh_returnable_locals,
        joined(base, left, right).locals == joined(base, right, left).locals,
{
    assert(joined(base, left, right).moved.dom() =~= joined(base, right, left).moved.dom());
    assert(joined(base, left, right).moved_paths.dom() =~= joined(base, right, left).moved_paths.dom());
    assert(joined(base, left, right).clean_locals =~= joined(base, right, left).clean_locals);
    assert(joined(base, left, right).fresh_returnable_locals =~= joined(base, right, left).fresh_returnable_locals);
}

/// A loop whose body does not always return joins as if the body were the
/// one path falling through.
pub proof fn law_loop_join_is_projection(base: StateView, body: StateView, body_flow: Flow)
    requires
        body_flow != Flow::Return,
    ensures
        after_loop(base, body, body_flow) == projection(base, body),
{
    assert(after_loop(base, body, body_flow).clean_locals =~= projection(base, body).clean_locals);
    assert(after_loop(base, body, body_flow).fresh_returnable_locals =~= projection(
        base,
        body,
    ).fresh_returnable_locals);
}

/// Joining a branch with a copy of itself moves exactly what that branch
/// alone moves past the join.
pub proof fn law_join_with_itself_moves_as_projection(base: StateView, branch: StateView)
    ensures
        joined(base, branch, branch).moved == projection(base, branch).moved,
        joined(base, branch, branch).moved_paths == projection(base, branch).moved_paths,
{
    assert(joined(base, branch, branch).moved =~= projection(base, branch).moved);
    assert(joined(base, branch, branch).moved_paths =~= projection(base, branch).moved_paths);
}

} // verus!
