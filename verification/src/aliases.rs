//! Type aliases: the table collected from programs, substitution of alias
//! parameters, canonical (alias-free) types, and alias cycles.
use vstd::prelude::*;
use crate::ast::{Item, Program, Span, TypeRef};
use crate::chars::str_eq;
use crate::diag::{
    alias_cycle_code, dviews, error_with_cause, lemma_dviews_push, DiagView, Diagnostic, Severity,
};
use crate::types::{
    append, clone_effects, clone_span, clone_spans, clone_type_ref, lemma_tviews, lemma_tviews_take,
    tview, tviews, TypeView,
};

verus! {

/// One `type Name<P..> = Target` declaration.
pub struct AliasDefinition {
    pub name: String,
    pub parameters: Vec<String>,
    pub target: TypeRef,
    pub span: Span,
}

/// The aliases in declaration order; a later declaration of a name shadows
/// an earlier one.
pub struct AliasTable {
    pub aliases: Vec<AliasDefinition>,
}

/// The abstract value of an alias declaration.
pub struct AliasView {
    pub name: Seq<char>,
    pub params: Seq<Seq<char>>,
    pub target: TypeView,
    pub span: Span,
}

pub open spec fn strs(v: Seq<String>) -> Seq<Seq<char>> {
    v.map_values(|s: String| s@)
}

pub open spec fn param_names(ps: Seq<crate::ast::GenericParam>) -> Seq<Seq<char>> {
    ps.map_values(|p: crate::ast::GenericParam| p.name@)
}

pub open spec fn aview(a: AliasDefinition) -> AliasView {
    AliasView { name: a.name@, params: strs(a.parameters@), target: tview(a.target), span: a.span }
}

pub open spec fn table_view(t: AliasTable) -> Seq<AliasView> {
    t.aliases@.map_values(|a: AliasDefinition| aview(a))
}

/// The aliases a program declares, in order.
pub open spec fn program_aliases(items: Seq<Item>) -> Seq<AliasView>
    decreases items.len(),
{
    if items.len() == 0 {
        seq![]
    } else {
        let rest = program_aliases(items.drop_last());
        match items.last() {
            Item::TypeAlias(a) => rest.push(
                AliasView {
                    name: a.name@,
                    params: param_names(a.type_params@),
                    target: tview(a.target),
                    span: a.span,
                },
            ),
            _ => rest,
        }
    }
}

/// The aliases several programs declare, program after program.
pub open spec fn programs_aliases(ps: Seq<Program>) -> Seq<AliasView>
    decreases ps.len(),
{
    if ps.len() == 0 {
        seq![]
    } else {
        programs_aliases(ps.drop_last()) + program_aliases(ps.last().items@)
    }
}

/// The last index below `k` whose name is `name`.
pub open spec fn last_match(names: Seq<Seq<char>>, name: Seq<char>, k: int) -> Option<int>
    decreases k,
{
    if k <= 0 || k > names.len() {
        None
    } else if names[k - 1] == name {
        Some(k - 1)
    } else {
        last_match(names, name, k - 1)
    }
}

pub proof fn lemma_last_match(names: Seq<Seq<char>>, name: Seq<char>, k: int)
    requires
        0 <= k <= names.len(),
    ensures
        match last_match(names, name, k) {
            Some(i) => 0 <= i < k && names[i] == name && forall|j: int| i < j < k ==> names[j] != name,
            None => forall|j: int| 0 <= j < k ==> names[j] != name,
        },
    decreases k,
{
    if k > 0 {
        lemma_last_match(names, name, k - 1);
    }
}

pub open spec fn alias_names(tab: Seq<AliasView>) -> Seq<Seq<char>> {
    tab.map_values(|a: AliasView| a.name)
}

/// The declaration a name resolves to: the last one with that name.
pub open spec fn lookup(tab: Seq<AliasView>, name: Seq<char>) -> Option<int> {
    last_match(alias_names(tab), name, tab.len() as int)
}

/// The last index `i` with `v[i] == name`, if any.
pub fn last_index_of(v: &Vec<String>, name: &str) -> (r: Option<usize>)
    ensures
        r matches Some(i) ==> i < v@.len() && last_match(strs(v@), name@, v@.len() as int) == Some(i as int),
        r is None ==> last_match(strs(v@), name@, v@.len() as int) is None,
{
    proof {
        lemma_last_match(strs(v@), name@, v@.len() as int);
    }
    let mut k: usize = v.len();
    while k > 0
        invariant
            k <= v@.len(),
            last_match(strs(v@), name@, v@.len() as int) == last_match(strs(v@), name@, k as int),
        decreases k,
    {
        if str_eq(v[k - 1].as_str(), name) {
            return Some(k - 1);
        }
        k -= 1;
    }
    None
}

impl AliasTable {
    pub fn new() -> (t: AliasTable)
        ensures
            table_view(t) == Seq::<AliasView>::empty(),
    {
        let t = AliasTable { aliases: Vec::new() };
        assert(table_view(t) =~= Seq::<AliasView>::empty());
        t
    }

    /// The index of the declaration `name` resolves to.
    pub fn get(&self, name: &str) -> (r: Option<usize>)
        ensures
            r matches Some(i) ==> i < self.aliases@.len() && lookup(table_view(*self), name@) == Some(i as int),
            r is None ==> lookup(table_view(*self), name@) is None,
    {
        let ghost tab = table_view(*self);
        proof {
            lemma_last_match(alias_names(tab), name@, tab.len() as int);
        }
        let mut k: usize = self.aliases.len();
        while k > 0
            invariant
                tab == table_view(*self),
                k <= self.aliases@.len(),
                lookup(tab, name@) == last_match(alias_names(tab), name@, k as int),
            decreases k,
        {
            if str_eq(self.aliases[k - 1].name.as_str(), name) {
                assert(alias_names(tab)[k - 1] == name@);
                return Some(k - 1);
            }
            assert(alias_names(tab)[k - 1] != name@);
            k -= 1;
        }
        None
    }

    /// Records the aliases `program` declares, after those already held.
    pub fn add_program(&mut self, program: &Program)
        ensures
            table_view(*final(self)) == table_view(*old(self)) + program_aliases(program.items@),
    {
        let mut i: usize = 0;
        while i < program.items.len()
            invariant
                i <= program.items@.len(),
                table_view(*self) == table_view(*old(self)) + program_aliases(program.items@.take(i as int)),
            decreases program.items.len() - i,
        {
            assert(program.items@.take(i + 1).drop_last() == program.items@.take(i as int));
            match &program.items[i] {
                Item::TypeAlias(a) => {
                    let parameters = param_name_strings(&a.type_params);
                    let def = AliasDefinition {
                        name: a.name.clone(),
                        parameters,
                        target: clone_type_ref(&a.target),
                        span: clone_span(&a.span),
                    };
                    let ghost before = self.aliases@;
                    self.aliases.push(def);
                    assert(table_view(*self) =~= before.map_values(|a: AliasDefinition| aview(a)).push(
                        aview(def),
                    ));
                },
                _ => {},
            }
            i += 1;
        }
        assert(program.items@.take(program.items@.len() as int) == program.items@);
    }
}

pub fn param_name_strings(ps: &Vec<crate::ast::GenericParam>) -> (r: Vec<String>)
    ensures
        strs(r@) == param_names(ps@),
{
    let mut r: Vec<String> = Vec::new();
    let mut j: usize = 0;
    while j < ps.len()
        invariant
            j <= ps@.len(),
            r@.len() == j,
            forall|k: int| 0 <= k < j ==> #[trigger] r@[k]@ == ps@[k].name@,
        decreases ps.len() - j,
    {
        r.push(ps[j].name.clone());
        j += 1;
    }
    assert(strs(r@) =~= param_names(ps@));
    r
}

/// The alias table of `programs`, declarations taken program after program
/// and in source order within each.
pub fn collect_type_alias_metadata(programs: &Vec<Program>) -> (t: AliasTable)
    ensures
        table_view(t) == programs_aliases(programs@),
{
    let mut t = AliasTable::new();
    let mut i: usize = 0;
    while i < programs.len()
        invariant
            i <= programs@.len(),
            table_view(t) == programs_aliases(programs@.take(i as int)),
        decreases programs.len() - i,
    {
        t.add_program(&programs[i]);
        assert(programs@.take(i + 1).drop_last() == programs@.take(i as int));
        i += 1;
    }
    assert(programs@.take(programs@.len() as int) == programs@);
    t
}

// ---------------------------------------------------------------------------
// Substitution
// ---------------------------------------------------------------------------

/// `t` with each bare reference to a parameter replaced by its argument; the
/// replacement keeps the `fresh`, `noescape` and `owned` markers written on
/// the reference. The last parameter of a name wins.
pub open spec fn subst(t: TypeView, params: Seq<Seq<char>>, args: Seq<TypeView>) -> TypeView
    decreases t, 0nat,
{
    let bare = t.args.len() == 0 && t.fn_params.len() == 0 && t.fn_return is None;
    match last_match(params, t.name, params.len() as int) {
        Some(i) if bare && i < args.len() => {
            let r = args[i];
            TypeView {
                is_fresh: r.is_fresh || t.is_fresh,
                is_noescape: r.is_noescape || t.is_noescape,
                is_owned: r.is_owned || t.is_owned,
                ..r
            }
        },
        _ => TypeView {
            args: subst_list(t.args, params, args),
            fn_params: subst_list(t.fn_params, params, args),
            fn_return: match t.fn_return {
                Some(b) => Some(Box::new(subst(*b, params, args))),
                None => None,
            },
            ..t
        },
    }
}

pub open spec fn subst_list(ts: Seq<TypeView>, params: Seq<Seq<char>>, args: Seq<TypeView>) -> Seq<TypeView>
    decreases ts, 0nat,
{
    if ts.len() == 0 {
        seq![]
    } else {
        subst_list(ts.drop_last(), params, args).push(subst(ts.last(), params, args))
    }
}

/// Replaces the alias parameters `params` by `args` throughout `ty`.
pub fn substitute_alias_type_ref(ty: &TypeRef, params: &Vec<String>, args: &Vec<TypeRef>) -> (r: TypeRef)
    requires
        params@.len() == args@.len(),
    ensures
        tview(r) == subst(tview(*ty), strs(params@), tviews(args@)),
    decreases ty, 0nat,
{
    proof {
        lemma_tviews(args@);
        lemma_tviews(ty.args@);
        lemma_tviews(ty.fn_params@);
    }
    let ghost tv = tview(*ty);
    let bare = ty.args.len() == 0 && ty.fn_params.len() == 0 && ty.fn_return.is_none();
    if bare {
        let nm = ty.name.as_str();
        assert(nm@ == tv.name);
        match last_index_of(params, nm) {
            Some(i) => {
                let mut rep = clone_type_ref(&args[i]);
                assert(tviews(args@)[i as int] == tview(args@[i as int]));
                rep.is_fresh = rep.is_fresh || ty.is_fresh;
                rep.is_noescape = rep.is_noescape || ty.is_noescape;
                rep.is_owned = rep.is_owned || ty.is_owned;
                assert(strs(params@).len() == params@.len());
                assert(last_match(strs(params@), tv.name, params@.len() as int) == Some(i as int));
                assert(tview(rep).name == tviews(args@)[i as int].name);
                assert(tview(rep).args == tviews(args@)[i as int].args);
                assert(tview(rep).is_fresh == (tviews(args@)[i as int].is_fresh || tv.is_fresh));
                return rep;
            },
            None => {},
        }
    }
    let fn_return = match &ty.fn_return {
        Some(b) => Some(Box::new(substitute_alias_type_ref(b, params, args))),
        None => None,
    };
    let r = TypeRef {
        name: ty.name.clone(),
        args: substitute_list(&ty.args, params, args),
        fn_params: substitute_list(&ty.fn_params, params, args),
        fn_param_effects: clone_effects(&ty.fn_param_effects),
        fn_return,
        is_fresh: ty.is_fresh,
        is_noescape: ty.is_noescape,
        is_owned: ty.is_owned,
        malformed_arg_spans: clone_spans(&ty.malformed_arg_spans),
        span: clone_span(&ty.span),
    };
    r
}

pub fn substitute_list(v: &Vec<TypeRef>, params: &Vec<String>, args: &Vec<TypeRef>) -> (r: Vec<TypeRef>)
    requires
        params@.len() == args@.len(),
    ensures
        tviews(r@) == subst_list(tviews(v@), strs(params@), tviews(args@)),
    decreases v, 1nat,
{
    let ghost ps = strs(params@);
    let ghost avs = tviews(args@);
    let mut r: Vec<TypeRef> = Vec::new();
    let mut i: usize = 0;
    while i < v.len()
        invariant
            i <= v@.len(),
            params@.len() == args@.len(),
            ps == strs(params@),
            avs == tviews(args@),
            tviews(r@) == subst_list(tviews(v@.take(i as int)), ps, avs),
        decreases v.len() - i,
    {
        proof {
            assert(decreases_to!(*v => v@[i as int]));
        }
        let c = substitute_alias_type_ref(&v[i], params, args);
        let ghost before = r@;
        r.push(c);
        assert(r@.drop_last() == before);
        proof {
            lemma_tviews_take(v@, i as int);
            lemma_tviews(v@.take(i + 1));
            assert(tviews(v@.take(i + 1)).drop_last() == tviews(v@.take(i as int)));
        }
        i += 1;
    }
    assert(v@.take(v@.len() as int) == v@);
    r
}

// ---------------------------------------------------------------------------
// Canonical types
// ---------------------------------------------------------------------------

/// How many entries of `s` are still `false`.
pub open spec fn count_false(s: Seq<bool>) -> nat
    decreases s.len(),
{
    if s.len() == 0 {
        0
    } else {
        count_false(s.drop_last()) + if s.last() { 0nat } else { 1nat }
    }
}

pub proof fn lemma_count_false_set(s: Seq<bool>, i: int)
    requires
        0 <= i < s.len(),
        !s[i],
    ensures
        count_false(s.update(i, true)) + 1 == count_false(s),
    decreases s.len(),
{
    if i < s.len() - 1 {
        assert(s.update(i, true).drop_last() == s.drop_last().update(i, true));
        lemma_count_false_set(s.drop_last(), i);
    } else {
        assert(s.update(i, true).drop_last() == s.drop_last());
    }
}

/// `t` with every alias use expanded, below type arguments too. `vis` marks
/// the aliases being expanded on the way here: an alias met again inside its
/// own expansion is left as written, and so is an alias used with a number of
/// arguments other than its parameters'.
pub open spec fn canon(tab: Seq<AliasView>, t: TypeView, vis: Seq<bool>) -> TypeView
    decreases count_false(vis), t, 0nat,
{
    let normalized = TypeView {
        args: canon_list(tab, t.args, vis),
        fn_params: canon_list(tab, t.fn_params, vis),
        fn_return: match t.fn_return {
            Some(b) => Some(Box::new(canon(tab, *b, vis))),
            None => None,
        },
        ..t
    };
    match lookup(tab, t.name) {
        Some(i) => {
            if 0 <= i < vis.len() && !vis[i] && tab[i].params.len() == t.args.len() {
                proof {
                    lemma_count_false_set(vis, i);
                }
                let sub = subst(tab[i].target, tab[i].params, normalized.args);
                let c = canon(tab, sub, vis.update(i, true));
                TypeView {
                    is_fresh: c.is_fresh || t.is_fresh,
                    is_noescape: c.is_noescape || t.is_noescape,
                    is_owned: c.is_owned || t.is_owned,
                    span: t.span,
                    ..c
                }
            } else {
                normalized
            }
        },
        None => normalized,
    }
}

pub open spec fn canon_list(tab: Seq<AliasView>, ts: Seq<TypeView>, vis: Seq<bool>) -> Seq<TypeView>
    decreases count_false(vis), ts, 0nat,
{
    if ts.len() == 0 {
        seq![]
    } else {
        canon_list(tab, ts.drop_last(), vis).push(canon(tab, ts.last(), vis))
    }
}

pub proof fn lemma_canon_list(tab: Seq<AliasView>, ts: Seq<TypeView>, vis: Seq<bool>)
    ensures
        canon_list(tab, ts, vis).len() == ts.len(),
        forall|i: int| 0 <= i < ts.len() ==> #[trigger] canon_list(tab, ts, vis)[i] == canon(tab, ts[i], vis),
    decreases ts.len(),
{
    if ts.len() > 0 {
        lemma_canon_list(tab, ts.drop_last(), vis);
        assert forall|i: int| 0 <= i < ts.len() implies #[trigger] canon_list(tab, ts, vis)[i] == canon(tab, ts[i], vis) by {
            if i < ts.len() - 1 {
                assert(ts.drop_last()[i] == ts[i]);
            }
        }
    }
}

/// The canonical form of `t`: every alias expanded.
pub open spec fn canonical(tab: Seq<AliasView>, t: TypeView) -> TypeView {
    canon(tab, t, Seq::new(tab.len(), |i: int| false))
}

fn set_flag(v: &Vec<bool>, i: usize, b: bool) -> (r: Vec<bool>)
    requires
        i < v@.len(),
    ensures
        r@ == v@.update(i as int, b),
{
    let mut r: Vec<bool> = Vec::new();
    let mut j: usize = 0;
    while j < v.len()
        invariant
            j <= v@.len(),
            i < v@.len(),
            r@ == v@.update(i as int, b).take(j as int),
        decreases v.len() - j,
    {
        if j == i {
            r.push(b);
        } else {
            r.push(v[j]);
        }
        assert(v@.update(i as int, b).take(j + 1) == v@.update(i as int, b).take(j as int).push(
            v@.update(i as int, b)[j as int],
        ));
        j += 1;
    }
    assert(v@.update(i as int, b).take(v@.len() as int) == v@.update(i as int, b));
    r
}

fn canonical_type_ref_inner(table: &AliasTable, ty: &TypeRef, vis: &Vec<bool>) -> (r: TypeRef)
    requires
        vis@.len() == table.aliases@.len(),
    ensures
        tview(r) == canon(table_view(*table), tview(*ty), vis@),
    decreases count_false(vis@), ty, 0nat,
{
    let ghost tab = table_view(*table);
    let ghost tv = tview(*ty);
    proof {
        lemma_tviews(ty.args@);
        lemma_tviews(ty.fn_params@);
    }
    let args = canonical_list(table, &ty.args, vis);
    let fn_params = canonical_list(table, &ty.fn_params, vis);
    let fn_return = match &ty.fn_return {
        Some(b) => Some(Box::new(canonical_type_ref_inner(table, b, vis))),
        None => None,
    };
    match table.get(ty.name.as_str()) {
        Some(i) => {
            if !vis[i] && table.aliases[i].parameters.len() == ty.args.len() {
                proof {
                    lemma_count_false_set(vis@, i as int);
                    assert(tab[i as int] == aview(table.aliases@[i as int]));
                    assert(strs(table.aliases@[i as int].parameters@).len()
                        == table.aliases@[i as int].parameters@.len());
                    lemma_tviews(args@);
                    lemma_canon_list(tab, tviews(ty.args@), vis@);
                    lemma_tviews(ty.args@);
                }
                let vis2 = set_flag(vis, i, true);
                let sub = substitute_alias_type_ref(&table.aliases[i].target, &table.aliases[i].parameters, &args);
                let mut c = canonical_type_ref_inner(table, &sub, &vis2);
                c.is_fresh = c.is_fresh || ty.is_fresh;
                c.is_noescape = c.is_noescape || ty.is_noescape;
                c.is_owned = c.is_owned || ty.is_owned;
                c.span = clone_span(&ty.span);
                return c;
            }
        },
        None => {},
    }
    let r = TypeRef {
        name: ty.name.clone(),
        args,
        fn_params,
        fn_param_effects: clone_effects(&ty.fn_param_effects),
        fn_return,
        is_fresh: ty.is_fresh,
        is_noescape: ty.is_noescape,
        is_owned: ty.is_owned,
        malformed_arg_spans: clone_spans(&ty.malformed_arg_spans),
        span: clone_span(&ty.span),
    };
    assert(tview(r).args == canon_list(tab, tv.args, vis@));
    assert(tview(r).fn_params == canon_list(tab, tv.fn_params, vis@));
    assert(tview(r).fn_return == (match tv.fn_return { Some(b) => Some(Box::new(canon(tab, *b, vis@))), None => None }));
    r
}

fn canonical_list(table: &AliasTable, v: &Vec<TypeRef>, vis: &Vec<bool>) -> (r: Vec<TypeRef>)
    requires
        vis@.len() == table.aliases@.len(),
    ensures
        tviews(r@) == canon_list(table_view(*table), tviews(v@), vis@),
    decreases count_false(vis@), v, 1nat,
{
    let ghost tab = table_view(*table);
    let mut r: Vec<TypeRef> = Vec::new();
    let mut i: usize = 0;
    while i < v.len()
        invariant
            i <= v@.len(),
            vis@.len() == table.aliases@.len(),
            tab == table_view(*table),
            tviews(r@) == canon_list(tab, tviews(v@.take(i as int)), vis@),
        decreases v.len() - i,
    {
        proof {
            assert(decreases_to!(*v => v@[i as int]));
        }
        let c = canonical_type_ref_inner(table, &v[i], vis);
        let ghost before = r@;
        r.push(c);
        assert(r@.drop_last() == before);
        proof {
            lemma_tviews_take(v@, i as int);
            lemma_tviews(v@.take(i + 1));
            assert(tviews(v@.take(i + 1)).drop_last() == tviews(v@.take(i as int)));
        }
        i += 1;
    }
    assert(v@.take(v@.len() as int) == v@);
    r
}

/// The canonical form of `ty` under `table`: every alias use expanded.
pub fn canonical_type_ref(table: &AliasTable, ty: &TypeRef) -> (r: TypeRef)
    ensures
        tview(r) == canonical(table_view(*table), tview(*ty)),
{
    let mut vis: Vec<bool> = Vec::new();
    let mut i: usize = 0;
    while i < table.aliases.len()
        invariant
            i <= table.aliases@.len(),
            vis@ == Seq::new(i as nat, |j: int| false),
        decreases table.aliases.len() - i,
    {
        vis.push(false);
        assert(vis@ =~= Seq::new((i + 1) as nat, |j: int| false));
        i += 1;
    }
    assert(table_view(*table).len() == table.aliases@.len());
    canonical_type_ref_inner(table, ty, &vis)
}

// ---------------------------------------------------------------------------
// Alias cycles
// ---------------------------------------------------------------------------

/// Whether `name` is the name of `t` or of any type written inside it.
pub open spec fn mentions(t: TypeView, name: Seq<char>) -> bool
    decreases t, 0nat,
{
    t.name == name || mentions_list(t.args, name) || mentions_list(t.fn_params, name) || match t.fn_return {
        Some(b) => mentions(*b, name),
        None => false,
    }
}

pub open spec fn mentions_list(ts: Seq<TypeView>, name: Seq<char>) -> bool
    decreases ts, 0nat,
{
    if ts.len() == 0 {
        false
    } else {
        mentions_list(ts.drop_last(), name) || mentions(ts.last(), name)
    }
}

/// Whether alias `i`'s target names alias `j`.
pub open spec fn refers(tab: Seq<AliasView>, i: int, j: int) -> bool {
    mentions(tab[i].target, tab[j].name)
}

/// Whether a chain of references leads from alias `i` to alias `j` passing
/// only through aliases below `k`.
pub open spec fn path(tab: Seq<AliasView>, i: int, j: int, k: int) -> bool
    decreases k,
{
    if k <= 0 {
        refers(tab, i, j)
    } else {
        path(tab, i, j, k - 1) || (path(tab, i, k - 1, k - 1) && path(tab, k - 1, j, k - 1))
    }
}

/// Whether alias `i` expands, through one or more references, into itself.
pub open spec fn cyclic(tab: Seq<AliasView>, i: int) -> bool {
    path(tab, i, i, tab.len() as int)
}

pub open spec fn cycle_message(name: Seq<char>) -> Seq<char> {
    "type alias `"@ + name + "` expands to itself"@
}

/// The diagnostic for a cyclic alias, at its declaration.
pub open spec fn cycle_diag(a: AliasView) -> DiagView {
    DiagView {
        code: alias_cycle_code(),
        severity: Severity::Error,
        message: cycle_message(a.name),
        span: a.span,
        label: "cyclic type alias"@,
        causes: seq!["A type alias must expand to a finite type; this alias reaches itself through its own target."@],
        fixes: seq![],
    }
}

/// One diagnostic per cyclic alias among the first `k`, in declaration order.
pub open spec fn cycle_diags(tab: Seq<AliasView>, k: int) -> Seq<DiagView>
    decreases k,
{
    if k <= 0 {
        seq![]
    } else if cyclic(tab, k - 1) {
        cycle_diags(tab, k - 1).push(cycle_diag(tab[k - 1]))
    } else {
        cycle_diags(tab, k - 1)
    }
}

/// Whether `name` is written anywhere in `t`.
pub fn mentions_name(t: &TypeRef, name: &str) -> (r: bool)
    ensures
        r == mentions(tview(*t), name@),
    decreases t, 0nat,
{
    proof {
        lemma_tviews(t.args@);
        lemma_tviews(t.fn_params@);
    }
    if str_eq(t.name.as_str(), name) {
        return true;
    }
    if mentions_name_list(&t.args, name) {
        return true;
    }
    if mentions_name_list(&t.fn_params, name) {
        return true;
    }
    match &t.fn_return {
        Some(b) => mentions_name(b, name),
        None => false,
    }
}

pub fn mentions_name_list(v: &Vec<TypeRef>, name: &str) -> (r: bool)
    ensures
        r == mentions_list(tviews(v@), name@),
    decreases v, 1nat,
{
    let mut i: usize = 0;
    while i < v.len()
        invariant
            i <= v@.len(),
            !mentions_list(tviews(v@.take(i as int)), name@),
        decreases v.len() - i,
    {
        proof {
            assert(decreases_to!(*v => v@[i as int]));
            lemma_tviews_take(v@, i as int);
            assert(tviews(v@.take(i + 1)).drop_last() == tviews(v@.take(i as int)));
        }
        if mentions_name(&v[i], name) {
            proof {
                lemma_tviews(v@);
                lemma_tviews_prefix(v@, i as int + 1);
                lemma_mentions_list_prefix(tviews(v@), i as int + 1, name@);
            }
            return true;
        }
        i += 1;
    }
    assert(v@.take(v@.len() as int) == v@);
    false
}

pub proof fn lemma_tviews_prefix(s: Seq<TypeRef>, k: int)
    requires
        0 <= k <= s.len(),
    ensures
        tviews(s.take(k)) == tviews(s).take(k),
{
    lemma_tviews(s.take(k));
    lemma_tviews(s);
    assert(tviews(s.take(k)) =~= tviews(s).take(k));
}

/// A name mentioned in a prefix is mentioned in the whole list.
pub proof fn lemma_mentions_list_prefix(ts: Seq<TypeView>, k: int, name: Seq<char>)
    requires
        0 <= k <= ts.len(),
        mentions_list(ts.take(k), name),
    ensures
        mentions_list(ts, name),
    decreases ts.len(),
{
    if k < ts.len() {
        assert(ts.drop_last().take(k) == ts.take(k));
        lemma_mentions_list_prefix(ts.drop_last(), k, name);
    } else {
        assert(ts.take(k) == ts);
    }
}

/// The reference matrix: entry `[i][j]` says whether alias `i` names alias `j`.
fn reference_matrix(table: &AliasTable) -> (m: Vec<Vec<bool>>)
    ensures
        m@.len() == table.aliases@.len(),
        forall|i: int| 0 <= i < m@.len() ==> #[trigger] m@[i]@.len() == table.aliases@.len(),
        forall|i: int, j: int|
            0 <= i < m@.len() && 0 <= j < m@.len() ==> #[trigger] m@[i]@[j] == refers(table_view(*table), i, j),
{
    let ghost tab = table_view(*table);
    let n = table.aliases.len();
    let mut m: Vec<Vec<bool>> = Vec::new();
    let mut i: usize = 0;
    while i < n
        invariant
            n == table.aliases@.len(),
            tab == table_view(*table),
            i <= n,
            m@.len() == i,
            forall|a: int| 0 <= a < i ==> #[trigger] m@[a]@.len() == n,
            forall|a: int, b: int| 0 <= a < i && 0 <= b < n ==> #[trigger] m@[a]@[b] == refers(tab, a, b),
        decreases n - i,
    {
        let mut row: Vec<bool> = Vec::new();
        let mut j: usize = 0;
        while j < n
            invariant
                n == table.aliases@.len(),
                tab == table_view(*table),
                i < n,
                j <= n,
                row@.len() == j,
                forall|b: int| 0 <= b < j ==> #[trigger] row@[b] == refers(tab, i as int, b),
            decreases n - j,
        {
            let r = mentions_name(&table.aliases[i].target, table.aliases[j].name.as_str());
            assert(tab[i as int].target == tview(table.aliases@[i as int].target));
            assert(tab[j as int].name == table.aliases@[j as int].name@);
            row.push(r);
            j += 1;
        }
        m.push(row);
        i += 1;
    }
    m
}

/// One Warshall step: allow alias `k` as an intermediate.
fn close_through(m: &Vec<Vec<bool>>, k: usize) -> (r: Vec<Vec<bool>>)
    requires
        k < m@.len(),
        forall|i: int| 0 <= i < m@.len() ==> #[trigger] m@[i]@.len() == m@.len(),
    ensures
        r@.len() == m@.len(),
        forall|i: int| 0 <= i < r@.len() ==> #[trigger] r@[i]@.len() == m@.len(),
        forall|i: int, j: int|
            0 <= i < r@.len() && 0 <= j < r@.len() ==> #[trigger] r@[i]@[j] == (m@[i]@[j] || (m@[i]@[k as int]
                && m@[k as int]@[j])),
{
    let n = m.len();
    let mut r: Vec<Vec<bool>> = Vec::new();
    let mut i: usize = 0;
    while i < n
        invariant
            n == m@.len(),
            k < n,
            forall|a: int| 0 <= a < n ==> #[trigger] m@[a]@.len() == n,
            i <= n,
            r@.len() == i,
            forall|a: int| 0 <= a < i ==> #[trigger] r@[a]@.len() == n,
            forall|a: int, b: int|
                0 <= a < i && 0 <= b < n ==> #[trigger] r@[a]@[b] == (m@[a]@[b] || (m@[a]@[k as int]
                    && m@[k as int]@[b])),
        decreases n - i,
    {
        let mut row: Vec<bool> = Vec::new();
        let mut j: usize = 0;
        while j < n
            invariant
                n == m@.len(),
                k < n,
                i < n,
                forall|a: int| 0 <= a < n ==> #[trigger] m@[a]@.len() == n,
                j <= n,
                row@.len() == j,
                forall|b: int| 0 <= b < j ==> #[trigger] row@[b] == (m@[i as int]@[b] || (m@[i as int]@[k as int]
                    && m@[k as int]@[b])),
            decreases n - j,
        {
            row.push(m[i][j] || (m[i][k] && m[k][j]));
            j += 1;
        }
        r.push(row);
        i += 1;
    }
    r
}

/// For every alias, whether it is cyclic.
fn cyclic_flags(table: &AliasTable) -> (r: Vec<bool>)
    ensures
        r@.len() == table.aliases@.len(),
        forall|i: int| 0 <= i < r@.len() ==> #[trigger] r@[i] == cyclic(table_view(*table), i),
{
    let ghost tab = table_view(*table);
    let n = table.aliases.len();
    let mut m = reference_matrix(table);
    let mut k: usize = 0;
    while k < n
        invariant
            n == table.aliases@.len(),
            tab == table_view(*table),
            tab.len() == n,
            k <= n,
            m@.len() == n,
            forall|i: int| 0 <= i < n ==> #[trigger] m@[i]@.len() == n,
            forall|i: int, j: int| 0 <= i < n && 0 <= j < n ==> #[trigger] m@[i]@[j] == path(tab, i, j, k as int),
        decreases n - k,
    {
        let m2 = close_through(&m, k);
        proof {
            assert forall|i: int, j: int| 0 <= i < n && 0 <= j < n implies #[trigger] m2@[i]@[j] == path(
                tab,
                i,
                j,
                k as int + 1,
            ) by {
                assert(m2@[i]@[j] == (m@[i]@[j] || (m@[i]@[k as int] && m@[k as int]@[j])));
                assert(m@[i]@[k as int] == path(tab, i, k as int, k as int));
                assert(m@[k as int]@[j] == path(tab, k as int, j, k as int));
                assert(path(tab, i, j, k as int + 1) == (path(tab, i, j, k as int) || (path(tab, i, k as int, k as int)
                    && path(tab, k as int, j, k as int))));
            }
        }
        m = m2;
        k += 1;
    }
    let mut r: Vec<bool> = Vec::new();
    let mut i: usize = 0;
    while i < n
        invariant
            n == table.aliases@.len(),
            tab == table_view(*table),
            tab.len() == n,
            m@.len() == n,
            forall|a: int| 0 <= a < n ==> #[trigger] m@[a]@.len() == n,
            forall|a: int, b: int| 0 <= a < n && 0 <= b < n ==> #[trigger] m@[a]@[b] == path(tab, a, b, n as int),
            i <= n,
            r@.len() == i,
            forall|a: int| 0 <= a < i ==> #[trigger] r@[a] == cyclic(tab, a),
        decreases n - i,
    {
        r.push(m[i][i]);
        i += 1;
    }
    r
}

/// One error per type alias that expands into itself, at the alias's
/// declaration, in declaration order.
pub fn alias_cycle_diagnostics(table: &AliasTable) -> (r: Vec<Diagnostic>)
    ensures
        dviews(r@) == cycle_diags(table_view(*table), table_view(*table).len() as int),
{
    let ghost tab = table_view(*table);
    let flags = cyclic_flags(table);
    let mut r: Vec<Diagnostic> = Vec::new();
    let mut i: usize = 0;
    while i < table.aliases.len()
        invariant
            tab == table_view(*table),
            tab.len() == table.aliases@.len(),
            flags@.len() == table.aliases@.len(),
            forall|a: int| 0 <= a < flags@.len() ==> #[trigger] flags@[a] == cyclic(tab, a),
            i <= table.aliases@.len(),
            dviews(r@) == cycle_diags(tab, i as int),
        decreases table.aliases.len() - i,
    {
        if flags[i] {
            let a = &table.aliases[i];
            let mut message = "type alias `".to_owned();
            append(&mut message, a.name.as_str());
            append(&mut message, "` expands to itself");
            let d = error_with_cause(
                "RS0039",
                message,
                clone_span(&a.span),
                "cyclic type alias".to_owned(),
                "A type alias must expand to a finite type; this alias reaches itself through its own target.",
            );
            proof {
                lemma_dviews_push(r@, d);
                assert(tab[i as int] == aview(table.aliases@[i as int]));
            }
            r.push(d);
        }
        i += 1;
    }
    r
}

// ---------------------------------------------------------------------------
// Laws
// ---------------------------------------------------------------------------

/// A name resolves to its last declaration: the declaration found has the
/// name, and no later one does; a name that resolves to nothing is declared
/// nowhere.
pub proof fn law_lookup_finds_last_declaration(tab: Seq<AliasView>, name: Seq<char>)
    ensures
        match lookup(tab, name) {
            Some(i) => 0 <= i < tab.len() && tab[i].name == name && forall|j: int|
                i < j < tab.len() ==> #[trigger] tab[j].name != name,
            None => forall|j: int| 0 <= j < tab.len() ==> #[trigger] tab[j].name != name,
        },
{
    lemma_last_match(alias_names(tab), name, tab.len() as int);
    match lookup(tab, name) {
        Some(i) => {
            assert forall|j: int| i < j < tab.len() implies #[trigger] tab[j].name != name by {
                assert(alias_names(tab)[j] == tab[j].name);
            }
        },
        None => {
            assert forall|j: int| 0 <= j < tab.len() implies #[trigger] tab[j].name != name by {
                assert(alias_names(tab)[j] == tab[j].name);
            }
        },
    }
}

/// Substituting no parameters leaves a type as it is.
pub proof fn law_substitution_without_parameters(t: TypeView, args: Seq<TypeView>)
    ensures
        subst(t, seq![], args) == t,
    decreases t, 0nat,
{
    lemma_subst_list_without_parameters(t.args, args);
    lemma_subst_list_without_parameters(t.fn_params, args);
    match t.fn_return {
        Some(b) => law_substitution_without_parameters(*b, args),
        None => {},
    }
}

proof fn lemma_subst_list_without_parameters(ts: Seq<TypeView>, args: Seq<TypeView>)
    ensures
        subst_list(ts, seq![], args) == ts,
    decreases ts, 0nat,
{
    if ts.len() > 0 {
        lemma_subst_list_without_parameters(ts.drop_last(), args);
        law_substitution_without_parameters(ts.last(), args);
        assert(ts.drop_last().push(ts.last()) =~= ts);
    }
}

/// With no alias in scope, the canonical form of a type is the type.
pub proof fn law_canonical_without_aliases(t: TypeView, vis: Seq<bool>)
    ensures
        canon(seq![], t, vis) == t,
    decreases t, 0nat,
{
    lemma_canon_list_without_aliases(t.args, vis);
    lemma_canon_list_without_aliases(t.fn_params, vis);
    match t.fn_return {
        Some(b) => law_canonical_without_aliases(*b, vis),
        None => {},
    }
}

proof fn lemma_canon_list_without_aliases(ts: Seq<TypeView>, vis: Seq<bool>)
    ensures
        canon_list(seq![], ts, vis) == ts,
    decreases ts, 0nat,
{
    if ts.len() > 0 {
        lemma_canon_list_without_aliases(ts.drop_last(), vis);
        law_canonical_without_aliases(ts.last(), vis);
        assert(ts.drop_last().push(ts.last()) =~= ts);
    }
}

proof fn lemma_path_from_reference(tab: Seq<AliasView>, i: int, j: int, k: int)
    requires
        refers(tab, i, j),
    ensures
        path(tab, i, j, k),
    decreases k,
{
    if k > 0 {
        lemma_path_from_reference(tab, i, j, k - 1);
    }
}

/// An alias whose target names the alias itself is cyclic.
pub proof fn law_self_reference_is_cyclic(tab: Seq<AliasView>, i: int)
    requires
        0 <= i < tab.len(),
        mentions(tab[i].target, tab[i].name),
    ensures
        cyclic(tab, i),
{
    lemma_path_from_reference(tab, i, i, tab.len() as int);
}

} // verus!
