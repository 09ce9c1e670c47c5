//! Inferring generic parameters from argument types: walking a declared
//! type pattern against an actual type name and recording, for each
//! generic parameter met, the actual type in its place. The walk is bounded
//! by a nesting depth and a number of steps.
use vstd::prelude::*;
use crate::aliases::strs;
use crate::chars::{chars_of, string_of, trim, trimmed};
use crate::derives::{contains_name, has_name};
use crate::typestr::{
    fn_param_types, fn_param_types_chars, fn_return, fn_return_chars, fresh_target, fresh_target_chars,
    is_fn_type, is_fn_type_chars, type_args, type_args_chars, type_root, type_root_chars, views,
};
use crate::chars::eq_chars;

verus! {

/// The limits of one inference: how deep it may nest, and how many steps
/// it may still take.
pub struct SubstitutionBudget {
    pub max_depth: usize,
    pub remaining: usize,
    /// Set once a walk has failed for want of depth or steps; an analysis
    /// that finds it set is incomplete.
    pub exhausted: bool,
}

impl SubstitutionBudget {
    /// Whether a walk under this budget has run out of depth or steps.
    pub fn is_exhausted(&self) -> (r: bool)
        ensures
            r == self.exhausted,
    {
        self.exhausted
    }
}

/// The recorded substitutions (parameter, actual type) and the steps left.
pub struct SubstState {
    pub subs: Seq<(Seq<char>, Seq<char>)>,
    pub remaining: nat,
}

pub open spec fn has_key(subs: Seq<(Seq<char>, Seq<char>)>, k: Seq<char>) -> bool {
    exists|i: int| 0 <= i < subs.len() && subs[i].0 == k
}

/// Walks `p` (the declared type) against `a` (the actual type) at nesting
/// `depth`. It fails when the depth passes `maxd` or no step is left;
/// otherwise each call takes one step. An actual `?` matches anything; a
/// `fresh` pattern is walked against the actual's `fresh` target (or the
/// actual itself); a generic parameter records the actual unless it already
/// has one; function types are walked parameter by parameter and then by
/// return type; types with the same root and as many arguments are walked
/// argument by argument. Anything else matches without recording.
pub open spec fn collect(
    p: Seq<char>,
    a: Seq<char>,
    gen: Seq<Seq<char>>,
    st: SubstState,
    depth: int,
    maxd: int,
) -> (bool, SubstState)
    decreases maxd + 1 - depth, 1nat,
{
    if depth > maxd || depth < 0 {
        (false, st)
    } else if st.remaining == 0 {
        (false, st)
    } else {
        let st0 = SubstState { remaining: (st.remaining - 1) as nat, ..st };
        let p = trim(p);
        let a = trim(a);
        if a == "?"@ {
            (true, st0)
        } else {
            match fresh_target(p) {
                Some(pt) => {
                    let at = match fresh_target(a) {
                        Some(x) => x,
                        None => a,
                    };
                    collect(pt, at, gen, st0, depth + 1, maxd)
                },
                None => if has_name(gen, p) {
                    if has_key(st0.subs, p) {
                        (true, st0)
                    } else {
                        (true, SubstState { subs: st0.subs.push((p, a)), ..st0 })
                    }
                } else if is_fn_type(p) && is_fn_type(a) {
                    let (ok, st1) = collect_pairs(fn_param_types(p), fn_param_types(a), 0, gen, st0, depth, maxd);
                    if !ok {
                        (false, st1)
                    } else {
                        match (fn_return(p), fn_return(a)) {
                            (Some(pr), Some(ar)) => collect(pr, ar, gen, st1, depth + 1, maxd),
                            _ => (true, st1),
                        }
                    }
                } else {
                    match (type_args(p), type_args(a)) {
                        (Some(pa), Some(aa)) => if type_root(p) != type_root(a) || pa.len() != aa.len() {
                            (true, st0)
                        } else {
                            collect_pairs(pa, aa, 0, gen, st0, depth, maxd)
                        },
                        _ => (true, st0),
                    }
                },
            }
        }
    }
}

/// Walks the pairs `ps[i..]`/`as_[i..]` (as far as both go) one nesting
/// level below `depth`, stopping at the first failure.
pub open spec fn collect_pairs(
    ps: Seq<Seq<char>>,
    as_: Seq<Seq<char>>,
    i: int,
    gen: Seq<Seq<char>>,
    st: SubstState,
    depth: int,
    maxd: int,
) -> (bool, SubstState)
    decreases maxd + 1 - depth, 0nat, ps.len() - i,
{
    if i < 0 || i >= ps.len() || i >= as_.len() || depth > maxd || depth < 0 {
        (true, st)
    } else {
        let (ok, st1) = collect(ps[i], as_[i], gen, st, depth + 1, maxd);
        if !ok {
            (false, st1)
        } else {
            collect_pairs(ps, as_, i + 1, gen, st1, depth, maxd)
        }
    }
}

/// Every entry from position `k` on records a generic parameter.
pub open spec fn keys_generic_from(subs: Seq<(Seq<char>, Seq<char>)>, k: int, gen: Seq<Seq<char>>) -> bool {
    forall|j: int| k <= j < subs.len() ==> has_name(gen, #[trigger] subs[j].0)
}

proof fn lemma_keys_generic_chain(
    s0: Seq<(Seq<char>, Seq<char>)>,
    s1: Seq<(Seq<char>, Seq<char>)>,
    s2: Seq<(Seq<char>, Seq<char>)>,
    gen: Seq<Seq<char>>,
)
    requires
        s1.len() >= s0.len(),
        s2.len() >= s1.len(),
        s2.take(s1.len() as int) == s1,
        keys_generic_from(s1, s0.len() as int, gen),
        keys_generic_from(s2, s1.len() as int, gen),
    ensures
        keys_generic_from(s2, s0.len() as int, gen),
{
    assert forall|j: int| s0.len() <= j < s2.len() implies has_name(gen, #[trigger] s2[j].0) by {
        if j < s1.len() {
            assert(s2.take(s1.len() as int)[j] == s2[j]);
        }
    }
}

pub open spec fn pair_strs(v: Seq<(String, String)>) -> Seq<(Seq<char>, Seq<char>)> {
    v.map_values(|p: (String, String)| (p.0@, p.1@))
}

fn has_key_exec(subs: &Vec<(String, String)>, k: &str) -> (r: bool)
    ensures
        r == has_key(pair_strs(subs@), k@),
{
    let ghost pv = pair_strs(subs@);
    let mut i: usize = 0;
    while i < subs.len()
        invariant
            pv == pair_strs(subs@),
            i <= subs@.len(),
            forall|j: int| 0 <= j < i ==> pv[j].0 != k@,
        decreases subs.len() - i,
    {
        if crate::chars::str_eq(subs[i].0.as_str(), k) {
            assert(pv[i as int].0 == k@);
            return true;
        }
        i += 1;
    }
    false
}

fn collect_inner(
    max_depth: usize,
    remaining: &mut usize,
    pattern: &Vec<char>,
    actual: &Vec<char>,
    generics: &Vec<String>,
    subs: &mut Vec<(String, String)>,
    depth: usize,
) -> (r: bool)
    requires
        max_depth < usize::MAX,
    ensures
        (r, SubstState { subs: pair_strs(final(subs)@), remaining: *final(remaining) as nat }) == collect(
            pattern@,
            actual@,
            strs(generics@),
            SubstState { subs: pair_strs(old(subs)@), remaining: *old(remaining) as nat },
            depth as int,
            max_depth as int,
        ),
    decreases max_depth + 1 - depth, 1nat,
{
    let ghost gen = strs(generics@);
    if depth > max_depth {
        return false;
    }
    if *remaining == 0 {
        return false;
    }
    *remaining = *remaining - 1;
    let p = trimmed(pattern.as_slice());
    let a = trimmed(actual.as_slice());
    if a.len() == 1 && a[0] == '?' {
        proof {
            reveal_strlit("?");
        }
        assert(a@ =~= "?"@);
        return true;
    }
    proof {
        reveal_strlit("?");
        if a@ == "?"@ {
            assert(a@.len() == 1);
        }
    }
    match fresh_target_chars(p.as_slice()) {
        Some(pt) => {
            let at = match fresh_target_chars(a.as_slice()) {
                Some(x) => x,
                None => a,
            };
            return collect_inner(max_depth, remaining, &pt, &at, generics, subs, depth + 1);
        },
        None => {},
    }
    let ps = string_of(p.as_slice());
    if contains_name(generics, ps.as_str()) {
        if !has_key_exec(subs, ps.as_str()) {
            let ghost before = subs@;
            let entry = (ps, string_of(a.as_slice()));
            subs.push(entry);
            assert(pair_strs(subs@) =~= pair_strs(before).push((p@, a@)));
        }
        return true;
    }
    if is_fn_type_chars(p.as_slice()) && is_fn_type_chars(a.as_slice()) {
        let pp = fn_param_types_chars(&p);
        let ap = fn_param_types_chars(&a);
        let ok = collect_pairs_exec(max_depth, remaining, &pp, &ap, generics, subs, depth);
        if !ok {
            return false;
        }
        match (fn_return_chars(p.as_slice()), fn_return_chars(a.as_slice())) {
            (Some(pr), Some(ar)) => {
                return collect_inner(max_depth, remaining, &pr, &ar, generics, subs, depth + 1);
            },
            _ => {
                return true;
            },
        }
    }
    match (type_args_chars(p.as_slice()), type_args_chars(a.as_slice())) {
        (Some(pa), Some(aa)) => {
            let pr = type_root_chars(p.as_slice());
            let ar = type_root_chars(a.as_slice());
            if !eq_chars(pr.as_slice(), ar.as_slice()) || pa.len() != aa.len() {
                return true;
            }
            collect_pairs_exec(max_depth, remaining, &pa, &aa, generics, subs, depth)
        },
        _ => true,
    }
}

fn collect_pairs_exec(
    max_depth: usize,
    remaining: &mut usize,
    ps: &Vec<Vec<char>>,
    as_: &Vec<Vec<char>>,
    generics: &Vec<String>,
    subs: &mut Vec<(String, String)>,
    depth: usize,
) -> (r: bool)
    requires
        max_depth < usize::MAX,
        depth <= max_depth,
    ensures
        (r, SubstState { subs: pair_strs(final(subs)@), remaining: *final(remaining) as nat }) == collect_pairs(
            views(ps@),
            views(as_@),
            0,
            strs(generics@),
            SubstState { subs: pair_strs(old(subs)@), remaining: *old(remaining) as nat },
            depth as int,
            max_depth as int,
        ),
    decreases max_depth + 1 - depth, 0nat,
{
    let ghost gen = strs(generics@);
    let ghost pv = views(ps@);
    let ghost av = views(as_@);
    let ghost st_init = SubstState { subs: pair_strs(subs@), remaining: *remaining as nat };
    let mut i: usize = 0;
    while i < ps.len() && i < as_.len()
        invariant
            max_depth < usize::MAX,
            depth <= max_depth,
            gen == strs(generics@),
            pv == views(ps@),
            av == views(as_@),
            st_init == (SubstState { subs: pair_strs(old(subs)@), remaining: *old(remaining) as nat }),
            i <= ps@.len(),
            collect_pairs(pv, av, 0, gen, st_init, depth as int, max_depth as int) == collect_pairs(
                pv,
                av,
                i as int,
                gen,
                SubstState { subs: pair_strs(subs@), remaining: *remaining as nat },
                depth as int,
                max_depth as int,
            ),
        decreases ps.len() - i,
    {
        assert(pv[i as int] == ps@[i as int]@);
        assert(av[i as int] == as_@[i as int]@);
        let ghost st_i = SubstState { subs: pair_strs(subs@), remaining: *remaining as nat };
        let ok = collect_inner(max_depth, remaining, &ps[i], &as_[i], generics, subs, depth + 1);
        let ghost st_after = SubstState { subs: pair_strs(subs@), remaining: *remaining as nat };
        assert(collect(pv[i as int], av[i as int], gen, st_i, depth + 1, max_depth as int) == (ok, st_after));
        if !ok {
            assert(collect_pairs(pv, av, i as int, gen, st_i, depth as int, max_depth as int) == (false, st_after));
            assert(collect_pairs(pv, av, 0, gen, st_init, depth as int, max_depth as int) == (false, st_after));
            assert(st_init == SubstState { subs: pair_strs(old(subs)@), remaining: *old(remaining) as nat });
            return false;
        }
        i += 1;
    }
    true
}

/// Walks the declared type `pattern` against the actual type `actual`,
/// recording into `substitutions` the actual type of each generic
/// parameter met for the first time. Fails only when the walk runs out of
/// depth or steps (the spec `collect` fails nowhere else), and then marks
/// the budget exhausted; each step uses one unit of `budget.remaining`.
pub fn collect_type_param_substitutions_bounded(
    budget: &mut SubstitutionBudget,
    pattern: &str,
    actual: &str,
    generic_params: &Vec<String>,
    substitutions: &mut Vec<(String, String)>,
    depth: usize,
) -> (r: bool)
    requires
        old(budget).max_depth < usize::MAX,
    ensures
        final(budget).max_depth == old(budget).max_depth,
        final(budget).exhausted == (old(budget).exhausted || !r),
        !r ==> final(budget).exhausted,
        (r, SubstState { subs: pair_strs(final(substitutions)@), remaining: final(budget).remaining as nat })
            == collect(
            pattern@,
            actual@,
            strs(generic_params@),
            SubstState { subs: pair_strs(old(substitutions)@), remaining: old(budget).remaining as nat },
            depth as int,
            old(budget).max_depth as int,
        ),
{
    let p = chars_of(pattern);
    let a = chars_of(actual);
    let mut remaining = budget.remaining;
    let r = collect_inner(budget.max_depth, &mut remaining, &p, &a, generic_params, substitutions, depth);
    budget.remaining = remaining;
    if !r {
        budget.exhausted = true;
    }
    r
}

/// The walk from nesting depth zero.
pub fn collect_type_param_substitutions(
    budget: &mut SubstitutionBudget,
    pattern: &str,
    actual: &str,
    generic_params: &Vec<String>,
    substitutions: &mut Vec<(String, String)>,
) -> (r: bool)
    requires
        old(budget).max_depth < usize::MAX,
    ensures
        final(budget).max_depth == old(budget).max_depth,
        final(budget).exhausted == (old(budget).exhausted || !r),
        !r ==> final(budget).exhausted,
        (r, SubstState { subs: pair_strs(final(substitutions)@), remaining: final(budget).remaining as nat })
            == collect(
            pattern@,
            actual@,
            strs(generic_params@),
            SubstState { subs: pair_strs(old(substitutions)@), remaining: old(budget).remaining as nat },
            0,
            old(budget).max_depth as int,
        ),
{
    collect_type_param_substitutions_bounded(budget, pattern, actual, generic_params, substitutions, 0)
}

/// The walk only adds substitutions: those recorded before keep their
/// place and value, so the first actual type found for a parameter is the
/// one that stays; every entry it adds records a generic parameter; and it
/// never gains steps.
pub proof fn law_collect_keeps_earlier_substitutions(
    p: Seq<char>,
    a: Seq<char>,
    gen: Seq<Seq<char>>,
    st: SubstState,
    depth: int,
    maxd: int,
)
    ensures
        collect(p, a, gen, st, depth, maxd).1.subs.len() >= st.subs.len(),
        collect(p, a, gen, st, depth, maxd).1.subs.take(st.subs.len() as int) == st.subs,
        collect(p, a, gen, st, depth, maxd).1.remaining <= st.remaining,
        keys_generic_from(collect(p, a, gen, st, depth, maxd).1.subs, st.subs.len() as int, gen),
    decreases maxd + 1 - depth, 1nat,
{
    if depth > maxd || depth < 0 || st.remaining == 0 {
    } else {
        let st0 = SubstState { remaining: (st.remaining - 1) as nat, ..st };
        let tp = trim(p);
        let ta = trim(a);
        if ta == "?"@ {
        } else {
            match fresh_target(tp) {
                Some(pt) => {
                    let at = match fresh_target(ta) {
                        Some(x) => x,
                        None => ta,
                    };
                    law_collect_keeps_earlier_substitutions(pt, at, gen, st0, depth + 1, maxd);
                },
                None => if has_name(gen, tp) {
                    assert(st0.subs.push((tp, ta)).take(st.subs.len() as int) =~= st.subs);
                    assert(keys_generic_from(st0.subs.push((tp, ta)), st.subs.len() as int, gen));
                } else if is_fn_type(tp) && is_fn_type(ta) {
                    lemma_pairs_keep(fn_param_types(tp), fn_param_types(ta), 0, gen, st0, depth, maxd);
                    let st1 = collect_pairs(fn_param_types(tp), fn_param_types(ta), 0, gen, st0, depth, maxd).1;
                    match (fn_return(tp), fn_return(ta)) {
                        (Some(pr), Some(ar)) => {
                            law_collect_keeps_earlier_substitutions(pr, ar, gen, st1, depth + 1, maxd);
                            let st2 = collect(pr, ar, gen, st1, depth + 1, maxd).1;
                            assert(st2.subs.take(st.subs.len() as int) =~= st2.subs.take(st1.subs.len() as int).take(
                                st.subs.len() as int,
                            ));
                            lemma_keys_generic_chain(st.subs, st1.subs, st2.subs, gen);
                        },
                        _ => {},
                    }
                } else {
                    match (type_args(tp), type_args(ta)) {
                        (Some(pa), Some(aa)) => {
                            lemma_pairs_keep(pa, aa, 0, gen, st0, depth, maxd);
                        },
                        _ => {},
                    }
                },
            }
        }
    }
}

proof fn lemma_pairs_keep(
    ps: Seq<Seq<char>>,
    as_: Seq<Seq<char>>,
    i: int,
    gen: Seq<Seq<char>>,
    st: SubstState,
    depth: int,
    maxd: int,
)
    ensures
        collect_pairs(ps, as_, i, gen, st, depth, maxd).1.subs.len() >= st.subs.len(),
        collect_pairs(ps, as_, i, gen, st, depth, maxd).1.subs.take(st.subs.len() as int) == st.subs,
        collect_pairs(ps, as_, i, gen, st, depth, maxd).1.remaining <= st.remaining,
        keys_generic_from(collect_pairs(ps, as_, i, gen, st, depth, maxd).1.subs, st.subs.len() as int, gen),
    decreases maxd + 1 - depth, 0nat, ps.len() - i,
{
    if i < 0 || i >= ps.len() || i >= as_.len() || depth > maxd || depth < 0 {
        assert(st.subs.take(st.subs.len() as int) =~= st.subs);
    } else {
        law_collect_keeps_earlier_substitutions(ps[i], as_[i], gen, st, depth + 1, maxd);
        let st1 = collect(ps[i], as_[i], gen, st, depth + 1, maxd).1;
        if collect(ps[i], as_[i], gen, st, depth + 1, maxd).0 {
            lemma_pairs_keep(ps, as_, i + 1, gen, st1, depth, maxd);
            let st2 = collect_pairs(ps, as_, i + 1, gen, st1, depth, maxd).1;
            assert(st2.subs.take(st.subs.len() as int) =~= st2.subs.take(st1.subs.len() as int).take(
                st.subs.len() as int,
            ));
            lemma_keys_generic_chain(st.subs, st1.subs, st2.subs, gen);
        }
    }
}

/// An actual type `?` matches anything and records nothing: when the walk
/// succeeds on it, the substitutions are unchanged.
pub proof fn law_placeholder_actual_records_nothing(
    p: Seq<char>,
    a: Seq<char>,
    gen: Seq<Seq<char>>,
    st: SubstState,
    depth: int,
    maxd: int,
)
    requires
        trim(a) == "?"@,
        collect(p, a, gen, st, depth, maxd).0,
    ensures
        collect(p, a, gen, st, depth, maxd).1.subs == st.subs,
{
}

} // verus!
