//! The external imports of a package: for each external symbol the package
//! calls, each function that reaches it through calls, with the shortest call
//! chain found by a breadth-first walk back from the symbol over the callers.
use vstd::prelude::*;
use crate::aliases::strs;
use crate::ast::Span;
use crate::chars::str_eq;
use crate::derives::{contains_name, has_name};
use crate::execution::{text_less, text_lt};
use crate::package::PackageSource;
use crate::types::{append, clone_span};

verus! {

/// A resolved call site: the calling function, the callee's namespace and
/// name, whether the callee is external, and where the call is.
pub struct ImportCallSite {
    pub function: String,
    pub namespace: Option<String>,
    pub name: String,
    pub is_external: bool,
    pub span: Span,
}

/// A function that reaches an external symbol, with the call chain from the
/// function down to the symbol and the call that starts it.
#[derive(Debug)]
pub struct PackageAnalysisExternalImport {
    pub function: String,
    pub symbol: String,
    pub call_chain: Vec<String>,
    pub span: Option<Span>,
}

/// The symbol a call site calls: `namespace.name`, or the bare name.
pub open spec fn site_symbol(s: ImportCallSite) -> Seq<char> {
    match s.namespace {
        Some(n) => n@ + "."@ + s.name@,
        None => s.name@,
    }
}

/// The relative path of the last source whose path is `file`.
pub open spec fn relative_path_of(sources: Seq<PackageSource>, file: Seq<char>) -> Option<String>
    decreases sources.len(),
{
    if sources.len() == 0 {
        None
    } else if sources.last().path@ == file {
        Some(sources.last().relative_path)
    } else {
        relative_path_of(sources.drop_last(), file)
    }
}

/// `span` with its file made relative to the package, when it is one of the
/// package's sources.
pub open spec fn relative_span(sources: Seq<PackageSource>, span: Span) -> Span {
    match relative_path_of(sources, span.file@) {
        Some(r) => Span { file: r, ..span },
        None => span,
    }
}

/// The callers of `callee`, in call-site order.
pub open spec fn raw_callers(sites: Seq<ImportCallSite>, sources: Seq<PackageSource>, callee: Seq<char>) -> Seq<(Seq<char>, Span)>
    decreases sites.len(),
{
    if sites.len() == 0 {
        seq![]
    } else {
        let rest = raw_callers(sites.drop_last(), sources, callee);
        let s = sites.last();
        if site_symbol(s) == callee {
            rest.push((s.function@, relative_span(sources, s.span)))
        } else {
            rest
        }
    }
}

/// Where `x` goes among `s` from `j` on: before the first entry whose key
/// comes after `x`'s.
pub open spec fn key_position<X>(s: Seq<(Seq<char>, X)>, x: (Seq<char>, X), j: int) -> int
    decreases s.len() - j,
{
    if j < 0 || j >= s.len() {
        s.len() as int
    } else if text_lt(x.0, s[j].0) {
        j
    } else {
        key_position(s, x, j + 1)
    }
}

/// `s` stably sorted by key.
pub open spec fn sort_by_key<X>(s: Seq<(Seq<char>, X)>) -> Seq<(Seq<char>, X)>
    decreases s.len(),
{
    if s.len() == 0 {
        seq![]
    } else {
        let t = sort_by_key(s.drop_last());
        t.insert(key_position(t, s.last(), 0), s.last())
    }
}

/// The callers of `callee`, ordered by function name, call-site order among
/// equal names.
pub open spec fn callers(sites: Seq<ImportCallSite>, sources: Seq<PackageSource>, callee: Seq<char>) -> Seq<(Seq<char>, Span)> {
    sort_by_key(raw_callers(sites, sources, callee))
}

/// `s` with `x` added, kept ascending and without repeats.
pub open spec fn insert_unique(s: Seq<Seq<char>>, x: Seq<char>) -> Seq<Seq<char>> {
    if s.contains(x) {
        s
    } else {
        let p = key_position(s.map_values(|e: Seq<char>| (e, ())), (x, ()), 0);
        s.insert(p, x)
    }
}

/// The external symbols called, ascending, each once.
pub open spec fn external_symbols(sites: Seq<ImportCallSite>) -> Seq<Seq<char>>
    decreases sites.len(),
{
    if sites.len() == 0 {
        seq![]
    } else {
        let rest = external_symbols(sites.drop_last());
        if sites.last().is_external {
            insert_unique(rest, site_symbol(sites.last()))
        } else {
            rest
        }
    }
}

/// A found caller: the function, its chain down to the symbol, and the call.
pub type Found = (Seq<char>, (Seq<Seq<char>>, Span));

pub open spec fn found_has(found: Seq<Found>, f: Seq<char>) -> bool {
    exists|i: int| 0 <= i < found.len() && found[i].0 == f
}

/// Visits the callers `cs[i..]` of an entry whose chain is `chain`: each
/// caller not on the chain and not yet found is found, with the chain
/// extended by it, and queued for the next layer.
pub open spec fn visit(cs: Seq<(Seq<char>, Span)>, chain: Seq<Seq<char>>, found: Seq<Found>, next: Seq<(Seq<char>, Seq<Seq<char>>)>, i: int) -> (Seq<Found>, Seq<(Seq<char>, Seq<Seq<char>>)>)
    decreases cs.len() - i,
{
    if i < 0 || i >= cs.len() {
        (found, next)
    } else {
        let c = cs[i];
        if chain.contains(c.0) || found_has(found, c.0) {
            visit(cs, chain, found, next, i + 1)
        } else {
            let nc = seq![c.0] + chain;
            visit(cs, chain, found.push((c.0, (nc, c.1))), next.push((c.0, nc)), i + 1)
        }
    }
}

/// Visits the callers of the entries `layer[k..]` in order.
pub open spec fn walk_layer(
    sites: Seq<ImportCallSite>,
    sources: Seq<PackageSource>,
    layer: Seq<(Seq<char>, Seq<Seq<char>>)>,
    found: Seq<Found>,
    next: Seq<(Seq<char>, Seq<Seq<char>>)>,
    k: int,
) -> (Seq<Found>, Seq<(Seq<char>, Seq<Seq<char>>)>)
    decreases layer.len() - k,
{
    if k < 0 || k >= layer.len() {
        (found, next)
    } else {
        let (f2, n2) = visit(callers(sites, sources, layer[k].0), layer[k].1, found, next, 0);
        walk_layer(sites, sources, layer, f2, n2, k + 1)
    }
}

/// The breadth-first walk from `layer`, for at most `fuel` layers.
pub open spec fn walk(
    sites: Seq<ImportCallSite>,
    sources: Seq<PackageSource>,
    layer: Seq<(Seq<char>, Seq<Seq<char>>)>,
    found: Seq<Found>,
    fuel: nat,
) -> Seq<Found>
    decreases fuel,
{
    if fuel == 0 || layer.len() == 0 {
        found
    } else {
        let (f2, n2) = walk_layer(sites, sources, layer, found, seq![], 0);
        walk(sites, sources, n2, f2, (fuel - 1) as nat)
    }
}

/// The functions that reach `sym`, by function name, each with its chain
/// and the call that starts it. The walk needs at most one layer per
/// calling function, and there are no more than call sites.
pub open spec fn reaching(sites: Seq<ImportCallSite>, sources: Seq<PackageSource>, sym: Seq<char>) -> Seq<Found> {
    sort_by_key(walk(sites, sources, seq![(sym, seq![sym])], seq![], (sites.len() + 1) as nat))
}

pub type ImportView = (Seq<char>, Seq<char>, Seq<Seq<char>>, Option<Span>);

/// The imports of symbols `syms`, symbol by symbol.
pub open spec fn imports_of(sites: Seq<ImportCallSite>, sources: Seq<PackageSource>, syms: Seq<Seq<char>>) -> Seq<ImportView>
    decreases syms.len(),
{
    if syms.len() == 0 {
        seq![]
    } else {
        imports_of(sites, sources, syms.drop_last()) + reaching(sites, sources, syms.last()).map_values(
            |f: Found| (syms.last(), f.0, f.1.0, Some(f.1.1)),
        )
    }
}

pub open spec fn import_view(i: PackageAnalysisExternalImport) -> ImportView {
    (i.symbol@, i.function@, strs(i.call_chain@), i.span)
}

/// The external imports of a package whose resolved call sites are `sites`:
/// for each external symbol in ascending order, each function reaching it in
/// ascending order.
pub open spec fn external_imports(sites: Seq<ImportCallSite>, sources: Seq<PackageSource>) -> Seq<ImportView> {
    imports_of(sites, sources, external_symbols(sites))
}

// ---------------------------------------------------------------------------
// Executable parts
// ---------------------------------------------------------------------------

pub open spec fn caller_views(v: Seq<(String, Span)>) -> Seq<(Seq<char>, Span)> {
    v.map_values(|c: (String, Span)| (c.0@, c.1))
}

pub open spec fn found_views(v: Seq<(String, Vec<String>, Span)>) -> Seq<Found> {
    v.map_values(|f: (String, Vec<String>, Span)| (f.0@, (strs(f.1@), f.2)))
}

pub open spec fn layer_views(v: Seq<(String, Vec<String>)>) -> Seq<(Seq<char>, Seq<Seq<char>>)> {
    v.map_values(|e: (String, Vec<String>)| (e.0@, strs(e.1@)))
}

/// Every function name in `fs` is the caller of one of `sites`.
pub open spec fn from_sites<X>(fs: Seq<(Seq<char>, X)>, sites: Seq<ImportCallSite>) -> bool {
    forall|i: int| 0 <= i < fs.len() ==> site_functions(sites).contains(#[trigger] fs[i].0)
}

pub open spec fn site_functions(sites: Seq<ImportCallSite>) -> Seq<Seq<char>> {
    sites.map_values(|s: ImportCallSite| s.function@)
}

fn site_symbol_exec(s: &ImportCallSite) -> (r: String)
    ensures
        r@ == site_symbol(*s),
{
    match &s.namespace {
        Some(n) => {
            let mut t = n.clone();
            append(&mut t, ".");
            append(&mut t, s.name.as_str());
            t
        },
        None => s.name.clone(),
    }
}

fn relative_span_exec(sources: &Vec<PackageSource>, span: &Span) -> (r: Span)
    ensures
        r == relative_span(sources@, *span),
{
    let mut i: usize = sources.len();
    assert(sources@.take(i as int) == sources@);
    while i > 0
        invariant
            i <= sources@.len(),
            relative_path_of(sources@, span.file@) == relative_path_of(sources@.take(i as int), span.file@),
        decreases i,
    {
        assert(sources@.take(i as int).drop_last() == sources@.take(i - 1));
        assert(sources@.take(i as int).last() == sources@[i - 1]);
        if str_eq(sources[i - 1].path.as_str(), span.file.as_str()) {
            return Span {
                file: sources[i - 1].relative_path.clone(),
                line: span.line,
                column: span.column,
                length: span.length,
            };
        }
        i -= 1;
    }
    clone_span(span)
}

proof fn lemma_from_sites_insert<X>(s: Seq<(Seq<char>, X)>, p: int, x: (Seq<char>, X), sites: Seq<ImportCallSite>)
    requires
        from_sites(s, sites),
        site_functions(sites).contains(x.0),
        0 <= p <= s.len(),
    ensures
        from_sites(s.insert(p, x), sites),
{
    s.insert_ensures(p, x);
    assert forall|i: int| 0 <= i < s.insert(p, x).len() implies site_functions(sites).contains(
        #[trigger] s.insert(p, x)[i].0,
    ) by {
        if i > p {
            assert(s.insert(p, x)[i] == s[i - 1]);
        }
    }
}

proof fn lemma_key_position_bound<X>(s: Seq<(Seq<char>, X)>, x: (Seq<char>, X), j: int)
    requires
        0 <= j <= s.len(),
    ensures
        j <= key_position(s, x, j) <= s.len(),
    decreases s.len() - j,
{
    if j < s.len() && !text_lt(x.0, s[j].0) {
        lemma_key_position_bound(s, x, j + 1);
    }
}

fn insert_caller(out: &mut Vec<(String, Span)>, x: (String, Span))
    ensures
        caller_views(final(out)@) == {
            let t = caller_views(old(out)@);
            t.insert(key_position(t, (x.0@, x.1), 0), (x.0@, x.1))
        },
{
    let ghost t = caller_views(out@);
    let ghost xv = (x.0@, x.1);
    let mut j: usize = 0;
    while j < out.len() && !text_less(x.0.as_str(), out[j].0.as_str())
        invariant
            j <= out@.len(),
            t == caller_views(out@),
            key_position(t, xv, 0) == key_position(t, xv, j as int),
            xv == (x.0@, x.1),
        decreases out.len() - j,
    {
        j += 1;
    }
    assert(key_position(t, xv, j as int) == j);
    out.insert(j, x);
    assert(caller_views(out@) =~= t.insert(j as int, xv));
}

/// The callers of `callee`, by function name.
fn callers_exec(sites: &Vec<ImportCallSite>, sources: &Vec<PackageSource>, callee: &str) -> (r: Vec<(String, Span)>)
    ensures
        caller_views(r@) == callers(sites@, sources@, callee@),
        from_sites(caller_views(r@), sites@),
{
    let mut raw: Vec<(String, Span)> = Vec::new();
    let mut i: usize = 0;
    while i < sites.len()
        invariant
            i <= sites@.len(),
            caller_views(raw@) == raw_callers(sites@.take(i as int), sources@, callee@),
            from_sites(caller_views(raw@), sites@),
        decreases sites.len() - i,
    {
        assert(sites@.take(i + 1).drop_last() == sites@.take(i as int));
        assert(sites@.take(i + 1).last() == sites@[i as int]);
        let sym = site_symbol_exec(&sites[i]);
        if str_eq(sym.as_str(), callee) {
            let ghost before = caller_views(raw@);
            let c = (sites[i].function.clone(), relative_span_exec(sources, &sites[i].span));
            raw.push(c);
            assert(caller_views(raw@) =~= before.push((c.0@, c.1)));
            assert(site_functions(sites@)[i as int] == sites@[i as int].function@);
            assert forall|q: int| 0 <= q < caller_views(raw@).len() implies site_functions(sites@).contains(
                #[trigger] caller_views(raw@)[q].0,
            ) by {
                if q < before.len() {
                    assert(caller_views(raw@)[q] == before[q]);
                }
            }
        }
        i += 1;
    }
    assert(sites@.take(sites@.len() as int) == sites@);
    let ghost rv = caller_views(raw@);
    let mut out: Vec<(String, Span)> = Vec::new();
    let mut k: usize = 0;
    while k < raw.len()
        invariant
            k <= raw@.len(),
            rv == caller_views(raw@),
            from_sites(rv, sites@),
            caller_views(out@) == sort_by_key(rv.take(k as int)),
            from_sites(caller_views(out@), sites@),
        decreases raw.len() - k,
    {
        assert(rv.take(k + 1).drop_last() == rv.take(k as int));
        assert(rv.take(k + 1).last() == rv[k as int]);
        let ghost t = caller_views(out@);
        let c = (raw[k].0.clone(), clone_span(&raw[k].1));
        proof {
            lemma_key_position_bound(t, (c.0@, c.1), 0);
            lemma_from_sites_insert(t, key_position(t, (c.0@, c.1), 0), (c.0@, c.1), sites@);
        }
        insert_caller(&mut out, c);
        k += 1;
    }
    assert(rv.take(rv.len() as int) == rv);
    out
}

fn insert_symbol(out: &mut Vec<String>, x: String)
    ensures
        strs(final(out)@) == insert_unique(strs(old(out)@), x@),
{
    let ghost t = strs(out@);
    if contains_name(out, x.as_str()) {
        assert(t.contains(x@)) by {
            let i = choose|i: int| 0 <= i < t.len() && t[i] == x@;
        }
        return;
    }
    assert(!t.contains(x@)) by {
        if t.contains(x@) {
            let i = choose|i: int| 0 <= i < t.len() && t[i] == x@;
            assert(has_name(t, x@));
        }
    }
    let ghost m = t.map_values(|e: Seq<char>| (e, ()));
    let mut j: usize = 0;
    while j < out.len() && !text_less(x.as_str(), out[j].as_str())
        invariant
            j <= out@.len(),
            t == strs(out@),
            m == t.map_values(|e: Seq<char>| (e, ())),
            key_position(m, (x@, ()), 0) == key_position(m, (x@, ()), j as int),
        decreases out.len() - j,
    {
        j += 1;
    }
    assert(key_position(m, (x@, ()), j as int) == j);
    let ghost xv = x@;
    out.insert(j, x);
    assert(strs(out@) =~= t.insert(j as int, xv));
}

fn external_symbols_exec(sites: &Vec<ImportCallSite>) -> (r: Vec<String>)
    ensures
        strs(r@) == external_symbols(sites@),
{
    let mut out: Vec<String> = Vec::new();
    let mut i: usize = 0;
    while i < sites.len()
        invariant
            i <= sites@.len(),
            strs(out@) == external_symbols(sites@.take(i as int)),
        decreases sites.len() - i,
    {
        assert(sites@.take(i + 1).drop_last() == sites@.take(i as int));
        assert(sites@.take(i + 1).last() == sites@[i as int]);
        if sites[i].is_external {
            let sym = site_symbol_exec(&sites[i]);
            insert_symbol(&mut out, sym);
        }
        i += 1;
    }
    assert(sites@.take(sites@.len() as int) == sites@);
    out
}

fn found_has_exec(found: &Vec<(String, Vec<String>, Span)>, f: &str) -> (r: bool)
    ensures
        r == found_has(found_views(found@), f@),
{
    let mut i: usize = 0;
    while i < found.len()
        invariant
            i <= found@.len(),
            forall|j: int| 0 <= j < i ==> (#[trigger] found_views(found@)[j]).0 != f@,
        decreases found.len() - i,
    {
        if str_eq(found[i].0.as_str(), f) {
            assert(found_views(found@)[i as int].0 == f@);
            return true;
        }
        i += 1;
    }
    false
}

fn clone_texts(v: &Vec<String>) -> (r: Vec<String>)
    ensures
        strs(r@) == strs(v@),
{
    let r = crate::derives::clone_strings(v);
    r
}

pub open spec fn keys_unique(found: Seq<Found>) -> bool {
    forall|i: int, j: int| 0 <= i < j < found.len() ==> found[i].0 != found[j].0
}

proof fn lemma_found_bound(found: Seq<Found>, sites: Seq<ImportCallSite>)
    requires
        keys_unique(found),
        from_sites(found, sites),
    ensures
        found.len() <= sites.len(),
{
    broadcast use vstd::seq_lib::seq_to_set_is_finite;
    let keys = found.map_values(|f: Found| f.0);
    assert(keys.no_duplicates()) by {
        assert forall|i: int, j: int| 0 <= i < keys.len() && 0 <= j < keys.len() && i != j implies keys[i] != keys[j] by {
            if i < j {
                assert(found[i].0 != found[j].0);
            } else {
                assert(found[j].0 != found[i].0);
            }
        }
    }
    keys.unique_seq_to_set();
    let fs = site_functions(sites);
    fs.lemma_cardinality_of_set();
    assert(keys.to_set().subset_of(fs.to_set())) by {
        assert forall|x: Seq<char>| keys.to_set().contains(x) implies fs.to_set().contains(x) by {
            let i = choose|i: int| 0 <= i < keys.len() && keys[i] == x;
            assert(fs.contains(found[i].0));
        }
    }
    vstd::set_lib::lemma_len_subset(keys.to_set(), fs.to_set());
}

/// Visits the callers `cs` of a layer entry with chain `chain`.
fn visit_exec(
    cs: &Vec<(String, Span)>,
    chain: &Vec<String>,
    found: &mut Vec<(String, Vec<String>, Span)>,
    next: &mut Vec<(String, Vec<String>)>,
    Ghost(sites): Ghost<Seq<ImportCallSite>>,
)
    requires
        keys_unique(found_views(old(found)@)),
        from_sites(found_views(old(found)@), sites),
        from_sites(caller_views(cs@), sites),
    ensures
        (found_views(final(found)@), layer_views(final(next)@)) == visit(
            caller_views(cs@),
            strs(chain@),
            found_views(old(found)@),
            layer_views(old(next)@),
            0,
        ),
        keys_unique(found_views(final(found)@)),
        from_sites(found_views(final(found)@), sites),
        final(found)@.len() - old(found)@.len() == final(next)@.len() - old(next)@.len(),
{
    let ghost cv = caller_views(cs@);
    let ghost ch = strs(chain@);
    let ghost f0 = found@.len();
    let ghost n0 = next@.len();
    let mut i: usize = 0;
    while i < cs.len()
        invariant
            i <= cs@.len(),
            cv == caller_views(cs@),
            ch == strs(chain@),
            from_sites(cv, sites),
            visit(cv, ch, found_views(old(found)@), layer_views(old(next)@), 0) == visit(
                cv,
                ch,
                found_views(found@),
                layer_views(next@),
                i as int,
            ),
            keys_unique(found_views(found@)),
            from_sites(found_views(found@), sites),
            found@.len() >= f0,
            next@.len() >= n0,
            found@.len() - f0 == next@.len() - n0,
        decreases cs.len() - i,
    {
        let c = cs[i].0.as_str();
        let on_chain = contains_name(chain, c);
        let known = found_has_exec(found, c);
        assert(on_chain == ch.contains(cv[i as int].0)) by {
            if has_name(ch, c@) {
                let q = choose|q: int| 0 <= q < ch.len() && ch[q] == c@;
            }
            if ch.contains(c@) {
                let q = choose|q: int| 0 <= q < ch.len() && ch[q] == c@;
            }
        }
        if !on_chain && !known {
            let mut nc: Vec<String> = Vec::new();
            nc.push(cs[i].0.clone());
            assert(strs(nc@) =~= seq![c@] + strs(chain@).take(0));
            let mut k: usize = 0;
            while k < chain.len()
                invariant
                    k <= chain@.len(),
                    nc@.len() == k + 1,
                    strs(nc@) == seq![c@] + strs(chain@).take(k as int),
                decreases chain.len() - k,
            {
                let ghost before = strs(nc@);
                let s = chain[k].clone();
                assert(s@ == strs(chain@)[k as int]);
                nc.push(s);
                assert(strs(nc@) =~= before.push(s@));
                assert(strs(chain@).take(k + 1) =~= strs(chain@).take(k as int).push(strs(chain@)[k as int]));
                assert(strs(nc@) =~= seq![c@] + strs(chain@).take(k + 1));
                k += 1;
            }
            assert(strs(chain@).take(chain@.len() as int) == strs(chain@));
            let nc2 = clone_texts(&nc);
            let ghost fb = found_views(found@);
            let ghost nb = layer_views(next@);
            found.push((cs[i].0.clone(), nc, clone_span(&cs[i].1)));
            next.push((cs[i].0.clone(), nc2));
            proof {
                assert(found_views(found@) =~= fb.push((cv[i as int].0, (seq![cv[i as int].0] + ch, cv[i as int].1))));
                assert(layer_views(next@) =~= nb.push((cv[i as int].0, seq![cv[i as int].0] + ch)));
                assert(keys_unique(found_views(found@))) by {
                    assert forall|x: int, y: int| 0 <= x < y < found_views(found@).len() implies found_views(
                        found@,
                    )[x].0 != found_views(found@)[y].0 by {
                        assert(found_views(found@)[x] == fb[x]);
                        if y < fb.len() {
                            assert(found_views(found@)[y] == fb[y]);
                        } else {
                            assert(!found_has(fb, c@));
                        }
                    }
                }
                assert(from_sites(found_views(found@), sites)) by {
                    assert forall|q: int| 0 <= q < found_views(found@).len() implies site_functions(sites).contains(
                        #[trigger] found_views(found@)[q].0,
                    ) by {
                        if q < fb.len() {
                            assert(found_views(found@)[q] == fb[q]);
                        } else {
                            assert(site_functions(sites).contains(cv[i as int].0));
                        }
                    }
                }
            }
        }
        i += 1;
    }
}

/// The functions that reach `sym`, each with its chain and first call.
fn reaching_exec(sites: &Vec<ImportCallSite>, sources: &Vec<PackageSource>, sym: &String) -> (r: Vec<(String, Vec<String>, Span)>)
    ensures
        found_views(r@) == walk(sites@, sources@, seq![(sym@, seq![sym@])], seq![], (sites@.len() + 1) as nat),
{
    let ghost n = sites@.len();
    let mut found: Vec<(String, Vec<String>, Span)> = Vec::new();
    let mut seed_chain: Vec<String> = Vec::new();
    seed_chain.push(sym.clone());
    assert(strs(seed_chain@) =~= seq![sym@]);
    let mut layer: Vec<(String, Vec<String>)> = Vec::new();
    layer.push((sym.clone(), seed_chain));
    assert(layer_views(layer@)[0] == (sym@, seq![sym@]));
    assert(layer_views(layer@) =~= seq![(sym@, seq![sym@])]);
    assert(found_views(found@) =~= Seq::<Found>::empty());
    let ghost target = walk(sites@, sources@, seq![(sym@, seq![sym@])], seq![], (n + 1) as nat);
    let ghost mut fuel: nat = (n + 1) as nat;
    while layer.len() > 0
        invariant
            n == sites@.len(),
            walk(sites@, sources@, layer_views(layer@), found_views(found@), fuel) == target,
            keys_unique(found_views(found@)),
            from_sites(found_views(found@), sites@),
            layer@.len() > 0 ==> fuel >= 1 + n - found@.len(),
            fuel + found@.len() >= n,
        decreases fuel,
    {
        proof {
            lemma_found_bound(found_views(found@), sites@);
        }
        let ghost lv = layer_views(layer@);
        let ghost fv0 = found_views(found@);
        let ghost f0 = found@.len();
        let mut next: Vec<(String, Vec<String>)> = Vec::new();
        let mut k: usize = 0;
        assert(layer_views(next@) =~= Seq::<(Seq<char>, Seq<Seq<char>>)>::empty());
        while k < layer.len()
            invariant
                k <= layer@.len(),
                lv == layer_views(layer@),
                walk_layer(sites@, sources@, lv, fv0, seq![], 0) == walk_layer(
                    sites@,
                    sources@,
                    lv,
                    found_views(found@),
                    layer_views(next@),
                    k as int,
                ),
                keys_unique(found_views(found@)),
                from_sites(found_views(found@), sites@),
                found@.len() >= f0,
                found@.len() - f0 == next@.len(),
            decreases layer.len() - k,
        {
            let cs = callers_exec(sites, sources, layer[k].0.as_str());
            visit_exec(&cs, &layer[k].1, &mut found, &mut next, Ghost(sites@));
            k += 1;
        }
        proof {
            fuel = (fuel - 1) as nat;
        }
        layer = next;
    }
    found
}

fn insert_found(out: &mut Vec<(String, Vec<String>, Span)>, x: (String, Vec<String>, Span))
    ensures
        found_views(final(out)@) == {
            let t = found_views(old(out)@);
            let xv = (x.0@, (strs(x.1@), x.2));
            t.insert(key_position(t, xv, 0), xv)
        },
{
    let ghost t = found_views(out@);
    let ghost xv = (x.0@, (strs(x.1@), x.2));
    let mut j: usize = 0;
    while j < out.len() && !text_less(x.0.as_str(), out[j].0.as_str())
        invariant
            j <= out@.len(),
            t == found_views(out@),
            key_position(t, xv, 0) == key_position(t, xv, j as int),
            xv == (x.0@, (strs(x.1@), x.2)),
        decreases out.len() - j,
    {
        j += 1;
    }
    assert(key_position(t, xv, j as int) == j);
    out.insert(j, x);
    assert(found_views(out@) =~= t.insert(j as int, xv));
}

fn sort_found(v: Vec<(String, Vec<String>, Span)>) -> (r: Vec<(String, Vec<String>, Span)>)
    ensures
        found_views(r@) == sort_by_key(found_views(v@)),
{
    let ghost fv = found_views(v@);
    let mut out: Vec<(String, Vec<String>, Span)> = Vec::new();
    let mut k: usize = 0;
    while k < v.len()
        invariant
            k <= v@.len(),
            fv == found_views(v@),
            found_views(out@) == sort_by_key(fv.take(k as int)),
        decreases v.len() - k,
    {
        assert(fv.take(k + 1).drop_last() == fv.take(k as int));
        assert(fv.take(k + 1).last() == fv[k as int]);
        let e = (v[k].0.clone(), clone_texts(&v[k].1), clone_span(&v[k].2));
        insert_found(&mut out, e);
        k += 1;
    }
    assert(fv.take(fv.len() as int) == fv);
    out
}

/// The external imports of a package from its resolved call sites: for each
/// external symbol, in ascending order, each function that reaches it, in
/// ascending order, with the shortest call chain from the function down to
/// the symbol (the first found, callers taken by name) and the call that
/// starts it, its file relative to the package.
pub fn package_external_imports(sites: &Vec<ImportCallSite>, sources: &Vec<PackageSource>) -> (r: Vec<PackageAnalysisExternalImport>)
    ensures
        r@.map_values(|i: PackageAnalysisExternalImport| import_view(i)) == external_imports(sites@, sources@),
{
    let syms = external_symbols_exec(sites);
    let ghost sv = strs(syms@);
    let mut out: Vec<PackageAnalysisExternalImport> = Vec::new();
    let mut i: usize = 0;
    while i < syms.len()
        invariant
            i <= syms@.len(),
            sv == strs(syms@),
            sv == external_symbols(sites@),
            out@.map_values(|i: PackageAnalysisExternalImport| import_view(i)) == imports_of(
                sites@,
                sources@,
                sv.take(i as int),
            ),
        decreases syms.len() - i,
    {
        assert(sv.take(i + 1).drop_last() == sv.take(i as int));
        assert(sv.take(i + 1).last() == sv[i as int]);
        let sym = &syms[i];
        let found = reaching_exec(sites, sources, sym);
        let sorted = sort_found(found);
        let ghost reach = found_views(sorted@);
        assert(reach == reaching(sites@, sources@, sv[i as int]));
        let ghost base = out@.map_values(|i: PackageAnalysisExternalImport| import_view(i));
        let mut k: usize = 0;
        while k < sorted.len()
            invariant
                k <= sorted@.len(),
                reach == found_views(sorted@),
                out@.map_values(|i: PackageAnalysisExternalImport| import_view(i)) == base + reach.take(
                    k as int,
                ).map_values(|f: Found| (sym@, f.0, f.1.0, Some(f.1.1))),
            decreases sorted.len() - k,
        {
            let ghost before = out@.map_values(|i: PackageAnalysisExternalImport| import_view(i));
            let imp = PackageAnalysisExternalImport {
                function: sorted[k].0.clone(),
                symbol: sym.clone(),
                call_chain: clone_texts(&sorted[k].1),
                span: Some(clone_span(&sorted[k].2)),
            };
            assert(reach[k as int] == (sorted@[k as int].0@, (strs(sorted@[k as int].1@), sorted@[k as int].2)));
            assert(import_view(imp) == (sym@, reach[k as int].0, reach[k as int].1.0, Some(reach[k as int].1.1)));
            out.push(imp);
            assert(out@.map_values(|i: PackageAnalysisExternalImport| import_view(i)) =~= before.push(import_view(imp)));
            assert(reach.take(k + 1) == reach.take(k as int).push(reach[k as int]));
            assert(out@.map_values(|i: PackageAnalysisExternalImport| import_view(i)) =~= base + reach.take(
                k + 1,
            ).map_values(|f: Found| (sym@, f.0, f.1.0, Some(f.1.1))));
            k += 1;
        }
        assert(reach.take(reach.len() as int) == reach);
        assert(out@.map_values(|i: PackageAnalysisExternalImport| import_view(i)) =~= imports_of(
            sites@,
            sources@,
            sv.take(i + 1),
        ));
        i += 1;
    }
    assert(sv.take(sv.len() as int) == sv);
    out
}

// ---------------------------------------------------------------------------
// Laws
// ---------------------------------------------------------------------------

/// A layer entry: its chain starts at the entry, ends at `sym` and names
/// nothing twice.
pub open spec fn entry_ok(e: (Seq<char>, Seq<Seq<char>>), sym: Seq<char>) -> bool {
    e.1.len() >= 1 && e.1[0] == e.0 && e.1.last() == sym && e.1.no_duplicates()
}

/// A found caller: its chain runs from it, through at least one call, down
/// to `sym`, naming nothing twice.
pub open spec fn found_ok(f: Found, sym: Seq<char>) -> bool {
    f.1.0.len() >= 2 && f.1.0[0] == f.0 && f.1.0.last() == sym && f.1.0.no_duplicates()
}

pub open spec fn all_found_ok(found: Seq<Found>, sym: Seq<char>) -> bool {
    forall|i: int| 0 <= i < found.len() ==> found_ok(#[trigger] found[i], sym)
}

pub open spec fn all_entries_ok(layer: Seq<(Seq<char>, Seq<Seq<char>>)>, sym: Seq<char>) -> bool {
    forall|i: int| 0 <= i < layer.len() ==> entry_ok(#[trigger] layer[i], sym)
}

proof fn lemma_visit_ok(
    cs: Seq<(Seq<char>, Span)>,
    chain: Seq<Seq<char>>,
    found: Seq<Found>,
    next: Seq<(Seq<char>, Seq<Seq<char>>)>,
    i: int,
    sym: Seq<char>,
)
    requires
        chain.len() >= 1,
        chain.last() == sym,
        chain.no_duplicates(),
        all_found_ok(found, sym),
        all_entries_ok(next, sym),
    ensures
        all_found_ok(visit(cs, chain, found, next, i).0, sym),
        all_entries_ok(visit(cs, chain, found, next, i).1, sym),
    decreases cs.len() - i,
{
    if 0 <= i < cs.len() {
        let c = cs[i];
        if !(chain.contains(c.0) || found_has(found, c.0)) {
            let nc = seq![c.0] + chain;
            assert(nc.last() == chain.last());
            assert(nc.no_duplicates()) by {
                assert forall|x: int, y: int| 0 <= x < nc.len() && 0 <= y < nc.len() && x != y implies nc[x] != nc[y] by {
                    if x == 0 && y > 0 {
                        assert(nc[y] == chain[y - 1]);
                    } else if y == 0 && x > 0 {
                        assert(nc[x] == chain[x - 1]);
                    } else if x > 0 && y > 0 {
                        assert(nc[x] == chain[x - 1] && nc[y] == chain[y - 1]);
                    }
                }
            }
            let f2 = found.push((c.0, (nc, c.1)));
            let n2 = next.push((c.0, nc));
            assert(all_found_ok(f2, sym)) by {
                assert forall|q: int| 0 <= q < f2.len() implies found_ok(#[trigger] f2[q], sym) by {
                    if q < found.len() {
                        assert(f2[q] == found[q]);
                    }
                }
            }
            assert(all_entries_ok(n2, sym)) by {
                assert forall|q: int| 0 <= q < n2.len() implies entry_ok(#[trigger] n2[q], sym) by {
                    if q < next.len() {
                        assert(n2[q] == next[q]);
                    }
                }
            }
            lemma_visit_ok(cs, chain, f2, n2, i + 1, sym);
        } else {
            lemma_visit_ok(cs, chain, found, next, i + 1, sym);
        }
    }
}

proof fn lemma_walk_layer_ok(
    sites: Seq<ImportCallSite>,
    sources: Seq<PackageSource>,
    layer: Seq<(Seq<char>, Seq<Seq<char>>)>,
    found: Seq<Found>,
    next: Seq<(Seq<char>, Seq<Seq<char>>)>,
    k: int,
    sym: Seq<char>,
)
    requires
        all_entries_ok(layer, sym),
        all_found_ok(found, sym),
        all_entries_ok(next, sym),
    ensures
        all_found_ok(walk_layer(sites, sources, layer, found, next, k).0, sym),
        all_entries_ok(walk_layer(sites, sources, layer, found, next, k).1, sym),
    decreases layer.len() - k,
{
    if 0 <= k < layer.len() {
        assert(entry_ok(layer[k], sym));
        lemma_visit_ok(callers(sites, sources, layer[k].0), layer[k].1, found, next, 0, sym);
        let (f2, n2) = visit(callers(sites, sources, layer[k].0), layer[k].1, found, next, 0);
        lemma_walk_layer_ok(sites, sources, layer, f2, n2, k + 1, sym);
    }
}

proof fn lemma_walk_ok(
    sites: Seq<ImportCallSite>,
    sources: Seq<PackageSource>,
    layer: Seq<(Seq<char>, Seq<Seq<char>>)>,
    found: Seq<Found>,
    fuel: nat,
    sym: Seq<char>,
)
    requires
        all_entries_ok(layer, sym),
        all_found_ok(found, sym),
    ensures
        all_found_ok(walk(sites, sources, layer, found, fuel), sym),
    decreases fuel,
{
    if fuel > 0 && layer.len() > 0 {
        lemma_walk_layer_ok(sites, sources, layer, found, seq![], 0, sym);
        let (f2, n2) = walk_layer(sites, sources, layer, found, seq![], 0);
        lemma_walk_ok(sites, sources, n2, f2, (fuel - 1) as nat, sym);
    }
}

proof fn lemma_sort_keeps_found_ok(s: Seq<Found>, sym: Seq<char>)
    requires
        all_found_ok(s, sym),
    ensures
        all_found_ok(sort_by_key(s), sym),
    decreases s.len(),
{
    if s.len() > 0 {
        let t = sort_by_key(s.drop_last());
        assert(all_found_ok(s.drop_last(), sym)) by {
            assert forall|q: int| 0 <= q < s.drop_last().len() implies found_ok(#[trigger] s.drop_last()[q], sym) by {
                assert(s.drop_last()[q] == s[q]);
            }
        }
        lemma_sort_keeps_found_ok(s.drop_last(), sym);
        lemma_key_position_bound(t, s.last(), 0);
        let p = key_position(t, s.last(), 0);
        t.insert_ensures(p, s.last());
        assert(found_ok(s.last(), sym));
        assert forall|q: int| 0 <= q < t.insert(p, s.last()).len() implies found_ok(
            #[trigger] t.insert(p, s.last())[q],
            sym,
        ) by {
            if q > p {
                assert(t.insert(p, s.last())[q] == t[q - 1]);
            }
        }
    }
}

/// Every external import's call chain runs from the importing function,
/// through at least one call, down to the imported symbol, and names no
/// function twice.
pub proof fn law_import_chains_run_from_function_to_symbol(sites: Seq<ImportCallSite>, sources: Seq<PackageSource>)
    ensures
        forall|i: int|
            0 <= i < external_imports(sites, sources).len() ==> {
                let e = #[trigger] external_imports(sites, sources)[i];
                &&& e.2.len() >= 2
                &&& e.2[0] == e.1
                &&& e.2.last() == e.0
                &&& e.2.no_duplicates()
            },
{
    lemma_imports_of_ok(sites, sources, external_symbols(sites));
}

proof fn lemma_imports_of_ok(sites: Seq<ImportCallSite>, sources: Seq<PackageSource>, syms: Seq<Seq<char>>)
    ensures
        forall|i: int|
            0 <= i < imports_of(sites, sources, syms).len() ==> {
                let e = #[trigger] imports_of(sites, sources, syms)[i];
                &&& e.2.len() >= 2
                &&& e.2[0] == e.1
                &&& e.2.last() == e.0
                &&& e.2.no_duplicates()
            },
    decreases syms.len(),
{
    if syms.len() > 0 {
        let sym = syms.last();
        lemma_imports_of_ok(sites, sources, syms.drop_last());
        let seed = seq![(sym, seq![sym])];
        assert(all_entries_ok(seed, sym)) by {
            assert(seed[0].1 == seq![sym]);
            assert(seq![sym].no_duplicates());
        }
        assert(all_found_ok(Seq::<Found>::empty(), sym));
        lemma_walk_ok(sites, sources, seed, seq![], (sites.len() + 1) as nat, sym);
        lemma_sort_keeps_found_ok(walk(sites, sources, seed, seq![], (sites.len() + 1) as nat), sym);
        let head = imports_of(sites, sources, syms.drop_last());
        let tail = reaching(sites, sources, sym).map_values(|f: Found| (sym, f.0, f.1.0, Some(f.1.1)));
        assert forall|i: int| 0 <= i < (head + tail).len() implies {
            let e = #[trigger] (head + tail)[i];
            &&& e.2.len() >= 2
            &&& e.2[0] == e.1
            &&& e.2.last() == e.0
            &&& e.2.no_duplicates()
        } by {
            if i < head.len() {
                assert((head + tail)[i] == head[i]);
            } else {
                let f = reaching(sites, sources, sym)[i - head.len()];
                assert((head + tail)[i] == (sym, f.0, f.1.0, Some(f.1.1)));
                assert(found_ok(f, sym));
            }
        }
    }
}

} // verus!
