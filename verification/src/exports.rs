//! What a package exports, built from its collected contracts: one export
//! per type, function, sum type, alias, constant, protocol and protocol
//! implementation, with its semantic facts.
use vstd::prelude::*;
use crate::cargo_manifest::texts;
use crate::chars::str_eq;
use crate::native_scan::{law_ascending_texts_are_determined, sorted_unique_texts, texts_ascending};
use crate::execution::{lemma_text_lt_irreflexive, lemma_text_lt_transitive, text_less, text_lt};
use crate::types::append;
use crate::diag::{Diagnostic, Severity};

verus! {

/// A parameter of a function contract.
pub struct ParamContract {
    pub name: String,
    /// The written effect (`read`, `mut` or `take`), if any.
    pub effect: Option<String>,
    pub ty: String,
}

/// The collected contract of a function.
pub struct FunctionContract {
    pub name: String,
    pub is_async: bool,
    pub params: Vec<ParamContract>,
    /// Whether the contract crosses one of the package's resource types (the
    /// collector's verdict against the resource types in scope).
    pub has_resource_boundary: bool,
    pub returns_fresh: bool,
    /// The parameters the function retains, as the collector's set gives
    /// them: ascending, none twice.
    pub retained_params: Vec<String>,
    pub return_type: Option<String>,
}

/// The collected contract of a type.
pub struct TypeContract {
    pub name: String,
    pub is_resource: bool,
    pub has_handle_field: bool,
    pub has_weak_field: bool,
}

/// The contracts collected from one kind of file (interfaces or sources),
/// each list keyed by name in the collectors' map order; `wf` states that
/// order, and the functions that read a set require it.
pub struct ContractSet {
    pub types: Vec<TypeContract>,
    pub functions: Vec<FunctionContract>,
    pub sum_types: Vec<String>,
    pub type_aliases: Vec<String>,
    pub consts: Vec<String>,
    pub protocol_impls: Vec<String>,
    pub protocols: Vec<String>,
}

impl ContractSet {
    /// The lists as the collectors' ordered maps give them: each strictly
    /// ascending by name, and each function's retained parameters too.
    pub open spec fn wf(self) -> bool {
        &&& texts_ascending(texts(self.consts@))
        &&& texts_ascending(texts(self.protocols@))
        &&& texts_ascending(texts(self.protocol_impls@))
        &&& texts_ascending(texts(self.sum_types@))
        &&& texts_ascending(texts(self.type_aliases@))
        &&& texts_ascending(self.types@.map_values(|t: TypeContract| t.name@))
        &&& texts_ascending(self.functions@.map_values(|f: FunctionContract| f.name@))
        &&& forall|i: int|
            0 <= i < self.functions@.len() ==> texts_ascending(texts(#[trigger] self.functions@[i].retained_params@))
    }
}


/// A parameter as an export shows it.
#[derive(Debug, PartialEq, Eq)]
pub struct PackageAnalysisParameter {
    pub name: String,
    pub effect: String,
    pub ty: String,
    pub retained: bool,
}

/// One export of a package.
#[derive(Debug, PartialEq, Eq)]
pub struct PackageAnalysisExport {
    pub name: String,
    pub kind: String,
    pub function_kind: Option<String>,
    pub parameters: Vec<PackageAnalysisParameter>,
    pub return_type: Option<String>,
    pub retained_params: Vec<String>,
    pub semantic_facts: Vec<String>,
}

pub type ParamView = (Seq<char>, Seq<char>, Seq<char>, bool);

pub type ExportView = (
    Seq<char>,
    Seq<char>,
    Option<Seq<char>>,
    Seq<ParamView>,
    Option<Seq<char>>,
    Seq<Seq<char>>,
    Seq<Seq<char>>,
);

pub open spec fn opt_text(o: Option<String>) -> Option<Seq<char>> {
    match o {
        Some(s) => Some(s@),
        None => None,
    }
}

pub open spec fn param_view(p: PackageAnalysisParameter) -> ParamView {
    (p.name@, p.effect@, p.ty@, p.retained)
}

pub open spec fn export_view(e: PackageAnalysisExport) -> ExportView {
    (
        e.name@,
        e.kind@,
        opt_text(e.function_kind),
        e.parameters@.map_values(|p: PackageAnalysisParameter| param_view(p)),
        opt_text(e.return_type),
        texts(e.retained_params@),
        texts(e.semantic_facts@),
    )
}

pub open spec fn exports_view(v: Seq<PackageAnalysisExport>) -> Seq<ExportView> {
    v.map_values(|e: PackageAnalysisExport| export_view(e))
}

/// The fact a parameter contributes: `mut parameter `x`` or
/// `take parameter `x`` for those effects, nothing otherwise.
pub open spec fn param_fact(p: ParamContract) -> Seq<Seq<char>> {
    match p.effect {
        Some(e) => if e@ == "mut"@ || e@ == "take"@ {
            seq![e@ + " parameter `"@ + p.name@ + "`"@]
        } else {
            Seq::empty()
        },
        None => Seq::empty(),
    }
}

pub open spec fn param_facts(ps: Seq<ParamContract>) -> Seq<Seq<char>>
    decreases ps.len(),
{
    if ps.len() == 0 {
        Seq::empty()
    } else {
        param_facts(ps.drop_last()) + param_fact(ps.last())
    }
}

/// `retains(p)` for each retained parameter.
pub open spec fn retains_facts(rs: Seq<String>) -> Seq<Seq<char>> {
    rs.map_values(|r: String| "retains("@ + r@ + ")"@)
}

/// The facts of a function before they are sorted: an async boundary, the
/// mutating and consuming parameters, a resource boundary, a fresh result,
/// then the retained parameters.
pub open spec fn raw_function_facts(f: FunctionContract) -> Seq<Seq<char>> {
    (if f.is_async {
        seq!["async boundary"@]
    } else {
        Seq::empty()
    }) + param_facts(f.params@) + (if f.has_resource_boundary {
        seq!["resource boundary"@]
    } else {
        Seq::empty()
    }) + (if f.returns_fresh {
        seq!["returns fresh value"@]
    } else {
        Seq::empty()
    }) + retains_facts(f.retained_params@)
}

/// Texts in ascending order, each once, holding exactly the given ones (the
/// list that sorting and deduplicating gives; it is unique).
pub open spec fn sorted_unique(raw: Seq<Seq<char>>) -> Seq<Seq<char>> {
    choose|s: Seq<Seq<char>>| texts_ascending(s) && s.to_set() == raw.to_set()
}

pub open spec fn has_text(v: Seq<String>, t: Seq<char>) -> bool {
    exists|i: int| 0 <= i < v.len() && v[i]@ == t
}

/// A parameter as exported: its effect defaults to `read`, and it is marked
/// retained when the function retains it.
pub open spec fn export_param(f: FunctionContract, p: ParamContract) -> ParamView {
    (
        p.name@,
        match p.effect {
            Some(e) => e@,
            None => "read"@,
        },
        p.ty@,
        has_text(f.retained_params@, p.name@),
    )
}

pub open spec fn function_export(f: FunctionContract) -> ExportView {
    (
        f.name@,
        "function"@,
        Some(if f.is_async { "async"@ } else { "sync"@ }),
        f.params@.map_values(|p: ParamContract| export_param(f, p)),
        opt_text(f.return_type),
        texts(f.retained_params@),
        sorted_unique(raw_function_facts(f)),
    )
}

/// The facts of a type: a resource type, then whether a field is a handle,
/// then whether a field is weak.
pub open spec fn type_facts(t: TypeContract) -> Seq<Seq<char>> {
    (if t.is_resource {
        seq!["resource type"@]
    } else {
        Seq::empty()
    }) + (if t.has_handle_field {
        seq!["handle field"@]
    } else {
        Seq::empty()
    }) + (if t.has_weak_field {
        seq!["weak field"@]
    } else {
        Seq::empty()
    })
}

pub open spec fn type_export(t: TypeContract) -> ExportView {
    (t.name@, "type"@, None, Seq::empty(), None, Seq::empty(), type_facts(t))
}

pub open spec fn named_export(name: String, kind: Seq<char>) -> ExportView {
    (name@, kind, None, Seq::empty(), None, Seq::empty(), Seq::empty())
}

/// The interface contracts when there are any, else the source ones.
pub open spec fn chosen<T>(iface: Seq<T>, src: Seq<T>) -> Seq<T> {
    if iface.len() > 0 {
        iface
    } else {
        src
    }
}

/// A package's exports: for each kind, the interface contracts win when
/// there are any; the kinds come in the order of their names (`const`,
/// `function`, `protocol`, `protocol_impl`, `sum_type`, `type`,
/// `type_alias`), and within a kind the contracts keep their name order.
pub open spec fn exports_spec(iface: ContractSet, src: ContractSet) -> Seq<ExportView> {
    chosen(iface.consts@, src.consts@).map_values(|n: String| named_export(n, "const"@))
        + chosen(iface.functions@, src.functions@).map_values(|f: FunctionContract| function_export(f))
        + chosen(iface.protocols@, src.protocols@).map_values(|n: String| named_export(n, "protocol"@))
        + chosen(iface.protocol_impls@, src.protocol_impls@).map_values(
        |n: String| named_export(n, "protocol_impl"@),
    ) + chosen(iface.sum_types@, src.sum_types@).map_values(|n: String| named_export(n, "sum_type"@))
        + chosen(iface.types@, src.types@).map_values(|t: TypeContract| type_export(t))
        + chosen(iface.type_aliases@, src.type_aliases@).map_values(
        |n: String| named_export(n, "type_alias"@),
    )
}

fn text_of(s: &str) -> (r: String)
    ensures
        r@ == s@,
{
    s.to_string()
}

fn clone_opt(o: &Option<String>) -> (r: Option<String>)
    ensures
        opt_text(r) == opt_text(*o),
{
    match o {
        Some(s) => Some(s.clone()),
        None => None,
    }
}

fn clone_texts(v: &Vec<String>) -> (r: Vec<String>)
    ensures
        texts(r@) == texts(v@),
{
    let mut out: Vec<String> = Vec::new();
    let mut i: usize = 0;
    while i < v.len()
        invariant
            i <= v@.len(),
            texts(out@) == texts(v@.take(i as int)),
        decreases v.len() - i,
    {
        let ghost o = out@;
        let c = v[i].clone();
        assert(c@ == v@[i as int]@);
        out.push(c);
        assert(v@.take(i + 1) == v@.take(i as int).push(v@[i as int]));
        assert(texts(out@) =~= texts(o).push(c@));
        assert(texts(v@.take(i + 1)) =~= texts(v@.take(i as int)).push(v@[i as int]@));
        i += 1;
    }
    assert(v@.take(v@.len() as int) == v@);
    out
}

fn push_named(names: &Vec<String>, kind: &str, out: &mut Vec<PackageAnalysisExport>)
    ensures
        exports_view(final(out)@) == exports_view(old(out)@) + names@.map_values(|n: String| named_export(n, kind@)),
{
    let ghost o = exports_view(out@);
    let mut i: usize = 0;
    while i < names.len()
        invariant
            i <= names@.len(),
            exports_view(out@) == o + names@.take(i as int).map_values(|n: String| named_export(n, kind@)),
        decreases names.len() - i,
    {
        let e = PackageAnalysisExport {
            name: names[i].clone(),
            kind: text_of(kind),
            function_kind: None,
            parameters: Vec::new(),
            return_type: None,
            retained_params: Vec::new(),
            semantic_facts: Vec::new(),
        };
        let ghost before = out@;
        out.push(e);
        proof {
            assert(export_view(e) =~= named_export(names@[i as int], kind@));
            assert(exports_view(out@) =~= exports_view(before).push(export_view(e)));
            assert(names@.take(i + 1).map_values(|n: String| named_export(n, kind@)) =~= names@.take(
                i as int,
            ).map_values(|n: String| named_export(n, kind@)).push(named_export(names@[i as int], kind@)));
        }
        i += 1;
    }
    assert(names@.take(names@.len() as int) == names@);
}

fn push_types(types: &Vec<TypeContract>, out: &mut Vec<PackageAnalysisExport>)
    ensures
        exports_view(final(out)@) == exports_view(old(out)@) + types@.map_values(|t: TypeContract| type_export(t)),
{
    let ghost o = exports_view(out@);
    let mut i: usize = 0;
    while i < types.len()
        invariant
            i <= types@.len(),
            exports_view(out@) == o + types@.take(i as int).map_values(|t: TypeContract| type_export(t)),
        decreases types.len() - i,
    {
        let t = &types[i];
        let mut facts: Vec<String> = Vec::new();
        if t.is_resource {
            facts.push(text_of("resource type"));
        }
        if t.has_handle_field {
            facts.push(text_of("handle field"));
        }
        if t.has_weak_field {
            facts.push(text_of("weak field"));
        }
        assert(texts(facts@) =~= type_facts(*t));
        let e = PackageAnalysisExport {
            name: t.name.clone(),
            kind: text_of("type"),
            function_kind: None,
            parameters: Vec::new(),
            return_type: None,
            retained_params: Vec::new(),
            semantic_facts: facts,
        };
        let ghost before = out@;
        out.push(e);
        proof {
            assert(export_view(e) =~= type_export(types@[i as int]));
            assert(exports_view(out@) =~= exports_view(before).push(export_view(e)));
            assert(types@.take(i + 1).map_values(|t: TypeContract| type_export(t)) =~= types@.take(
                i as int,
            ).map_values(|t: TypeContract| type_export(t)).push(type_export(types@[i as int])));
        }
        i += 1;
    }
    assert(types@.take(types@.len() as int) == types@);
}

fn contains_text(v: &Vec<String>, t: &str) -> (r: bool)
    ensures
        r == has_text(v@, t@),
{
    let mut i: usize = 0;
    while i < v.len()
        invariant
            i <= v@.len(),
            forall|j: int| 0 <= j < i ==> v@[j]@ != t@,
        decreases v.len() - i,
    {
        if str_eq(v[i].as_str(), t) {
            return true;
        }
        i += 1;
    }
    false
}

fn function_facts(f: &FunctionContract) -> (r: Vec<String>)
    ensures
        texts(r@) == raw_function_facts(*f),
{
    let mut facts: Vec<String> = Vec::new();
    if f.is_async {
        facts.push(text_of("async boundary"));
    }
    let ghost head = texts(facts@);
    assert(head =~= (if f.is_async {
        seq!["async boundary"@]
    } else {
        Seq::<Seq<char>>::empty()
    }));
    let mut i: usize = 0;
    while i < f.params.len()
        invariant
            i <= f.params@.len(),
            texts(facts@) == head + param_facts(f.params@.take(i as int)),
        decreases f.params.len() - i,
    {
        let p = &f.params[i];
        let ghost before = texts(facts@);
        match &p.effect {
            Some(e) => {
                if str_eq(e.as_str(), "mut") || str_eq(e.as_str(), "take") {
                    let mut fact = e.clone();
                    append(&mut fact, " parameter `");
                    append(&mut fact, p.name.as_str());
                    append(&mut fact, "`");
                    facts.push(fact);
                }
            },
            None => {},
        }
        proof {
            assert(f.params@.take(i + 1).drop_last() == f.params@.take(i as int));
            assert(texts(facts@) =~= before + param_fact(f.params@[i as int]));
        }
        i += 1;
    }
    assert(f.params@.take(f.params@.len() as int) == f.params@);
    let ghost after_params = texts(facts@);
    if f.has_resource_boundary {
        facts.push(text_of("resource boundary"));
    }
    let ghost after_boundary = texts(facts@);
    assert(after_boundary =~= after_params + (if f.has_resource_boundary {
        seq!["resource boundary"@]
    } else {
        Seq::<Seq<char>>::empty()
    }));
    if f.returns_fresh {
        facts.push(text_of("returns fresh value"));
    }
    let ghost mid = texts(facts@);
    assert(mid =~= after_boundary + (if f.returns_fresh {
        seq!["returns fresh value"@]
    } else {
        Seq::<Seq<char>>::empty()
    }));
    let mut k: usize = 0;
    while k < f.retained_params.len()
        invariant
            k <= f.retained_params@.len(),
            texts(facts@) == mid + retains_facts(f.retained_params@.take(k as int)),
        decreases f.retained_params.len() - k,
    {
        let mut fact = text_of("retains(");
        append(&mut fact, f.retained_params[k].as_str());
        append(&mut fact, ")");
        let ghost before = texts(facts@);
        facts.push(fact);
        proof {
            assert(texts(facts@) =~= before.push(fact@));
            assert(f.retained_params@.take(k + 1) == f.retained_params@.take(k as int).push(
                f.retained_params@[k as int],
            ));
            assert(retains_facts(f.retained_params@.take(k + 1)) =~= retains_facts(
                f.retained_params@.take(k as int),
            ).push(fact@));
            assert(texts(facts@) =~= mid + retains_facts(f.retained_params@.take(k + 1)));
        }
        k += 1;
    }
    assert(f.retained_params@.take(f.retained_params@.len() as int) == f.retained_params@);
    assert(texts(facts@) =~= raw_function_facts(*f));
    facts
}

fn function_export_exec(f: &FunctionContract) -> (r: PackageAnalysisExport)
    ensures
        export_view(r) == function_export(*f),
        texts_ascending(sorted_unique(raw_function_facts(*f))),
{
    let raw = function_facts(f);
    let ghost raw_v = texts(raw@);
    let facts = sorted_unique_texts(raw);
    proof {
        let s = sorted_unique(raw_v);
        assert(texts_ascending(texts(facts@)) && texts(facts@).to_set() == raw_v.to_set());
        law_ascending_texts_are_determined(texts(facts@), s);
    }
    let mut params: Vec<PackageAnalysisParameter> = Vec::new();
    let mut i: usize = 0;
    while i < f.params.len()
        invariant
            i <= f.params@.len(),
            params@.map_values(|p: PackageAnalysisParameter| param_view(p)) == f.params@.take(i as int).map_values(
                |p: ParamContract| export_param(*f, p),
            ),
        decreases f.params.len() - i,
    {
        let p = &f.params[i];
        let effect = match &p.effect {
            Some(e) => e.clone(),
            None => text_of("read"),
        };
        let retained = contains_text(&f.retained_params, p.name.as_str());
        let q = PackageAnalysisParameter { name: p.name.clone(), effect, ty: p.ty.clone(), retained };
        let ghost before = params@;
        params.push(q);
        proof {
            assert(param_view(q) == export_param(*f, f.params@[i as int]));
            assert(params@ == before.push(q));
            assert(before.push(q).map_values(|p: PackageAnalysisParameter| param_view(p)) =~= before.map_values(
                |p: PackageAnalysisParameter| param_view(p),
            ).push(param_view(q)));
            assert(f.params@.take(i + 1) == f.params@.take(i as int).push(f.params@[i as int]));
            assert(params@.map_values(|p: PackageAnalysisParameter| param_view(p)) =~= f.params@.take(
                i + 1,
            ).map_values(|p: ParamContract| export_param(*f, p)));
        }
        i += 1;
    }
    assert(f.params@.take(f.params@.len() as int) == f.params@);
    let kind = if f.is_async {
        text_of("async")
    } else {
        text_of("sync")
    };
    PackageAnalysisExport {
        name: f.name.clone(),
        kind: text_of("function"),
        function_kind: Some(kind),
        parameters: params,
        return_type: clone_opt(&f.return_type),
        retained_params: clone_texts(&f.retained_params),
        semantic_facts: facts,
    }
}

fn push_functions(functions: &Vec<FunctionContract>, out: &mut Vec<PackageAnalysisExport>)
    ensures
        exports_view(final(out)@) == exports_view(old(out)@) + functions@.map_values(
            |f: FunctionContract| function_export(f),
        ),
        forall|j: int| 0 <= j < functions@.len() ==> texts_ascending(sorted_unique(raw_function_facts(#[trigger] functions@[j]))),
{
    let ghost o = exports_view(out@);
    let mut i: usize = 0;
    while i < functions.len()
        invariant
            i <= functions@.len(),
            exports_view(out@) == o + functions@.take(i as int).map_values(|f: FunctionContract| function_export(f)),
            forall|j: int| 0 <= j < i ==> texts_ascending(sorted_unique(raw_function_facts(#[trigger] functions@[j]))),
        decreases functions.len() - i,
    {
        let e = function_export_exec(&functions[i]);
        let ghost before = out@;
        out.push(e);
        proof {
            assert(exports_view(out@) =~= exports_view(before).push(export_view(e)));
            assert(functions@.take(i + 1).map_values(|f: FunctionContract| function_export(f)) =~= functions@.take(
                i as int,
            ).map_values(|f: FunctionContract| function_export(f)).push(function_export(functions@[i as int])));
        }
        i += 1;
    }
    assert(functions@.take(functions@.len() as int) == functions@);
}

fn pick<'a, T>(iface: &'a Vec<T>, src: &'a Vec<T>) -> (r: &'a Vec<T>)
    ensures
        r@ == chosen(iface@, src@),
{
    if iface.len() > 0 {
        iface
    } else {
        src
    }
}

/// The exports of a package, from its interface contracts and its source
/// contracts: strictly ascending by (kind, name), each function export with
/// its retained parameters and semantic facts strictly ascending.
pub fn package_analysis_exports(iface: &ContractSet, src: &ContractSet) -> (r: Vec<PackageAnalysisExport>)
    requires
        iface.wf(),
        src.wf(),
    ensures
        exports_view(r@) == exports_spec(*iface, *src),
        exports_ascending(exports_view(r@)),
        function_lists_ascending(exports_view(r@)),
{
    let mut out: Vec<PackageAnalysisExport> = Vec::new();
    push_named(pick(&iface.consts, &src.consts), "const", &mut out);
    let functions = pick(&iface.functions, &src.functions);
    push_functions(functions, &mut out);
    push_named(pick(&iface.protocols, &src.protocols), "protocol", &mut out);
    push_named(pick(&iface.protocol_impls, &src.protocol_impls), "protocol_impl", &mut out);
    push_named(pick(&iface.sum_types, &src.sum_types), "sum_type", &mut out);
    push_types(pick(&iface.types, &src.types), &mut out);
    push_named(pick(&iface.type_aliases, &src.type_aliases), "type_alias", &mut out);
    assert(exports_view(out@) =~= exports_spec(*iface, *src));
    proof {
        lemma_exports_ordered(*iface, *src);
    }
    out
}

proof fn lemma_kind_order()
    ensures
        text_lt("const"@, "function"@),
        text_lt("function"@, "protocol"@),
        text_lt("protocol"@, "protocol_impl"@),
        text_lt("protocol_impl"@, "sum_type"@),
        text_lt("sum_type"@, "type"@),
        text_lt("type"@, "type_alias"@),
{
    reveal_strlit("const");
    reveal_strlit("function");
    reveal_strlit("protocol");
    reveal_strlit("protocol_impl");
    reveal_strlit("sum_type");
    reveal_strlit("type");
    reveal_strlit("type_alias");
    reveal_with_fuel(text_lt, 10);
}

/// Exports in order of kind, then name.
pub open spec fn export_lt(a: ExportView, b: ExportView) -> bool {
    text_lt(a.1, b.1) || (a.1 == b.1 && text_lt(a.0, b.0))
}

/// Strictly ascending by (kind, name): sorted, and no export twice.
pub open spec fn exports_ascending(v: Seq<ExportView>) -> bool {
    forall|i: int, j: int| 0 <= i < j < v.len() ==> export_lt(#[trigger] v[i], #[trigger] v[j])
}

/// Each function export lists its retained parameters and its semantic
/// facts in ascending order, none twice.
pub open spec fn function_lists_ascending(v: Seq<ExportView>) -> bool {
    forall|i: int|
        0 <= i < v.len() && (#[trigger] v[i]).1 == "function"@ ==> texts_ascending(v[i].5) && texts_ascending(v[i].6)
}

/// Every export has kind `k` and the names ascend.
pub open spec fn kind_block(v: Seq<ExportView>, k: Seq<char>) -> bool {
    &&& forall|i: int| 0 <= i < v.len() ==> (#[trigger] v[i]).1 == k
    &&& forall|i: int, j: int| 0 <= i < j < v.len() ==> text_lt((#[trigger] v[i]).0, (#[trigger] v[j]).0)
}

/// Every export's kind comes before `k`.
pub open spec fn kinds_below(v: Seq<ExportView>, k: Seq<char>) -> bool {
    forall|i: int| 0 <= i < v.len() ==> text_lt((#[trigger] v[i]).1, k)
}

proof fn lemma_append_block(a: Seq<ExportView>, b: Seq<ExportView>, k: Seq<char>, next: Seq<char>)
    requires
        exports_ascending(a),
        kinds_below(a, k),
        kind_block(b, k),
        text_lt(k, next),
    ensures
        exports_ascending(a + b),
        kinds_below(a + b, next),
{
    let c = a + b;
    assert forall|i: int, j: int| 0 <= i < j < c.len() implies export_lt(#[trigger] c[i], #[trigger] c[j]) by {
        if j < a.len() {
            assert(c[i] == a[i] && c[j] == a[j]);
        } else if i < a.len() {
            assert(c[i] == a[i] && c[j] == b[j - a.len()]);
            assert(text_lt(a[i].1, k));
        } else {
            assert(c[i] == b[i - a.len()] && c[j] == b[j - a.len()]);
            assert(text_lt(b[i - a.len()].0, b[j - a.len()].0));
        }
    }
    assert forall|i: int| 0 <= i < c.len() implies text_lt((#[trigger] c[i]).1, next) by {
        if i < a.len() {
            assert(c[i] == a[i]);
            lemma_text_lt_transitive(a[i].1, k, next);
        } else {
            assert(c[i] == b[i - a.len()]);
        }
    }
}

proof fn lemma_named_block(names: Seq<String>, k: Seq<char>)
    requires
        texts_ascending(texts(names)),
    ensures
        kind_block(names.map_values(|n: String| named_export(n, k)), k),
{
    let v = names.map_values(|n: String| named_export(n, k));
    assert forall|i: int, j: int| 0 <= i < j < v.len() implies text_lt((#[trigger] v[i]).0, (#[trigger] v[j]).0) by {
        assert(texts(names)[i] == names[i]@ && texts(names)[j] == names[j]@);
    }
}

proof fn lemma_kind_distinct()
    ensures
        "const"@ != "function"@,
        "protocol"@ != "function"@,
        "protocol_impl"@ != "function"@,
        "sum_type"@ != "function"@,
        "type"@ != "function"@,
        "type_alias"@ != "function"@,
{
    reveal_strlit("const");
    reveal_strlit("function");
    reveal_strlit("protocol");
    reveal_strlit("protocol_impl");
    reveal_strlit("sum_type");
    reveal_strlit("type");
    reveal_strlit("type_alias");
    assert("const"@.len() != "function"@.len());
    assert("protocol"@[0] != "function"@[0]);
    assert("protocol_impl"@.len() != "function"@.len());
    assert("sum_type"@[0] != "function"@[0]);
    assert("type"@.len() != "function"@.len());
    assert("type_alias"@.len() != "function"@.len());
}

proof fn lemma_exports_ordered(iface: ContractSet, src: ContractSet)
    requires
        iface.wf(),
        src.wf(),
        forall|j: int|
            0 <= j < chosen(iface.functions@, src.functions@).len() ==> texts_ascending(
                sorted_unique(raw_function_facts(#[trigger] chosen(iface.functions@, src.functions@)[j])),
            ),
    ensures
        exports_ascending(exports_spec(iface, src)),
        function_lists_ascending(exports_spec(iface, src)),
{
    lemma_kind_order();
    lemma_kind_distinct();
    let cs = chosen(iface.consts@, src.consts@);
    let fs = chosen(iface.functions@, src.functions@);
    let ps = chosen(iface.protocols@, src.protocols@);
    let pis = chosen(iface.protocol_impls@, src.protocol_impls@);
    let ss = chosen(iface.sum_types@, src.sum_types@);
    let ts = chosen(iface.types@, src.types@);
    let als = chosen(iface.type_aliases@, src.type_aliases@);
    let s1 = cs.map_values(|n: String| named_export(n, "const"@));
    let s2 = fs.map_values(|f: FunctionContract| function_export(f));
    let s3 = ps.map_values(|n: String| named_export(n, "protocol"@));
    let s4 = pis.map_values(|n: String| named_export(n, "protocol_impl"@));
    let s5 = ss.map_values(|n: String| named_export(n, "sum_type"@));
    let s6 = ts.map_values(|t: TypeContract| type_export(t));
    let s7 = als.map_values(|n: String| named_export(n, "type_alias"@));
    lemma_named_block(cs, "const"@);
    lemma_named_block(ps, "protocol"@);
    lemma_named_block(pis, "protocol_impl"@);
    lemma_named_block(ss, "sum_type"@);
    lemma_named_block(als, "type_alias"@);
    let fnames = fs.map_values(|f: FunctionContract| f.name@);
    assert(texts_ascending(fnames));
    assert forall|i: int, j: int| 0 <= i < j < s2.len() implies text_lt((#[trigger] s2[i]).0, (#[trigger] s2[j]).0) by {
        assert(fnames[i] == fs[i].name@ && fnames[j] == fs[j].name@);
    }
    assert(kind_block(s2, "function"@));
    let tnames = ts.map_values(|t: TypeContract| t.name@);
    assert(texts_ascending(tnames));
    assert forall|i: int, j: int| 0 <= i < j < s6.len() implies text_lt((#[trigger] s6[i]).0, (#[trigger] s6[j]).0) by {
        assert(tnames[i] == ts[i].name@ && tnames[j] == ts[j].name@);
    }
    assert(kind_block(s6, "type"@));
    let e: Seq<ExportView> = Seq::empty();
    lemma_append_block(e, s1, "const"@, "function"@);
    assert(e + s1 == s1);
    lemma_append_block(s1, s2, "function"@, "protocol"@);
    lemma_append_block(s1 + s2, s3, "protocol"@, "protocol_impl"@);
    lemma_append_block(s1 + s2 + s3, s4, "protocol_impl"@, "sum_type"@);
    lemma_append_block(s1 + s2 + s3 + s4, s5, "sum_type"@, "type"@);
    lemma_append_block(s1 + s2 + s3 + s4 + s5, s6, "type"@, "type_alias"@);
    assert(text_lt("type_alias"@, "type_alias_"@)) by {
        reveal_strlit("type_alias");
        reveal_strlit("type_alias_");
        reveal_with_fuel(text_lt, 12);
    }
    lemma_append_block(s1 + s2 + s3 + s4 + s5 + s6, s7, "type_alias"@, "type_alias_"@);
    let all = exports_spec(iface, src);
    assert(all == s1 + s2 + s3 + s4 + s5 + s6 + s7);
    assert forall|i: int| 0 <= i < all.len() && (#[trigger] all[i]).1 == "function"@ implies texts_ascending(
        all[i].5,
    ) && texts_ascending(all[i].6) by {
        let k1 = s1.len() as int;
        let k2 = k1 + s2.len();
        if i < k1 {
            assert(all[i] == s1[i]);
        } else if i < k2 {
            assert(all[i] == s2[i - k1]);
            let f = fs[i - k1];
            assert(s2[i - k1] == function_export(f));
            assert(texts_ascending(texts(f.retained_params@))) by {
                if iface.functions@.len() > 0 {
                    assert(f == iface.functions@[i - k1]);
                } else {
                    assert(f == src.functions@[i - k1]);
                }
            }
        } else {
            let rest = s3 + s4 + s5 + s6 + s7;
            assert(all == (s1 + s2) + rest);
            assert(all[i] == rest[i - k2]);
            let m = i - k2;
            if m < s3.len() {
                assert(rest[m] == s3[m]);
            } else if m < s3.len() + s4.len() {
                assert(rest[m] == s4[m - s3.len()]);
            } else if m < s3.len() + s4.len() + s5.len() {
                assert(rest[m] == s5[m - s3.len() - s4.len()]);
            } else if m < s3.len() + s4.len() + s5.len() + s6.len() {
                assert(rest[m] == s6[m - s3.len() - s4.len() - s5.len()]);
            } else {
                assert(rest[m] == s7[m - s3.len() - s4.len() - s5.len() - s6.len()]);
            }
        }
    }
}

// ---------------------------------------------------------------------------
// The package summary
// ---------------------------------------------------------------------------

/// The kind of a package file.
#[derive(Clone, Copy, Debug, PartialEq, Eq, Structural)]
pub enum PackageReviewFileKind {
    Interface,
    Source,
    Test,
}

/// The counts a package analysis reports.
#[derive(Clone, Copy, Debug, PartialEq, Eq, Structural)]
pub struct PackageAnalysisSummary {
    pub interface_files: usize,
    pub source_files: usize,
    pub public_types: usize,
    pub public_sum_types: usize,
    pub public_type_aliases: usize,
    pub public_consts: usize,
    pub public_functions: usize,
    pub mutating_apis: usize,
    pub retaining_apis: usize,
    pub resource_apis: usize,
    pub fresh_returning_apis: usize,
    pub async_apis: usize,
    pub await_sites: usize,
    pub diagnostics: usize,
    pub errors: usize,
}

/// How many of `ks` are of kind `k`.
pub open spec fn count_kind(ks: Seq<PackageReviewFileKind>, k: PackageReviewFileKind) -> nat
    decreases ks.len(),
{
    if ks.len() == 0 {
        0
    } else {
        count_kind(ks.drop_last(), k) + if ks.last() == k { 1nat } else { 0nat }
    }
}

/// Whether a parameter of `f` is taken `mut`.
pub open spec fn mutates(f: FunctionContract) -> bool {
    exists|i: int| 0 <= i < f.params@.len() && opt_text(f.params@[i].effect) == Some("mut"@)
}

/// How many of `fs` satisfy `pred`.
pub open spec fn count_functions(fs: Seq<FunctionContract>, pred: spec_fn(FunctionContract) -> bool) -> nat
    decreases fs.len(),
{
    if fs.len() == 0 {
        0
    } else {
        count_functions(fs.drop_last(), pred) + if pred(fs.last()) { 1nat } else { 0nat }
    }
}

/// How many of `ds` are errors.
pub open spec fn count_errors(ds: Seq<Diagnostic>) -> nat
    decreases ds.len(),
{
    if ds.len() == 0 {
        0
    } else {
        count_errors(ds.drop_last()) + if ds.last().severity == Severity::Error { 1nat } else { 0nat }
    }
}

/// The summary of a package whose files have the kinds `kinds`: each count
/// of public items is taken from the interface contracts when there are
/// any of that kind, else from the source contracts.
pub open spec fn summary_spec(
    kinds: Seq<PackageReviewFileKind>,
    iface: ContractSet,
    src: ContractSet,
    await_sites: nat,
    diagnostics: Seq<Diagnostic>,
) -> (nat, nat, nat, nat, nat, nat, nat, nat, nat, nat, nat, nat, nat, nat, nat) {
    let fs = chosen(iface.functions@, src.functions@);
    (
        count_kind(kinds, PackageReviewFileKind::Interface),
        count_kind(kinds, PackageReviewFileKind::Source),
        chosen(iface.types@, src.types@).len(),
        chosen(iface.sum_types@, src.sum_types@).len(),
        chosen(iface.type_aliases@, src.type_aliases@).len(),
        chosen(iface.consts@, src.consts@).len(),
        fs.len(),
        count_functions(fs, |f: FunctionContract| mutates(f)),
        count_functions(fs, |f: FunctionContract| f.retained_params@.len() > 0),
        count_functions(fs, |f: FunctionContract| f.has_resource_boundary),
        count_functions(fs, |f: FunctionContract| f.returns_fresh),
        count_functions(fs, |f: FunctionContract| f.is_async),
        await_sites,
        diagnostics.len(),
        count_errors(diagnostics),
    )
}

pub open spec fn summary_view(s: PackageAnalysisSummary) -> (nat, nat, nat, nat, nat, nat, nat, nat, nat, nat, nat, nat, nat, nat, nat) {
    (
        s.interface_files as nat,
        s.source_files as nat,
        s.public_types as nat,
        s.public_sum_types as nat,
        s.public_type_aliases as nat,
        s.public_consts as nat,
        s.public_functions as nat,
        s.mutating_apis as nat,
        s.retaining_apis as nat,
        s.resource_apis as nat,
        s.fresh_returning_apis as nat,
        s.async_apis as nat,
        s.await_sites as nat,
        s.diagnostics as nat,
        s.errors as nat,
    )
}

proof fn lemma_count_functions_bound(fs: Seq<FunctionContract>, pred: spec_fn(FunctionContract) -> bool)
    ensures
        count_functions(fs, pred) <= fs.len(),
    decreases fs.len(),
{
    if fs.len() > 0 {
        lemma_count_functions_bound(fs.drop_last(), pred);
    }
}

fn count_kind_exec(kinds: &Vec<PackageReviewFileKind>, k: PackageReviewFileKind) -> (r: usize)
    ensures
        r == count_kind(kinds@, k),
{
    let mut n: usize = 0;
    let mut i: usize = 0;
    while i < kinds.len()
        invariant
            i <= kinds@.len(),
            n == count_kind(kinds@.take(i as int), k),
            n <= i,
        decreases kinds.len() - i,
    {
        assert(kinds@.take(i + 1).drop_last() == kinds@.take(i as int));
        if kinds[i] == k {
            n += 1;
        }
        i += 1;
    }
    assert(kinds@.take(kinds@.len() as int) == kinds@);
    n
}

fn mutates_exec(f: &FunctionContract) -> (r: bool)
    ensures
        r == mutates(*f),
{
    let mut i: usize = 0;
    while i < f.params.len()
        invariant
            i <= f.params@.len(),
            forall|j: int| 0 <= j < i ==> opt_text(#[trigger] f.params@[j].effect) != Some("mut"@),
        decreases f.params.len() - i,
    {
        match &f.params[i].effect {
            Some(e) => {
                if str_eq(e.as_str(), "mut") {
                    assert(opt_text(f.params@[i as int].effect) == Some("mut"@));
                    return true;
                }
            },
            None => {},
        }
        i += 1;
    }
    false
}

/// The counts over `fs`: mutating, retaining, resource, fresh-returning and
/// async functions.
fn function_counts(fs: &Vec<FunctionContract>) -> (r: (usize, usize, usize, usize, usize))
    ensures
        r.0 == count_functions(fs@, |f: FunctionContract| mutates(f)),
        r.1 == count_functions(fs@, |f: FunctionContract| f.retained_params@.len() > 0),
        r.2 == count_functions(fs@, |f: FunctionContract| f.has_resource_boundary),
        r.3 == count_functions(fs@, |f: FunctionContract| f.returns_fresh),
        r.4 == count_functions(fs@, |f: FunctionContract| f.is_async),
{
    let ghost p0 = |f: FunctionContract| mutates(f);
    let ghost p1 = |f: FunctionContract| f.retained_params@.len() > 0;
    let ghost p2 = |f: FunctionContract| f.has_resource_boundary;
    let ghost p3 = |f: FunctionContract| f.returns_fresh;
    let ghost p4 = |f: FunctionContract| f.is_async;
    let mut c: (usize, usize, usize, usize, usize) = (0, 0, 0, 0, 0);
    let mut i: usize = 0;
    while i < fs.len()
        invariant
            i <= fs@.len(),
            c.0 == count_functions(fs@.take(i as int), p0),
            c.1 == count_functions(fs@.take(i as int), p1),
            c.2 == count_functions(fs@.take(i as int), p2),
            c.3 == count_functions(fs@.take(i as int), p3),
            c.4 == count_functions(fs@.take(i as int), p4),
            p0 == (|f: FunctionContract| mutates(f)),
            p1 == (|f: FunctionContract| f.retained_params@.len() > 0),
            p2 == (|f: FunctionContract| f.has_resource_boundary),
            p3 == (|f: FunctionContract| f.returns_fresh),
            p4 == (|f: FunctionContract| f.is_async),
        decreases fs.len() - i,
    {
        proof {
            assert(fs@.take(i + 1).drop_last() == fs@.take(i as int));
            lemma_count_functions_bound(fs@.take(i as int), p0);
            lemma_count_functions_bound(fs@.take(i as int), p1);
            lemma_count_functions_bound(fs@.take(i as int), p2);
            lemma_count_functions_bound(fs@.take(i as int), p3);
            lemma_count_functions_bound(fs@.take(i as int), p4);
        }
        let f = &fs[i];
        if mutates_exec(f) {
            c.0 = c.0 + 1;
        }
        if f.retained_params.len() > 0 {
            c.1 = c.1 + 1;
        }
        if f.has_resource_boundary {
            c.2 = c.2 + 1;
        }
        if f.returns_fresh {
            c.3 = c.3 + 1;
        }
        if f.is_async {
            c.4 = c.4 + 1;
        }
        i += 1;
    }
    assert(fs@.take(fs@.len() as int) == fs@);
    c
}

fn count_errors_exec(ds: &Vec<Diagnostic>) -> (r: usize)
    ensures
        r == count_errors(ds@),
{
    let mut n: usize = 0;
    let mut i: usize = 0;
    while i < ds.len()
        invariant
            i <= ds@.len(),
            n == count_errors(ds@.take(i as int)),
            n <= i,
        decreases ds.len() - i,
    {
        assert(ds@.take(i + 1).drop_last() == ds@.take(i as int));
        match ds[i].severity {
            Severity::Error => {
                n += 1;
            },
            Severity::Warning => {},
        }
        i += 1;
    }
    assert(ds@.take(ds@.len() as int) == ds@);
    n
}

/// The summary of a package analysis: the files of each kind, the public
/// items (from the interface contracts when there are any of a kind, else
/// from the source contracts), the functions that take a parameter `mut`,
/// retain a parameter, cross a resource boundary, return a fresh value or
/// are async, the await sites found, and the diagnostics and errors.
pub fn package_analysis_summary(
    kinds: &Vec<PackageReviewFileKind>,
    iface: &ContractSet,
    src: &ContractSet,
    await_sites: usize,
    diagnostics: &Vec<Diagnostic>,
) -> (r: PackageAnalysisSummary)
    ensures
        summary_view(r) == summary_spec(kinds@, *iface, *src, await_sites as nat, diagnostics@),
{
    let functions = pick(&iface.functions, &src.functions);
    let counts = function_counts(functions);
    PackageAnalysisSummary {
        interface_files: count_kind_exec(kinds, PackageReviewFileKind::Interface),
        source_files: count_kind_exec(kinds, PackageReviewFileKind::Source),
        public_types: pick(&iface.types, &src.types).len(),
        public_sum_types: pick(&iface.sum_types, &src.sum_types).len(),
        public_type_aliases: pick(&iface.type_aliases, &src.type_aliases).len(),
        public_consts: pick(&iface.consts, &src.consts).len(),
        public_functions: functions.len(),
        mutating_apis: counts.0,
        retaining_apis: counts.1,
        resource_apis: counts.2,
        fresh_returning_apis: counts.3,
        async_apis: counts.4,
        await_sites,
        diagnostics: diagnostics.len(),
        errors: count_errors_exec(diagnostics),
    }
}

// ---------------------------------------------------------------------------
// Assembling the export list
// ---------------------------------------------------------------------------

/// An export the interface diagnostics report for a declaration that failed
/// to check, with the reasons as its semantic facts.
pub struct InterfaceDiagnosticExport {
    pub name: String,
    pub kind: String,
    pub function_kind: Option<String>,
    pub retained_params: Vec<String>,
    pub reasons: Vec<String>,
}

pub open spec fn diagnostic_export_view(e: InterfaceDiagnosticExport) -> ExportView {
    (e.name@, e.kind@, opt_text(e.function_kind), seq![], None, texts(e.retained_params@), texts(e.reasons@))
}

pub open spec fn diagnostic_exports_view(v: Seq<InterfaceDiagnosticExport>) -> Seq<ExportView> {
    v.map_values(|d: InterfaceDiagnosticExport| diagnostic_export_view(d))
}

/// Where `x` goes among `s` from position `j` on: before the first export
/// that comes after it in (kind, name) order.
pub open spec fn insert_position(s: Seq<ExportView>, x: ExportView, j: int) -> int
    decreases s.len() - j,
{
    if j < 0 || j >= s.len() {
        s.len() as int
    } else if export_lt(x, s[j]) {
        j
    } else {
        insert_position(s, x, j + 1)
    }
}

/// `s` sorted by (kind, name), exports with equal keys in their original
/// order: each export is placed after every earlier one that does not come
/// after it.
pub open spec fn sort_exports(s: Seq<ExportView>) -> Seq<ExportView>
    decreases s.len(),
{
    if s.len() == 0 {
        seq![]
    } else {
        let t = sort_exports(s.drop_last());
        t.insert(insert_position(t, s.last(), 0), s.last())
    }
}

/// In (kind, name) order, equal keys allowed.
pub open spec fn exports_sorted(v: Seq<ExportView>) -> bool {
    forall|i: int, j: int| 0 <= i < j < v.len() ==> !export_lt(#[trigger] v[j], #[trigger] v[i])
}

proof fn lemma_export_lt_transitive(a: ExportView, b: ExportView, c: ExportView)
    requires
        export_lt(a, b),
        export_lt(b, c),
    ensures
        export_lt(a, c),
{
    if text_lt(a.1, b.1) && text_lt(b.1, c.1) {
        lemma_text_lt_transitive(a.1, b.1, c.1);
    } else if a.1 == b.1 && b.1 == c.1 {
        lemma_text_lt_transitive(a.0, b.0, c.0);
    }
}

proof fn lemma_insert_position(s: Seq<ExportView>, x: ExportView, j: int)
    requires
        0 <= j <= s.len(),
    ensures
        j <= insert_position(s, x, j) <= s.len(),
        forall|k: int| j <= k < insert_position(s, x, j) ==> !export_lt(x, #[trigger] s[k]),
        insert_position(s, x, j) < s.len() ==> export_lt(x, s[insert_position(s, x, j)]),
    decreases s.len() - j,
{
    if j < s.len() && !export_lt(x, s[j]) {
        lemma_insert_position(s, x, j + 1);
    }
}

proof fn lemma_export_lt_irreflexive(a: ExportView)
    ensures
        !export_lt(a, a),
{
    lemma_text_lt_irreflexive(a.1);
    lemma_text_lt_irreflexive(a.0);
}

proof fn lemma_insert_keeps_sorted(s: Seq<ExportView>, x: ExportView)
    requires
        exports_sorted(s),
    ensures
        exports_sorted(s.insert(insert_position(s, x, 0), x)),
        s.insert(insert_position(s, x, 0), x).len() == s.len() + 1,
{
    lemma_insert_position(s, x, 0);
    let p = insert_position(s, x, 0);
    let r = s.insert(p, x);
    s.insert_ensures(p, x);
    assert forall|i: int, j: int| 0 <= i < j < r.len() implies !export_lt(#[trigger] r[j], #[trigger] r[i]) by {
        if j < p {
            assert(r[i] == s[i] && r[j] == s[j]);
            assert(!export_lt(s[j], s[i]));
        } else if j == p {
            assert(r[i] == s[i] && r[j] == x);
            assert(!export_lt(x, s[i]));
        } else {
            assert(r[j] == s[j - 1]);
            if i < p {
                assert(r[i] == s[i]);
                assert(!export_lt(s[j - 1], s[i]));
            } else if i == p {
                assert(r[i] == x);
                assert(export_lt(x, s[p]));
                if export_lt(s[j - 1], x) {
                    lemma_export_lt_transitive(s[j - 1], x, s[p]);
                    if j - 1 == p {
                        lemma_export_lt_irreflexive(s[p]);
                    } else {
                        assert(!export_lt(s[j - 1], s[p]));
                    }
                }
            } else {
                assert(r[i] == s[i - 1]);
                assert(!export_lt(s[j - 1], s[i - 1]));
            }
        }
    }
}

/// A stably sorted export list is in (kind, name) order and keeps every
/// export.
pub proof fn law_sorted_exports_are_ordered(s: Seq<ExportView>)
    ensures
        exports_sorted(sort_exports(s)),
        sort_exports(s).len() == s.len(),
    decreases s.len(),
{
    if s.len() > 0 {
        law_sorted_exports_are_ordered(s.drop_last());
        lemma_insert_keeps_sorted(sort_exports(s.drop_last()), s.last());
    }
}

fn export_less(a: &PackageAnalysisExport, b: &PackageAnalysisExport) -> (r: bool)
    ensures
        r == export_lt(export_view(*a), export_view(*b)),
{
    text_less(a.kind.as_str(), b.kind.as_str()) || (str_eq(a.kind.as_str(), b.kind.as_str()) && text_less(
        a.name.as_str(),
        b.name.as_str(),
    ))
}

fn insert_sorted(out: &mut Vec<PackageAnalysisExport>, x: PackageAnalysisExport)
    ensures
        exports_view(final(out)@) == {
            let t = exports_view(old(out)@);
            t.insert(insert_position(t, export_view(x), 0), export_view(x))
        },
{
    let ghost t = exports_view(out@);
    let ghost xv = export_view(x);
    let mut j: usize = 0;
    while j < out.len() && !export_less(&x, &out[j])
        invariant
            j <= out@.len(),
            t == exports_view(out@),
            insert_position(t, xv, 0) == insert_position(t, xv, j as int),
            xv == export_view(x),
        decreases out.len() - j,
    {
        j += 1;
    }
    assert(insert_position(t, xv, j as int) == j);
    let ghost before = out@;
    out.insert(j, x);
    assert(exports_view(out@) =~= t.insert(j as int, xv));
}

fn diagnostic_export(d: InterfaceDiagnosticExport) -> (r: PackageAnalysisExport)
    ensures
        export_view(r) == diagnostic_export_view(d),
{
    let r = PackageAnalysisExport {
        name: d.name,
        kind: d.kind,
        function_kind: d.function_kind,
        parameters: Vec::new(),
        return_type: None,
        retained_params: d.retained_params,
        semantic_facts: d.reasons,
    };
    assert(r.parameters@.map_values(|p: PackageAnalysisParameter| param_view(p)) =~= seq![]);
    r
}

/// A package's export list: `exports` followed by the interface diagnostic
/// exports, stably sorted by (kind, name).
pub fn assemble_package_exports(
    exports: Vec<PackageAnalysisExport>,
    diagnostic_exports: Vec<InterfaceDiagnosticExport>,
) -> (r: Vec<PackageAnalysisExport>)
    ensures
        exports_view(r@) == sort_exports(
            exports_view(exports@) + diagnostic_exports_view(diagnostic_exports@),
        ),
        exports_sorted(exports_view(r@)),
{
    let ghost all = exports_view(exports@) + diagnostic_exports_view(diagnostic_exports@);
    let total = exports.len();
    let ghost n0 = exports@.len();
    assert(n0 == total);
    let mut out: Vec<PackageAnalysisExport> = Vec::new();
    let mut rest = exports;
    let mut taken: usize = 0;
    let ghost ex = exports_view(rest@);
    while rest.len() > 0
        invariant
            taken + rest@.len() == n0,
            n0 <= usize::MAX,
            ex.len() == n0,
            all == ex + diagnostic_exports_view(diagnostic_exports@),
            exports_view(rest@) == ex.skip(taken as int),
            exports_view(out@) == sort_exports(all.take(taken as int)),
        decreases rest.len(),
    {
        let ghost before = rest@;
        let x = rest.remove(0);
        proof {
            before.remove_ensures(0);
            assert(export_view(x) == exports_view(before)[0]);
            assert(export_view(x) == all[taken as int]);
            assert(all.take(taken + 1).drop_last() == all.take(taken as int));
            assert forall|q: int| 0 <= q < rest@.len() implies #[trigger] exports_view(rest@)[q] == ex.skip(taken + 1)[q] by {
                assert(rest@[q] == before[q + 1]);
                assert(exports_view(before)[q + 1] == ex.skip(taken as int)[q + 1]);
            }
            assert(exports_view(rest@) =~= ex.skip(taken + 1));
        }
        insert_sorted(&mut out, x);
        taken += 1;
    }
    let mut diags = diagnostic_exports;
    let ghost dv = diagnostic_exports_view(diags@);
    let dtotal = diags.len();
    let ghost m0 = diags@.len();
    assert(m0 == dtotal);
    let mut k: usize = 0;
    while diags.len() > 0
        invariant
            k + diags@.len() == m0,
            m0 <= usize::MAX,
            dv.len() == m0,
            all == ex + dv,
            ex.len() == n0,
            diagnostic_exports_view(diags@) == dv.skip(k as int),
            exports_view(out@) == sort_exports(all.take(n0 + k)),
        decreases diags.len(),
    {
        let ghost before = diags@;
        let d = diags.remove(0);
        proof {
            before.remove_ensures(0);
            assert(diagnostic_export_view(d) == diagnostic_exports_view(before)[0]);
            assert forall|q: int| 0 <= q < diags@.len() implies #[trigger] diagnostic_exports_view(diags@)[q] == dv.skip(k + 1)[q] by {
                assert(diags@[q] == before[q + 1]);
                assert(diagnostic_exports_view(before)[q + 1] == dv.skip(
                    k as int,
                )[q + 1]);
            }
            assert(diagnostic_exports_view(diags@) =~= dv.skip(k + 1));
        }
        let x = diagnostic_export(d);
        proof {
            assert(export_view(x) == all[n0 + k]);
            assert(all.take(n0 + k + 1).drop_last() == all.take(n0 + k));
        }
        insert_sorted(&mut out, x);
        k += 1;
    }
    assert(all.take(all.len() as int) == all);
    proof {
        law_sorted_exports_are_ordered(all);
    }
    out
}

proof fn lemma_count_errors_bound(ds: Seq<Diagnostic>)
    ensures
        count_errors(ds) <= ds.len(),
    decreases ds.len(),
{
    if ds.len() > 0 {
        lemma_count_errors_bound(ds.drop_last());
    }
}

/// Every kind of API the summary counts is among the public functions, and
/// the errors are among the diagnostics.
pub proof fn law_summary_counts_within_totals(
    kinds: Seq<PackageReviewFileKind>,
    iface: ContractSet,
    src: ContractSet,
    await_sites: nat,
    diagnostics: Seq<Diagnostic>,
)
    ensures
        ({
            let s = summary_spec(kinds, iface, src, await_sites, diagnostics);
            &&& s.7 <= s.6
            &&& s.8 <= s.6
            &&& s.9 <= s.6
            &&& s.10 <= s.6
            &&& s.11 <= s.6
            &&& s.14 <= s.13
        }),
{
    let fs = chosen(iface.functions@, src.functions@);
    lemma_count_functions_bound(fs, |f: FunctionContract| mutates(f));
    lemma_count_functions_bound(fs, |f: FunctionContract| f.retained_params@.len() > 0);
    lemma_count_functions_bound(fs, |f: FunctionContract| f.has_resource_boundary);
    lemma_count_functions_bound(fs, |f: FunctionContract| f.returns_fresh);
    lemma_count_functions_bound(fs, |f: FunctionContract| f.is_async);
    lemma_count_errors_bound(diagnostics);
}

} // verus!
