//! The analysis entry points: which programs an analysis reads, which alias
//! table it judges types under, and which checks it runs.
use vstd::prelude::*;
use crate::aliases::{
    alias_cycle_diagnostics, cycle_diags, program_aliases, programs_aliases, table_view, AliasTable,
    AliasView,
};
use crate::ast::{Item, Program};
use crate::derives::{
    check_items_derives, derive_violations, items_violations, local_types, local_view, violation_diags,
    LocalTypes, LocalView,
};
use crate::declarations::{
    check_lowered_name_conflicts, empty_scan, lemma_lower_scan_add, lower_scan_from, lowered_name_diags,
    LoweredNameScan,
};
use crate::diag::{dviews, extend_diagnostics, any_error, has_error, lemma_dviews_add, DiagView, Diagnostic};
use crate::syntax::{
    check_unsupported_syntax, finding_diags, items_issues, syntax_diagnostics, SyntaxFinding,
};

verus! {

/// Which interfaces an analysis reads and which checks it runs. Every full
/// flavor also expands the aliases of the builtin catalogs (core and
/// standard packages), which the caller hands over as parsed programs.
#[derive(Clone, Copy, Debug, PartialEq, Eq, Structural)]
pub enum AnalysisFlavor {
    /// Every check; the builtin catalogs are the interfaces read.
    FullWithStandardPackages,
    /// Every check; the supplied interfaces are read.
    FullWithBuiltinInterfaces,
    /// Every check; the supplied interfaces are read.
    FullWithoutBuiltinInterfaces,
    /// The supported-syntax check alone, with no aliases.
    SyntaxOnly,
}

/// The items of several programs merged into one, program after program.
pub open spec fn merged_items(ps: Seq<Program>) -> Seq<Item>
    decreases ps.len(),
{
    if ps.len() == 0 {
        seq![]
    } else {
        merged_items(ps.drop_last()) + ps.last().items@
    }
}

/// The aliases an analysis expands: none for the syntax check; otherwise
/// the builtin catalogs' (`cats`), then the supplied interfaces' (unless the
/// flavor reads only the builtin catalogs), then the merged sources'.
pub open spec fn alias_scope(
    flavor: AnalysisFlavor,
    cats: Seq<Program>,
    sources: Seq<Program>,
    ifs: Seq<Program>,
) -> Seq<AliasView> {
    match flavor {
        AnalysisFlavor::SyntaxOnly => seq![],
        AnalysisFlavor::FullWithStandardPackages => programs_aliases(cats) + program_aliases(merged_items(sources)),
        _ => programs_aliases(cats) + programs_aliases(ifs) + program_aliases(merged_items(sources)),
    }
}

/// The report of the supported-syntax check.
pub open spec fn syntax_report(tab: Seq<AliasView>, items: Seq<Item>) -> Seq<DiagView> {
    finding_diags(items_issues(tab, items))
}

/// The report of a full analysis: unsupported syntax, then fields that
/// cannot support their type's derives, then invalid or conflicting
/// backend-name pins, then one error per cyclic alias.
pub open spec fn full_report(tab: Seq<AliasView>, items: Seq<Item>) -> Seq<DiagView> {
    syntax_report(tab, items) + violation_diags(derive_violations(items)) + lowered_name_diags(items)
        + cycle_diags(tab, tab.len() as int)
}

/// What an analysis of `sources` with the builtin catalogs `cats` and the
/// interfaces `ifs` reports.
pub open spec fn analysis(
    flavor: AnalysisFlavor,
    cats: Seq<Program>,
    sources: Seq<Program>,
    ifs: Seq<Program>,
) -> Seq<DiagView> {
    let items = merged_items(sources);
    let tab = alias_scope(flavor, cats, sources, ifs);
    if flavor == AnalysisFlavor::SyntaxOnly {
        syntax_report(tab, items)
    } else {
        full_report(tab, items)
    }
}

// ---------------------------------------------------------------------------
// Merging lemmas
// ---------------------------------------------------------------------------

pub proof fn lemma_program_aliases_add(a: Seq<Item>, b: Seq<Item>)
    ensures
        program_aliases(a + b) == program_aliases(a) + program_aliases(b),
    decreases b.len(),
{
    if b.len() == 0 {
        assert(a + b == a);
        assert(program_aliases(a) + program_aliases(b) =~= program_aliases(a));
    } else {
        assert((a + b).drop_last() == a + b.drop_last());
        assert((a + b).last() == b.last());
        lemma_program_aliases_add(a, b.drop_last());
        assert(program_aliases(a + b) =~= program_aliases(a) + program_aliases(b));
    }
}

pub proof fn lemma_items_issues_add(tab: Seq<AliasView>, a: Seq<Item>, b: Seq<Item>)
    ensures
        items_issues(tab, a + b) == items_issues(tab, a) + items_issues(tab, b),
    decreases b.len(),
{
    if b.len() == 0 {
        assert(a + b == a);
        assert(items_issues(tab, a) + items_issues(tab, b) =~= items_issues(tab, a));
    } else {
        assert((a + b).drop_last() == a + b.drop_last());
        assert((a + b).last() == b.last());
        lemma_items_issues_add(tab, a, b.drop_last());
        assert(items_issues(tab, a + b) =~= items_issues(tab, a) + items_issues(tab, b));
    }
}

pub proof fn lemma_items_violations_add(a: Seq<Item>, b: Seq<Item>, loc: Seq<LocalView>)
    ensures
        items_violations(a + b, loc) == items_violations(a, loc) + items_violations(b, loc),
    decreases b.len(),
{
    if b.len() == 0 {
        assert(a + b == a);
        assert(items_violations(a, loc) + items_violations(b, loc) =~= items_violations(a, loc));
    } else {
        assert((a + b).drop_last() == a + b.drop_last());
        assert((a + b).last() == b.last());
        lemma_items_violations_add(a, b.drop_last(), loc);
        assert(items_violations(a + b, loc) =~= items_violations(a, loc) + items_violations(b, loc));
    }
}

pub proof fn lemma_local_types_add(a: Seq<Item>, b: Seq<Item>)
    ensures
        local_types(a + b) == local_types(a) + local_types(b),
    decreases b.len(),
{
    if b.len() == 0 {
        assert(a + b == a);
        assert(local_types(a) + local_types(b) =~= local_types(a));
    } else {
        assert((a + b).drop_last() == a + b.drop_last());
        assert((a + b).last() == b.last());
        lemma_local_types_add(a, b.drop_last());
        assert(local_types(a + b) =~= local_types(a) + local_types(b));
    }
}

pub proof fn lemma_merged_single(p: Program)
    ensures
        merged_items(seq![p]) == p.items@,
{
    let s = seq![p];
    assert(s.drop_last() =~= Seq::<Program>::empty());
    assert(s.last() == p);
    assert(merged_items(Seq::<Program>::empty()) == Seq::<Item>::empty());
    assert(merged_items(s) == merged_items(s.drop_last()) + s.last().items@);
    assert(Seq::<Item>::empty() + p.items@ =~= p.items@);
}

pub proof fn lemma_programs_aliases_merged(ps: Seq<Program>)
    ensures
        programs_aliases(ps) == program_aliases(merged_items(ps)),
    decreases ps.len(),
{
    if ps.len() > 0 {
        lemma_programs_aliases_merged(ps.drop_last());
        lemma_program_aliases_add(merged_items(ps.drop_last()), ps.last().items@);
    }
}

// ---------------------------------------------------------------------------
// Preparation
// ---------------------------------------------------------------------------

/// What an analysis has settled before its checks run.
pub struct PreparedAnalysis {
    pub flavor: AnalysisFlavor,
    /// How many interface programs the analysis reads.
    pub interface_programs: usize,
    /// The aliases in scope, in the order they were declared.
    pub type_aliases: AliasTable,
}

fn add_programs(t: &mut AliasTable, ps: &Vec<Program>)
    ensures
        table_view(*final(t)) == table_view(*old(t)) + programs_aliases(ps@),
{
    let ghost t0 = table_view(*t);
    let mut i: usize = 0;
    while i < ps.len()
        invariant
            i <= ps@.len(),
            table_view(*t) == t0 + programs_aliases(ps@.take(i as int)),
        decreases ps.len() - i,
    {
        t.add_program(&ps[i]);
        assert(ps@.take(i + 1).drop_last() == ps@.take(i as int));
        assert(table_view(*t) =~= t0 + programs_aliases(ps@.take(i + 1)));
        i += 1;
    }
    assert(ps@.take(ps@.len() as int) == ps@);
}

/// Settles the alias table and the interface programs an analysis of
/// `sources` reads under `flavor`, given the parsed builtin catalogs.
pub fn prepare_analysis(
    flavor: AnalysisFlavor,
    catalogs: &Vec<Program>,
    sources: &Vec<Program>,
    interfaces: &Vec<Program>,
) -> (r: PreparedAnalysis)
    ensures
        r.flavor == flavor,
        table_view(r.type_aliases) == alias_scope(flavor, catalogs@, sources@, interfaces@),
        r.interface_programs == (match flavor {
            AnalysisFlavor::FullWithStandardPackages => catalogs@.len(),
            AnalysisFlavor::FullWithBuiltinInterfaces => interfaces@.len(),
            AnalysisFlavor::FullWithoutBuiltinInterfaces => interfaces@.len(),
            AnalysisFlavor::SyntaxOnly => 0,
        }),
{
    let mut t = AliasTable::new();
    if flavor == AnalysisFlavor::SyntaxOnly {
        return PreparedAnalysis { flavor, interface_programs: 0, type_aliases: t };
    }
    add_programs(&mut t, catalogs);
    let count = if flavor == AnalysisFlavor::FullWithStandardPackages {
        catalogs.len()
    } else {
        add_programs(&mut t, interfaces);
        interfaces.len()
    };
    add_programs(&mut t, sources);
    proof {
        lemma_programs_aliases_merged(sources@);
        assert(table_view(t) =~= alias_scope(flavor, catalogs@, sources@, interfaces@));
    }
    PreparedAnalysis { flavor, interface_programs: count, type_aliases: t }
}

/// Settles the analysis of one source program.
pub fn prepare_single_analysis(
    flavor: AnalysisFlavor,
    catalogs: &Vec<Program>,
    source: &Program,
    interfaces: &Vec<Program>,
) -> (r: PreparedAnalysis)
    ensures
        r.flavor == flavor,
        table_view(r.type_aliases) == alias_scope(flavor, catalogs@, seq![*source], interfaces@),
        r.interface_programs == (match flavor {
            AnalysisFlavor::FullWithStandardPackages => catalogs@.len(),
            AnalysisFlavor::FullWithBuiltinInterfaces => interfaces@.len(),
            AnalysisFlavor::FullWithoutBuiltinInterfaces => interfaces@.len(),
            AnalysisFlavor::SyntaxOnly => 0,
        }),
{
    let mut t = AliasTable::new();
    if flavor == AnalysisFlavor::SyntaxOnly {
        return PreparedAnalysis { flavor, interface_programs: 0, type_aliases: t };
    }
    add_programs(&mut t, catalogs);
    let count = if flavor == AnalysisFlavor::FullWithStandardPackages {
        catalogs.len()
    } else {
        add_programs(&mut t, interfaces);
        interfaces.len()
    };
    let ghost before = table_view(t);
    t.add_program(source);
    proof {
        lemma_merged_single(*source);
        assert(table_view(t) =~= alias_scope(flavor, catalogs@, seq![*source], interfaces@));
    }
    PreparedAnalysis { flavor, interface_programs: count, type_aliases: t }
}

// ---------------------------------------------------------------------------
// Running the checks
// ---------------------------------------------------------------------------

/// The diagnostics of an analysis.
pub struct AnalysisResult {
    pub diagnostics: Vec<Diagnostic>,
}

/// A program that passed analysis, with the warnings it drew.
pub struct ValidatedProgram {
    pub warnings: Vec<Diagnostic>,
}

impl AnalysisResult {
    pub fn diagnostics(&self) -> (r: &Vec<Diagnostic>)
        ensures
            r@ == self.diagnostics@,
    {
        &self.diagnostics
    }

    pub fn into_diagnostics(self) -> (r: Vec<Diagnostic>)
        ensures
            r@ == self.diagnostics@,
    {
        self.diagnostics
    }

    /// The validated program when no diagnostic is an error; the
    /// diagnostics otherwise.
    pub fn into_validated(self) -> (r: Result<ValidatedProgram, Vec<Diagnostic>>)
        ensures
            r is Ok <==> !has_error(dviews(self.diagnostics@)),
            r matches Ok(v) ==> v.warnings@ == self.diagnostics@,
            r matches Err(ds) ==> ds@ == self.diagnostics@,
    {
        if any_error(&self.diagnostics) {
            Err(self.diagnostics)
        } else {
            Ok(ValidatedProgram { warnings: self.diagnostics })
        }
    }
}

pub proof fn lemma_violation_diags_add(a: Seq<crate::derives::ViolationView>, b: Seq<crate::derives::ViolationView>)
    ensures
        violation_diags(a + b) == violation_diags(a) + violation_diags(b),
{
    assert(violation_diags(a + b) =~= violation_diags(a) + violation_diags(b));
}

fn syntax_findings(tab: &AliasTable, sources: &Vec<Program>) -> (r: Vec<SyntaxFinding>)
    ensures
        r@ == items_issues(table_view(*tab), merged_items(sources@)),
{
    let ghost tb = table_view(*tab);
    let mut out: Vec<SyntaxFinding> = Vec::new();
    let mut i: usize = 0;
    while i < sources.len()
        invariant
            tb == table_view(*tab),
            i <= sources@.len(),
            out@ == items_issues(tb, merged_items(sources@.take(i as int))),
        decreases sources.len() - i,
    {
        let mut more = check_unsupported_syntax(tab, &sources[i].items);
        proof {
            assert(sources@.take(i + 1).drop_last() == sources@.take(i as int));
            lemma_items_issues_add(tb, merged_items(sources@.take(i as int)), sources@[i as int].items@);
        }
        out.append(&mut more);
        i += 1;
    }
    assert(sources@.take(sources@.len() as int) == sources@);
    out
}

fn derive_diagnostics(sources: &Vec<Program>) -> (r: Vec<Diagnostic>)
    ensures
        dviews(r@) == violation_diags(derive_violations(merged_items(sources@))),
{
    let mut locals = LocalTypes { entries: Vec::new() };
    assert(local_view(locals) =~= Seq::<LocalView>::empty());
    let mut i: usize = 0;
    while i < sources.len()
        invariant
            i <= sources@.len(),
            local_view(locals) == local_types(merged_items(sources@.take(i as int))),
        decreases sources.len() - i,
    {
        locals.add_items(&sources[i].items);
        proof {
            assert(sources@.take(i + 1).drop_last() == sources@.take(i as int));
            lemma_local_types_add(merged_items(sources@.take(i as int)), sources@[i as int].items@);
        }
        i += 1;
    }
    assert(sources@.take(sources@.len() as int) == sources@);
    let ghost loc = local_view(locals);
    let mut out: Vec<Diagnostic> = Vec::new();
    let mut i: usize = 0;
    while i < sources.len()
        invariant
            loc == local_view(locals),
            i <= sources@.len(),
            dviews(out@) == violation_diags(items_violations(merged_items(sources@.take(i as int)), loc)),
        decreases sources.len() - i,
    {
        let more = check_items_derives(&sources[i].items, &locals);
        proof {
            assert(sources@.take(i + 1).drop_last() == sources@.take(i as int));
            lemma_items_violations_add(merged_items(sources@.take(i as int)), sources@[i as int].items@, loc);
            lemma_violation_diags_add(
                items_violations(merged_items(sources@.take(i as int)), loc),
                items_violations(sources@[i as int].items@, loc),
            );
            lemma_dviews_add(out@, more@);
        }
        extend_diagnostics(&mut out, more);
        i += 1;
    }
    out
}

/// Runs every check over the prepared analysis of `sources`.
fn analyze_program(prepared: &PreparedAnalysis, sources: &Vec<Program>) -> (r: AnalysisResult)
    ensures
        dviews(r.diagnostics@) == full_report(table_view(prepared.type_aliases), merged_items(sources@)),
{
    let tab = &prepared.type_aliases;
    let findings = syntax_findings(tab, sources);
    let mut out = syntax_diagnostics(&findings);
    let derives = derive_diagnostics(sources);
    proof {
        lemma_dviews_add(out@, derives@);
    }
    extend_diagnostics(&mut out, derives);
    let lowered = lowered_name_diagnostics(sources);
    proof {
        lemma_dviews_add(out@, lowered@);
    }
    extend_diagnostics(&mut out, lowered);
    let cycles = alias_cycle_diagnostics(tab);
    proof {
        lemma_dviews_add(out@, cycles@);
    }
    extend_diagnostics(&mut out, cycles);
    AnalysisResult { diagnostics: out }
}

fn lowered_name_diagnostics(sources: &Vec<Program>) -> (r: Vec<Diagnostic>)
    ensures
        dviews(r@) == lowered_name_diags(merged_items(sources@)),
{
    let mut scan = LoweredNameScan::new();
    let mut i: usize = 0;
    while i < sources.len()
        invariant
            i <= sources@.len(),
            scan.wf(),
            scan.state() == lower_scan_from(empty_scan(), merged_items(sources@.take(i as int))),
        decreases sources.len() - i,
    {
        scan.scan(&sources[i].items);
        proof {
            assert(sources@.take(i + 1).drop_last() == sources@.take(i as int));
            lemma_lower_scan_add(empty_scan(), merged_items(sources@.take(i as int)), sources@[i as int].items@);
        }
        i += 1;
    }
    assert(sources@.take(sources@.len() as int) == sources@);
    scan.finish()
}

/// Runs the supported-syntax check alone.
fn analyze_syntax_program(prepared: &PreparedAnalysis, sources: &Vec<Program>) -> (r: AnalysisResult)
    ensures
        dviews(r.diagnostics@) == syntax_report(table_view(prepared.type_aliases), merged_items(sources@)),
{
    let findings = syntax_findings(&prepared.type_aliases, sources);
    AnalysisResult { diagnostics: syntax_diagnostics(&findings) }
}

/// Runs the analysis of `flavor` over the sources, given the parsed builtin
/// catalogs and the supplied interfaces.
pub fn analyze_input_result(
    flavor: AnalysisFlavor,
    catalogs: &Vec<Program>,
    sources: &Vec<Program>,
    interfaces: &Vec<Program>,
) -> (r: AnalysisResult)
    ensures
        dviews(r.diagnostics@) == analysis(flavor, catalogs@, sources@, interfaces@),
{
    let prepared = prepare_analysis(flavor, catalogs, sources, interfaces);
    match flavor {
        AnalysisFlavor::SyntaxOnly => analyze_syntax_program(&prepared, sources),
        _ => analyze_program(&prepared, sources),
    }
}

/// The diagnostics of `analyze_input_result`.
pub fn analyze_input(
    flavor: AnalysisFlavor,
    catalogs: &Vec<Program>,
    sources: &Vec<Program>,
    interfaces: &Vec<Program>,
) -> (r: Vec<Diagnostic>)
    ensures
        dviews(r@) == analysis(flavor, catalogs@, sources@, interfaces@),
{
    analyze_input_result(flavor, catalogs, sources, interfaces).into_diagnostics()
}

fn analyze_single_result(
    flavor: AnalysisFlavor,
    catalogs: &Vec<Program>,
    source: &Program,
    interfaces: &Vec<Program>,
) -> (r: AnalysisResult)
    ensures
        dviews(r.diagnostics@) == analysis(flavor, catalogs@, seq![*source], interfaces@),
{
    proof {
        lemma_merged_single(*source);
    }
    let prepared = prepare_single_analysis(flavor, catalogs, source, interfaces);
    let tab = &prepared.type_aliases;
    let findings = check_unsupported_syntax(tab, &source.items);
    let mut out = syntax_diagnostics(&findings);
    match flavor {
        AnalysisFlavor::SyntaxOnly => {},
        _ => {
            let derives = crate::derives::check_derive_field_requirements(&source.items);
            proof {
                lemma_dviews_add(out@, derives@);
            }
            extend_diagnostics(&mut out, derives);
            let lowered = check_lowered_name_conflicts(&source.items);
            proof {
                lemma_dviews_add(out@, lowered@);
            }
            extend_diagnostics(&mut out, lowered);
            let cycles = alias_cycle_diagnostics(tab);
            proof {
                lemma_dviews_add(out@, cycles@);
            }
            extend_diagnostics(&mut out, cycles);
        },
    }
    AnalysisResult { diagnostics: out }
}

// ---------------------------------------------------------------------------
// Entry points
// ---------------------------------------------------------------------------

/// The entry points below load no builtin catalog: the library holds none,
/// so their analyses expand no catalog alias. Callers that have the parsed
/// catalogs call `analyze_input_result` with them.
fn no_catalogs() -> (r: Vec<Program>)
    ensures
        r@ == Seq::<Program>::empty(),
{
    Vec::new()
}

/// Every check over one source, reading no supplied interface (and, like
/// every entry point here, no builtin catalog).
pub fn analyze_source(source: &Program) -> (r: Vec<Diagnostic>)
    ensures
        dviews(r@) == analysis(AnalysisFlavor::FullWithStandardPackages, seq![], seq![*source], seq![]),
{
    let none: Vec<Program> = Vec::new();
    assert(none@ =~= Seq::<Program>::empty());
    analyze_single_result(AnalysisFlavor::FullWithStandardPackages, &no_catalogs(), source, &none).into_diagnostics()
}

pub fn analyze_source_result(source: &Program) -> (r: AnalysisResult)
    ensures
        dviews(r.diagnostics@) == analysis(AnalysisFlavor::FullWithStandardPackages, seq![], seq![*source], seq![]),
{
    let none: Vec<Program> = Vec::new();
    assert(none@ =~= Seq::<Program>::empty());
    analyze_single_result(AnalysisFlavor::FullWithStandardPackages, &no_catalogs(), source, &none)
}

/// The validated program when the analysis of `source` reports no error.
pub fn validate_source(source: &Program) -> (r: Result<ValidatedProgram, Vec<Diagnostic>>)
    ensures
        r is Ok <==> !has_error(analysis(AnalysisFlavor::FullWithStandardPackages, seq![], seq![*source], seq![])),
        r matches Ok(v) ==> dviews(v.warnings@) == analysis(AnalysisFlavor::FullWithStandardPackages, seq![], seq![*source], seq![]),
        r matches Err(ds) ==> dviews(ds@) == analysis(AnalysisFlavor::FullWithStandardPackages, seq![], seq![*source], seq![]),
{
    analyze_source_result(source).into_validated()
}

/// The supported-syntax check over one source.
pub fn analyze_syntax_source(source: &Program) -> (r: Vec<Diagnostic>)
    ensures
        dviews(r@) == analysis(AnalysisFlavor::SyntaxOnly, seq![], seq![*source], seq![]),
{
    let none: Vec<Program> = Vec::new();
    assert(none@ =~= Seq::<Program>::empty());
    analyze_single_result(AnalysisFlavor::SyntaxOnly, &no_catalogs(), source, &none).into_diagnostics()
}

/// Every check over one source with no interfaces at all.
pub fn analyze_source_without_core(source: &Program) -> (r: Vec<Diagnostic>)
    ensures
        dviews(r@) == analysis(AnalysisFlavor::FullWithoutBuiltinInterfaces, seq![], seq![*source], seq![]),
{
    let none: Vec<Program> = Vec::new();
    assert(none@ =~= Seq::<Program>::empty());
    analyze_single_result(AnalysisFlavor::FullWithoutBuiltinInterfaces, &no_catalogs(), source, &none).into_diagnostics()
}

/// The same analysis as `analyze_source`.
pub fn analyze_source_with_core(source: &Program) -> (r: Vec<Diagnostic>)
    ensures
        dviews(r@) == analysis(AnalysisFlavor::FullWithStandardPackages, seq![], seq![*source], seq![]),
{
    analyze_source(source)
}

/// Every check over one source with the supplied interfaces beside the
/// builtin ones.
pub fn analyze_source_with_interfaces(source: &Program, interfaces: &Vec<Program>) -> (r: Vec<Diagnostic>)
    ensures
        dviews(r@) == analysis(AnalysisFlavor::FullWithBuiltinInterfaces, seq![], seq![*source], interfaces@),
{
    analyze_single_result(AnalysisFlavor::FullWithBuiltinInterfaces, &no_catalogs(), source, interfaces).into_diagnostics()
}

pub fn analyze_source_with_interfaces_result(source: &Program, interfaces: &Vec<Program>) -> (r: AnalysisResult)
    ensures
        dviews(r.diagnostics@) == analysis(AnalysisFlavor::FullWithBuiltinInterfaces, seq![], seq![*source], interfaces@),
{
    analyze_single_result(AnalysisFlavor::FullWithBuiltinInterfaces, &no_catalogs(), source, interfaces)
}

/// Every check over one source with only the supplied interfaces.
pub fn analyze_source_with_interfaces_without_core(source: &Program, interfaces: &Vec<Program>) -> (r: Vec<Diagnostic>)
    ensures
        dviews(r@) == analysis(AnalysisFlavor::FullWithoutBuiltinInterfaces, seq![], seq![*source], interfaces@),
{
    analyze_single_result(AnalysisFlavor::FullWithoutBuiltinInterfaces, &no_catalogs(), source, interfaces).into_diagnostics()
}

/// Every check over several sources merged into one program.
pub fn analyze_sources_with_interfaces(sources: &Vec<Program>, interfaces: &Vec<Program>) -> (r: Vec<Diagnostic>)
    ensures
        dviews(r@) == analysis(AnalysisFlavor::FullWithBuiltinInterfaces, seq![], sources@, interfaces@),
{
    analyze_input(AnalysisFlavor::FullWithBuiltinInterfaces, &no_catalogs(), sources, interfaces)
}

pub fn analyze_sources_with_interfaces_result(sources: &Vec<Program>, interfaces: &Vec<Program>) -> (r: AnalysisResult)
    ensures
        dviews(r.diagnostics@) == analysis(AnalysisFlavor::FullWithBuiltinInterfaces, seq![], sources@, interfaces@),
{
    analyze_input_result(AnalysisFlavor::FullWithBuiltinInterfaces, &no_catalogs(), sources, interfaces)
}

pub fn validate_sources_with_interfaces(sources: &Vec<Program>, interfaces: &Vec<Program>) -> (r: Result<ValidatedProgram, Vec<Diagnostic>>)
    ensures
        r is Ok <==> !has_error(analysis(AnalysisFlavor::FullWithBuiltinInterfaces, seq![], sources@, interfaces@)),
        r matches Ok(v) ==> dviews(v.warnings@) == analysis(AnalysisFlavor::FullWithBuiltinInterfaces, seq![], sources@, interfaces@),
        r matches Err(ds) ==> dviews(ds@) == analysis(AnalysisFlavor::FullWithBuiltinInterfaces, seq![], sources@, interfaces@),
{
    analyze_sources_with_interfaces_result(sources, interfaces).into_validated()
}

pub fn analyze_sources_with_interfaces_without_core(sources: &Vec<Program>, interfaces: &Vec<Program>) -> (r: Vec<Diagnostic>)
    ensures
        dviews(r@) == analysis(AnalysisFlavor::FullWithoutBuiltinInterfaces, seq![], sources@, interfaces@),
{
    analyze_input(AnalysisFlavor::FullWithoutBuiltinInterfaces, &no_catalogs(), sources, interfaces)
}

pub fn analyze_sources_with_interfaces_without_core_result(sources: &Vec<Program>, interfaces: &Vec<Program>) -> (r: AnalysisResult)
    ensures
        dviews(r.diagnostics@) == analysis(AnalysisFlavor::FullWithoutBuiltinInterfaces, seq![], sources@, interfaces@),
{
    analyze_input_result(AnalysisFlavor::FullWithoutBuiltinInterfaces, &no_catalogs(), sources, interfaces)
}

pub fn validate_sources_with_interfaces_without_core(sources: &Vec<Program>, interfaces: &Vec<Program>) -> (r: Result<ValidatedProgram, Vec<Diagnostic>>)
    ensures
        r is Ok <==> !has_error(analysis(AnalysisFlavor::FullWithoutBuiltinInterfaces, seq![], sources@, interfaces@)),
        r matches Ok(v) ==> dviews(v.warnings@) == analysis(AnalysisFlavor::FullWithoutBuiltinInterfaces, seq![], sources@, interfaces@),
        r matches Err(ds) ==> dviews(ds@) == analysis(AnalysisFlavor::FullWithoutBuiltinInterfaces, seq![], sources@, interfaces@),
{
    analyze_sources_with_interfaces_without_core_result(sources, interfaces).into_validated()
}

// ---------------------------------------------------------------------------
// Laws
// ---------------------------------------------------------------------------

/// Analysing several sources reports exactly what analysing one source
/// holding all their declarations, in the same order, reports, under every
/// interface policy.
pub proof fn law_merged_sources_agree_with_single(
    flavor: AnalysisFlavor,
    catalogs: Seq<Program>,
    sources: Seq<Program>,
    merged: Program,
    interfaces: Seq<Program>,
)
    requires
        merged.items@ == merged_items(sources),
    ensures
        analysis(flavor, catalogs, seq![merged], interfaces) == analysis(flavor, catalogs, sources, interfaces),
{
    lemma_merged_single(merged);
}

/// The supported-syntax check reads no interface and no catalog, and an
/// analysis that reads only the builtin catalogs ignores supplied interfaces.
pub proof fn law_interfaces_unread(
    cats: Seq<Program>,
    other_cats: Seq<Program>,
    sources: Seq<Program>,
    a: Seq<Program>,
    b: Seq<Program>,
)
    ensures
        analysis(AnalysisFlavor::SyntaxOnly, cats, sources, a) == analysis(
            AnalysisFlavor::SyntaxOnly,
            other_cats,
            sources,
            b,
        ),
        analysis(AnalysisFlavor::FullWithStandardPackages, cats, sources, a) == analysis(
            AnalysisFlavor::FullWithStandardPackages,
            cats,
            sources,
            b,
        ),
{
}

/// A full analysis reports at least what the supported-syntax check
/// reports, first and in the same order, when no alias is in scope.
pub proof fn law_full_extends_syntax(
    flavor: AnalysisFlavor,
    cats: Seq<Program>,
    sources: Seq<Program>,
    interfaces: Seq<Program>,
)
    requires
        flavor != AnalysisFlavor::SyntaxOnly,
        alias_scope(flavor, cats, sources, interfaces).len() == 0,
    ensures
        analysis(flavor, cats, sources, interfaces).take(
            analysis(AnalysisFlavor::SyntaxOnly, cats, sources, interfaces).len() as int,
        ) == analysis(AnalysisFlavor::SyntaxOnly, cats, sources, interfaces),
{
    let tab = alias_scope(flavor, cats, sources, interfaces);
    assert(tab =~= Seq::<AliasView>::empty());
    assert(alias_scope(AnalysisFlavor::SyntaxOnly, cats, sources, interfaces) =~= tab);
    let items = merged_items(sources);
    let s = syntax_report(tab, items);
    assert((s + violation_diags(derive_violations(items)) + lowered_name_diags(items) + cycle_diags(
        tab,
        tab.len() as int,
    )).take(s.len() as int) =~= s);
}

// ---------------------------------------------------------------------------
// Files
// ---------------------------------------------------------------------------

pub open spec fn file_views(v: Seq<String>) -> Seq<Seq<char>> {
    v.map_values(|s: String| s@)
}

pub open spec fn span_files(v: Seq<crate::ast::Span>) -> Seq<Seq<char>> {
    v.map_values(|s: crate::ast::Span| s.file@)
}

pub open spec fn item_files(v: Seq<Item>) -> Seq<Seq<char>> {
    v.map_values(|i: Item| crate::items::item_span(i).file@)
}

pub open spec fn protocol_files(v: Seq<crate::ast::ProtocolDecl>) -> Seq<Seq<char>> {
    v.map_values(|d: crate::ast::ProtocolDecl| d.span.file@)
}

pub open spec fn impl_files(v: Seq<crate::ast::ProtocolImpl>) -> Seq<Seq<char>> {
    v.map_values(|d: crate::ast::ProtocolImpl| d.span.file@)
}

/// The files a program's declarations come from, in declaration order:
/// items, then unknown top-level syntax, malformed declarations, protocols
/// and protocol implementations. A file may appear more than once.
pub open spec fn program_file_list(p: Program) -> Seq<Seq<char>> {
    item_files(p.items@) + span_files(p.unknown_top_level_spans@) + span_files(p.malformed_declaration_spans@)
        + protocol_files(p.protocols@) + impl_files(p.protocol_impls@)
}

fn push_span_files(out: &mut Vec<String>, spans: &Vec<crate::ast::Span>)
    ensures
        file_views(final(out)@) == file_views(old(out)@) + span_files(spans@),
{
    let ghost o0 = file_views(out@);
    let mut i: usize = 0;
    while i < spans.len()
        invariant
            i <= spans@.len(),
            file_views(out@) == o0 + span_files(spans@.take(i as int)),
        decreases spans.len() - i,
    {
        let ghost before = out@;
        let f = spans[i].file.clone();
        out.push(f);
        assert(file_views(out@) =~= file_views(before).push(f@));
        assert(span_files(spans@.take(i + 1)) =~= span_files(spans@.take(i as int)).push(spans@[i as int].file@));
        assert(file_views(out@) =~= o0 + span_files(spans@.take(i + 1)));
        i += 1;
    }
    assert(spans@.take(spans@.len() as int) == spans@);
}

/// The files a program's declarations come from.
pub fn program_files(program: &Program) -> (r: Vec<String>)
    ensures
        file_views(r@) == program_file_list(*program),
{
    let mut out: Vec<String> = Vec::new();
    let mut i: usize = 0;
    while i < program.items.len()
        invariant
            i <= program.items@.len(),
            file_views(out@) == item_files(program.items@.take(i as int)),
        decreases program.items.len() - i,
    {
        let ghost before = out@;
        let f = crate::items::item_span_file(&program.items[i]);
        out.push(f);
        assert(file_views(out@) =~= file_views(before).push(f@));
        assert(item_files(program.items@.take(i + 1)) =~= item_files(program.items@.take(i as int)).push(
            crate::items::item_span(program.items@[i as int]).file@,
        ));
        assert(file_views(out@) =~= item_files(program.items@.take(i + 1)));
        i += 1;
    }
    assert(program.items@.take(program.items@.len() as int) == program.items@);
    push_span_files(&mut out, &program.unknown_top_level_spans);
    push_span_files(&mut out, &program.malformed_declaration_spans);
    let ghost o3 = file_views(out@);
    let mut j: usize = 0;
    while j < program.protocols.len()
        invariant
            j <= program.protocols@.len(),
            file_views(out@) == o3 + protocol_files(program.protocols@.take(j as int)),
        decreases program.protocols.len() - j,
    {
        let ghost before = out@;
        let f = program.protocols[j].span.file.clone();
        out.push(f);
        assert(file_views(out@) =~= file_views(before).push(f@));
        assert(protocol_files(program.protocols@.take(j + 1)) =~= protocol_files(program.protocols@.take(j as int)).push(
            program.protocols@[j as int].span.file@,
        ));
        assert(file_views(out@) =~= o3 + protocol_files(program.protocols@.take(j + 1)));
        j += 1;
    }
    assert(program.protocols@.take(program.protocols@.len() as int) == program.protocols@);
    let ghost o4 = file_views(out@);
    let mut k: usize = 0;
    while k < program.protocol_impls.len()
        invariant
            k <= program.protocol_impls@.len(),
            file_views(out@) == o4 + impl_files(program.protocol_impls@.take(k as int)),
        decreases program.protocol_impls.len() - k,
    {
        let ghost before = out@;
        let f = program.protocol_impls[k].span.file.clone();
        out.push(f);
        assert(file_views(out@) =~= file_views(before).push(f@));
        assert(impl_files(program.protocol_impls@.take(k + 1)) =~= impl_files(program.protocol_impls@.take(k as int)).push(
            program.protocol_impls@[k as int].span.file@,
        ));
        assert(file_views(out@) =~= o4 + impl_files(program.protocol_impls@.take(k + 1)));
        k += 1;
    }
    assert(program.protocol_impls@.take(program.protocol_impls@.len() as int) == program.protocol_impls@);
    out
}

} // verus!
