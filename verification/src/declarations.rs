//! Backend-name pins: every `#lower_name("...")` must be a plain Rust
//! identifier and must not collide with another function's backend name.
use vstd::prelude::*;
use crate::ast::{Item, Span};
use crate::chars::str_eq;
use crate::diag::{
    dview, dviews, error_with_cause, error_with_fix, lemma_dviews_push, DiagView, Diagnostic, Severity,
};
use crate::names::{default_lowered_name, is_valid_rust_identifier, is_valid_rust_identifier_str, lowered_symbol_name};
use crate::types::{append, clone_span};

verus! {

/// What the scan over the functions has gathered: pins that are not
/// identifiers, conflicts (span, backend name, first claimant), and the
/// backend names seen with their first claimant and whether it pinned.
pub struct LowerScan {
    pub invalid: Seq<(Span, Seq<char>)>,
    pub conflicts: Seq<(Span, Seq<char>, Seq<char>)>,
    pub seen: Seq<(Seq<char>, Seq<char>, bool)>,
}

/// The first entry of `seen` for backend name `lowered`.
pub open spec fn seen_index(seen: Seq<(Seq<char>, Seq<char>, bool)>, lowered: Seq<char>, k: int) -> Option<int>
    decreases seen.len() - k,
{
    if k < 0 || k >= seen.len() {
        None
    } else if seen[k].0 == lowered {
        Some(k)
    } else {
        seen_index(seen, lowered, k + 1)
    }
}

/// One step of the scan: a function's backend name is its pin, or else its
/// default lowered name; a name already claimed is a conflict when either
/// claimant pinned it, and only the first claimant is remembered. A pin that
/// is not an identifier is reported and claims nothing.
pub open spec fn lower_step(acc: LowerScan, item: Item) -> LowerScan {
    match item {
        Item::Function(f) => {
            let invalid_pin = match f.lower_name {
                Some(pin) => !is_valid_rust_identifier(pin@),
                None => false,
            };
            if invalid_pin {
                LowerScan { invalid: acc.invalid.push((f.span, f.lower_name->0@)), ..acc }
            } else {
                let pinned = f.lower_name is Some;
                let lowered = match f.lower_name {
                    Some(pin) => pin@,
                    None => default_lowered_name(f.name@),
                };
                match seen_index(acc.seen, lowered, 0) {
                    Some(k) => if pinned || acc.seen[k].2 {
                        LowerScan { conflicts: acc.conflicts.push((f.span, lowered, acc.seen[k].1)), ..acc }
                    } else {
                        acc
                    },
                    None => LowerScan { seen: acc.seen.push((lowered, f.name@, pinned)), ..acc },
                }
            }
        },
        _ => acc,
    }
}

/// The scan continued from `acc` over `items`, in order.
pub open spec fn lower_scan_from(acc: LowerScan, items: Seq<Item>) -> LowerScan
    decreases items.len(),
{
    if items.len() == 0 {
        acc
    } else {
        lower_step(lower_scan_from(acc, items.drop_last()), items.last())
    }
}

pub open spec fn empty_scan() -> LowerScan {
    LowerScan { invalid: seq![], conflicts: seq![], seen: seq![] }
}

/// The scan over `items` from nothing.
pub open spec fn lower_scan(items: Seq<Item>) -> LowerScan {
    lower_scan_from(empty_scan(), items)
}

/// Scanning two lists in turn is scanning their concatenation.
pub proof fn lemma_lower_scan_add(acc: LowerScan, a: Seq<Item>, b: Seq<Item>)
    ensures
        lower_scan_from(lower_scan_from(acc, a), b) == lower_scan_from(acc, a + b),
    decreases b.len(),
{
    if b.len() == 0 {
        assert(a + b == a);
    } else {
        assert((a + b).drop_last() == a + b.drop_last());
        assert((a + b).last() == b.last());
        lemma_lower_scan_add(acc, a, b.drop_last());
    }
}

pub open spec fn invalid_pin_diag(e: (Span, Seq<char>)) -> DiagView {
    DiagView {
        code: "LOWER_NAME_CONFLICT"@,
        severity: Severity::Error,
        message: "`#lower_name(\""@ + e.1 + "\")` is not a valid Rust identifier."@,
        span: e.0,
        label: "invalid lowered name"@,
        causes: seq![
            "A pinned backend name must be a plain Rust identifier (letters, digits, and underscores, not starting with a digit)."@,
        ],
        fixes: seq![],
    }
}

pub open spec fn conflict_diag(e: (Span, Seq<char>, Seq<char>)) -> DiagView {
    DiagView {
        code: "LOWER_NAME_CONFLICT"@,
        severity: Severity::Error,
        message: "lowered backend name `"@ + e.1 + "` is already used by `"@ + e.2 + "`."@,
        span: e.0,
        label: "lowered name conflict"@,
        causes: seq![
            "Two declarations would lower to the same Rust symbol; a `#lower_name(\"...\")` pin must be unique."@,
        ],
        fixes: seq![("rename_lowered"@, "Choose a different `#lower_name(\"...\")` value."@, "manual"@)],
    }
}

/// The report of a scan: every invalid pin, then every conflict, each in
/// source order.
pub open spec fn scan_diags(scan: LowerScan) -> Seq<DiagView> {
    scan.invalid.map_values(|e: (Span, Seq<char>)| invalid_pin_diag(e)) + scan.conflicts.map_values(
        |e: (Span, Seq<char>, Seq<char>)| conflict_diag(e),
    )
}

pub open spec fn lowered_name_diags(items: Seq<Item>) -> Seq<DiagView> {
    scan_diags(lower_scan(items))
}

struct SeenName {
    lowered: String,
    first: String,
    pinned: bool,
}

spec fn seen_view(v: Seq<SeenName>) -> Seq<(Seq<char>, Seq<char>, bool)> {
    v.map_values(|s: SeenName| (s.lowered@, s.first@, s.pinned))
}

fn find_seen(seen: &Vec<SeenName>, lowered: &str) -> (r: Option<usize>)
    ensures
        r matches Some(k) ==> k < seen@.len() && seen_index(seen_view(seen@), lowered@, 0) == Some(k as int),
        r is None ==> seen_index(seen_view(seen@), lowered@, 0) is None,
{
    let ghost sv = seen_view(seen@);
    let mut k: usize = 0;
    while k < seen.len()
        invariant
            sv == seen_view(seen@),
            k <= seen@.len(),
            seen_index(sv, lowered@, 0) == seen_index(sv, lowered@, k as int),
        decreases seen.len() - k,
    {
        if str_eq(seen[k].lowered.as_str(), lowered) {
            return Some(k);
        }
        k += 1;
    }
    None
}

/// The lowered-name scan in progress, over one or more item lists.
pub struct LoweredNameScan {
    seen: Vec<SeenName>,
    invalid: Vec<Diagnostic>,
    conflicts: Vec<Diagnostic>,
    state: Ghost<LowerScan>,
}

impl LoweredNameScan {
    /// The scan state this value stands for.
    pub closed spec fn state(self) -> LowerScan {
        self.state@
    }

    pub closed spec fn wf(self) -> bool {
        &&& seen_view(self.seen@) == self.state@.seen
        &&& dviews(self.invalid@) == self.state@.invalid.map_values(|e: (Span, Seq<char>)| invalid_pin_diag(e))
        &&& dviews(self.conflicts@) == self.state@.conflicts.map_values(
            |e: (Span, Seq<char>, Seq<char>)| conflict_diag(e),
        )
    }

    pub fn new() -> (r: LoweredNameScan)
        ensures
            r.wf(),
            r.state() == empty_scan(),
    {
        let r = LoweredNameScan {
            seen: Vec::new(),
            invalid: Vec::new(),
            conflicts: Vec::new(),
            state: Ghost(empty_scan()),
        };
        assert(seen_view(r.seen@) =~= Seq::<(Seq<char>, Seq<char>, bool)>::empty());
        assert(dviews(r.invalid@) =~= Seq::<DiagView>::empty());
        assert(dviews(r.conflicts@) =~= Seq::<DiagView>::empty());
        assert(empty_scan().invalid.map_values(|e: (Span, Seq<char>)| invalid_pin_diag(e)) =~= Seq::<DiagView>::empty());
        assert(empty_scan().conflicts.map_values(|e: (Span, Seq<char>, Seq<char>)| conflict_diag(e)) =~= Seq::<DiagView>::empty());
        r
    }

    /// Continues the scan over `items`.
    pub fn scan(&mut self, items: &Vec<Item>)
        requires
            old(self).wf(),
        ensures
            final(self).wf(),
            final(self).state() == lower_scan_from(old(self).state(), items@),
    {
        let ghost s0 = self.state@;
        let mut i: usize = 0;
        while i < items.len()
            invariant
                i <= items@.len(),
                self.wf(),
                self.state@ == lower_scan_from(s0, items@.take(i as int)),
            decreases items.len() - i,
        {
            assert(items@.take(i + 1).drop_last() == items@.take(i as int));
            self.step(&items[i]);
            i += 1;
        }
        assert(items@.take(items@.len() as int) == items@);
    }

    fn step(&mut self, item: &Item)
        requires
            old(self).wf(),
        ensures
            final(self).wf(),
            final(self).state() == lower_step(old(self).state(), *item),
    {
        let ghost acc = self.state@;
        match item {
            Item::Function(f) => {
                let invalid_pin: Option<&String> = match &f.lower_name {
                    Some(pin) => if is_valid_rust_identifier_str(pin.as_str()) {
                        None
                    } else {
                        Some(pin)
                    },
                    None => None,
                };
                if let Some(pin) = invalid_pin {
                    let mut message = "`#lower_name(\"".to_owned();
                    append(&mut message, pin.as_str());
                    append(&mut message, "\")` is not a valid Rust identifier.");
                    let d = error_with_cause(
                        "LOWER_NAME_CONFLICT",
                        message,
                        clone_span(&f.span),
                        "invalid lowered name".to_owned(),
                        "A pinned backend name must be a plain Rust identifier (letters, digits, and underscores, not starting with a digit).",
                    );
                    proof {
                        lemma_dviews_push(self.invalid@, d);
                    }
                    self.invalid.push(d);
                    self.state = Ghost(lower_step(acc, *item));
                    assert(dviews(self.invalid@) =~= self.state@.invalid.map_values(
                        |e: (Span, Seq<char>)| invalid_pin_diag(e),
                    ));
                } else {
                    let pinned = f.lower_name.is_some();
                    let lowered = match &f.lower_name {
                        Some(pin) => pin.clone(),
                        None => lowered_symbol_name(f.name.as_str()),
                    };
                    match find_seen(&self.seen, lowered.as_str()) {
                        Some(k) => {
                            assert(seen_view(self.seen@)[k as int] == (
                                self.seen@[k as int].lowered@,
                                self.seen@[k as int].first@,
                                self.seen@[k as int].pinned,
                            ));
                            if pinned || self.seen[k].pinned {
                                let mut message = "lowered backend name `".to_owned();
                                append(&mut message, lowered.as_str());
                                append(&mut message, "` is already used by `");
                                append(&mut message, self.seen[k].first.as_str());
                                append(&mut message, "`.");
                                let d = error_with_fix(
                                    "LOWER_NAME_CONFLICT",
                                    message,
                                    clone_span(&f.span),
                                    "lowered name conflict".to_owned(),
                                    "Two declarations would lower to the same Rust symbol; a `#lower_name(\"...\")` pin must be unique.",
                                    "rename_lowered",
                                    "Choose a different `#lower_name(\"...\")` value.".to_owned(),
                                    "manual",
                                );
                                proof {
                                    lemma_dviews_push(self.conflicts@, d);
                                }
                                self.conflicts.push(d);
                                self.state = Ghost(lower_step(acc, *item));
                                assert(dviews(self.conflicts@) =~= self.state@.conflicts.map_values(
                                    |e: (Span, Seq<char>, Seq<char>)| conflict_diag(e),
                                ));
                            } else {
                                self.state = Ghost(lower_step(acc, *item));
                            }
                        },
                        None => {
                            let ghost before = self.seen@;
                            let entry = SeenName { lowered, first: f.name.clone(), pinned };
                            self.seen.push(entry);
                            self.state = Ghost(lower_step(acc, *item));
                            assert(seen_view(self.seen@) =~= seen_view(before).push(
                                (entry.lowered@, entry.first@, entry.pinned),
                            ));
                        },
                    }
                }
            },
            _ => {
                self.state = Ghost(lower_step(acc, *item));
            },
        }
    }

    /// The diagnostics of the scan: invalid pins, then conflicts.
    pub fn finish(self) -> (r: Vec<Diagnostic>)
        requires
            self.wf(),
        ensures
            dviews(r@) == scan_diags(self.state()),
    {
        let mut out = self.invalid;
        let ghost a = out@;
        let mut c = self.conflicts;
        let ghost cv = c@;
        out.append(&mut c);
        assert(dviews(out@) =~= dviews(a) + dviews(cv));
        out
    }
}

/// The lowered-name diagnostics of `items`: invalid pins first, then
/// conflicts.
pub fn check_lowered_name_conflicts(items: &Vec<Item>) -> (r: Vec<Diagnostic>)
    ensures
        dviews(r@) == lowered_name_diags(items@),
{
    let mut scan = LoweredNameScan::new();
    scan.scan(items);
    scan.finish()
}

pub open spec fn no_pins(items: Seq<Item>) -> bool {
    forall|i: int| 0 <= i < items.len() ==> match #[trigger] items[i] {
        Item::Function(f) => f.lower_name is None,
        _ => true,
    }
}

proof fn lemma_seen_index(seen: Seq<(Seq<char>, Seq<char>, bool)>, lowered: Seq<char>, k: int)
    ensures
        seen_index(seen, lowered, k) matches Some(j) ==> 0 <= k <= j < seen.len() && seen[j].0 == lowered,
    decreases seen.len() - k,
{
    if 0 <= k < seen.len() && seen[k].0 != lowered {
        lemma_seen_index(seen, lowered, k + 1);
    }
}

proof fn lemma_unpinned_scan(items: Seq<Item>)
    requires
        no_pins(items),
    ensures
        lower_scan(items).invalid.len() == 0,
        lower_scan(items).conflicts.len() == 0,
        forall|k: int| 0 <= k < lower_scan(items).seen.len() ==> !(#[trigger] lower_scan(items).seen[k]).2,
    decreases items.len(),
{
    if items.len() > 0 {
        assert(no_pins(items.drop_last())) by {
            assert forall|i: int| 0 <= i < items.drop_last().len() implies match #[trigger] items.drop_last()[i] {
                Item::Function(f) => f.lower_name is None,
                _ => true,
            } by {
                assert(items.drop_last()[i] == items[i]);
            }
        }
        lemma_unpinned_scan(items.drop_last());
        let last = items[items.len() - 1];
        assert(match last {
            Item::Function(f) => f.lower_name is None,
            _ => true,
        });
        let acc = lower_scan(items.drop_last());
        match last {
            Item::Function(f) => {
                lemma_seen_index(acc.seen, default_lowered_name(f.name@), 0);
            },
            _ => {},
        }
    }
}

/// Backend names cannot conflict while no function pins one: default
/// lowered names that coincide are not this check's concern.
pub proof fn law_unpinned_functions_report_nothing(items: Seq<Item>)
    requires
        no_pins(items),
    ensures
        lowered_name_diags(items) == Seq::<DiagView>::empty(),
{
    lemma_unpinned_scan(items);
    let scan = lower_scan(items);
    assert(scan.invalid.map_values(|e: (Span, Seq<char>)| invalid_pin_diag(e)) =~= Seq::<DiagView>::empty());
    assert(scan.conflicts.map_values(|e: (Span, Seq<char>, Seq<char>)| conflict_diag(e)) =~= Seq::<DiagView>::empty());
}

} // verus!
