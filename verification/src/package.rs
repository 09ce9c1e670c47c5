//! Choosing the source file a package runs, and the labels and risk markers
//! of package features.
use vstd::prelude::*;
use crate::chars::{chars_of, contains_seq, push_char, str_eq};
use crate::names::kw_uns;
use crate::native_scan::{ascii_lower, ascii_lowercase_chars};
use crate::types::append;
use crate::diag::{Diagnostic, DiagView, dview, dviews};

verus! {

/// One file of a package.
#[derive(Clone, Debug, PartialEq, Eq)]
pub struct PackageSource {
    pub path: String,
    pub relative_path: String,
    pub contents: String,
}

/// Why no runnable source could be chosen.
#[derive(Clone, Copy, Debug, PartialEq, Eq, Structural)]
pub enum RunnableSourceError {
    /// The package has no source file under `src`.
    NoSource,
    /// Several source files, and not exactly one `src/main.rss`.
    NoMain,
}

impl RunnableSourceError {
    pub open spec fn message_text(self) -> Seq<char> {
        match self {
            RunnableSourceError::NoSource => "rss run requires one package source file under `src`."@,
            RunnableSourceError::NoMain => "rss run package lowering requires `src/main.rss` when a package has multiple `.rss` source files."@,
        }
    }

    pub fn message(&self) -> (r: &'static str)
        ensures
            r@ == self.message_text(),
    {
        match self {
            RunnableSourceError::NoSource => "rss run requires one package source file under `src`.",
            RunnableSourceError::NoMain => "rss run package lowering requires `src/main.rss` when a package has multiple `.rss` source files.",
        }
    }
}

pub open spec fn is_main(s: PackageSource) -> bool {
    s.relative_path@ == "src/main.rss"@
}

/// How many of the first `k` sources are `src/main.rss`.
pub open spec fn main_count(s: Seq<PackageSource>, k: int) -> nat
    decreases k,
{
    if k <= 0 || k > s.len() {
        0
    } else {
        main_count(s, k - 1) + if is_main(s[k - 1]) { 1nat } else { 0nat }
    }
}

/// The runnable source: the only source, or else the only `src/main.rss`.
pub open spec fn runnable(s: Seq<PackageSource>) -> Result<int, RunnableSourceError> {
    if s.len() == 0 {
        Err(RunnableSourceError::NoSource)
    } else if s.len() == 1 {
        Ok(0)
    } else if main_count(s, s.len() as int) == 1 {
        Ok(choose|i: int| 0 <= i < s.len() && is_main(s[i]))
    } else {
        Err(RunnableSourceError::NoMain)
    }
}

proof fn lemma_main_count_zero(s: Seq<PackageSource>, k: int)
    requires
        0 <= k <= s.len(),
        forall|j: int| 0 <= j < k ==> !is_main(#[trigger] s[j]),
    ensures
        main_count(s, k) == 0,
    decreases k,
{
    if k > 0 {
        lemma_main_count_zero(s, k - 1);
    }
}

proof fn lemma_main_count_unique(s: Seq<PackageSource>, k: int, i: int, j: int)
    requires
        0 <= i < j < k <= s.len(),
        is_main(s[i]),
        is_main(s[j]),
    ensures
        main_count(s, k) >= 2,
    decreases k,
{
    if k - 1 > j {
        lemma_main_count_unique(s, k - 1, i, j);
    } else {
        lemma_main_count_ge_one(s, k - 1, i);
    }
}

proof fn lemma_main_count_ge_one(s: Seq<PackageSource>, k: int, i: int)
    requires
        0 <= i < k <= s.len(),
        is_main(s[i]),
    ensures
        main_count(s, k) >= 1,
    decreases k,
{
    if k - 1 > i {
        lemma_main_count_ge_one(s, k - 1, i);
    }
}

/// The index of the source a package runs: its only source, or else its
/// only `src/main.rss`.
pub fn select_package_runnable_source(source_files: &Vec<PackageSource>) -> (r: Result<usize, RunnableSourceError>)
    ensures
        match runnable(source_files@) {
            Ok(i) => r == Ok::<usize, RunnableSourceError>(i as usize) && 0 <= i < source_files@.len(),
            Err(e) => r == Err::<usize, RunnableSourceError>(e),
        },
{
    let n = source_files.len();
    if n == 0 {
        return Err(RunnableSourceError::NoSource);
    }
    if n == 1 {
        return Ok(0);
    }
    let mut found: Option<usize> = None;
    let mut count: usize = 0;
    let mut i: usize = 0;
    while i < n
        invariant
            n == source_files@.len(),
            i <= n,
            count == main_count(source_files@, i as int),
            count <= i,
            match found {
                Some(f) => f < i && is_main(source_files@[f as int]) && forall|j: int|
                    0 <= j < f ==> !is_main(#[trigger] source_files@[j]),
                None => forall|j: int| 0 <= j < i ==> !is_main(#[trigger] source_files@[j]),
            },
        decreases n - i,
    {
        if str_eq(source_files[i].relative_path.as_str(), "src/main.rss") {
            count = count + 1;
            if found.is_none() {
                found = Some(i);
            }
        }
        i += 1;
    }
    if count == 1 {
        match found {
            Some(f) => {
                proof {
                    assert forall|j: int| 0 <= j < n && j != f implies !is_main(#[trigger] source_files@[j]) by {
                        if j > f && is_main(source_files@[j]) {
                            lemma_main_count_unique(source_files@, n as int, f as int, j);
                        }
                    }
                    let c = choose|i: int| 0 <= i < source_files@.len() && is_main(source_files@[i]);
                    assert(c == f as int);
                }
                return Ok(f);
            },
            None => {
                proof {
                    lemma_main_count_zero(source_files@, n as int);
                }
                return Err(RunnableSourceError::NoMain);
            },
        }
    }
    Err(RunnableSourceError::NoMain)
}

/// The markers that let a feature name or value change a package's trust
/// boundary.
pub open spec fn has_boundary_marker(l: Seq<char>) -> bool {
    ||| contains_seq(l, "native"@)
    ||| contains_seq(l, kw_uns())
    ||| contains_seq(l, "ffi"@)
    ||| contains_seq(l, "build"@)
    ||| contains_seq(l, "proc"@)
    ||| contains_seq(l, "macro"@)
    ||| contains_seq(l, "link"@)
}

/// A token is a boundary risk when its ASCII-lower-cased text holds a marker.
pub open spec fn token_is_boundary_risk(t: Seq<char>) -> bool {
    has_boundary_marker(ascii_lower(t))
}

fn contains_in(hay: &Vec<char>, pattern: &str) -> (r: bool)
    ensures
        r == contains_seq(hay@, pattern@),
{
    let p = chars_of(pattern);
    crate::chars::contains_chars(hay.as_slice(), p.as_slice())
}

fn uns_word() -> (r: String)
    ensures
        r@ == kw_uns(),
{
    let mut w = String::new();
    push_char(&mut w, 'u');
    push_char(&mut w, 'n');
    push_char(&mut w, 's');
    push_char(&mut w, 'a');
    push_char(&mut w, 'f');
    push_char(&mut w, 'e');
    assert(w@ =~= kw_uns());
    w
}

/// Whether a feature name or value may change the package's trust boundary.
pub fn package_feature_token_is_boundary_risk(token: &str) -> (r: bool)
    ensures
        r == token_is_boundary_risk(token@),
{
    let l = ascii_lowercase_chars(token);
    let uns = uns_word();
    contains_in(&l, "native") || contains_in(&l, uns.as_str()) || contains_in(&l, "ffi") || contains_in(
        &l,
        "build",
    ) || contains_in(&l, "proc") || contains_in(&l, "macro") || contains_in(&l, "link")
}

/// Whether a feature, by its name or one of its values, may change the
/// package's trust boundary.
pub fn package_feature_may_change_boundary_risk(name: &str, values: &Vec<String>) -> (r: bool)
    ensures
        r == (token_is_boundary_risk(name@) || exists|i: int|
            0 <= i < values@.len() && token_is_boundary_risk(#[trigger] values@[i]@)),
{
    if package_feature_token_is_boundary_risk(name) {
        return true;
    }
    let mut i: usize = 0;
    while i < values.len()
        invariant
            i <= values@.len(),
            forall|j: int| 0 <= j < i ==> !token_is_boundary_risk(#[trigger] values@[j]@),
        decreases values.len() - i,
    {
        if package_feature_token_is_boundary_risk(values[i].as_str()) {
            return true;
        }
        i += 1;
    }
    false
}

/// The values joined with `, `.
pub open spec fn joined(vs: Seq<Seq<char>>) -> Seq<char>
    decreases vs.len(),
{
    if vs.len() == 0 {
        Seq::empty()
    } else if vs.len() == 1 {
        vs[0]
    } else {
        joined(vs.drop_last()) + ", "@ + vs.last()
    }
}

/// How a feature's values are shown: `[]` when there are none, else the
/// values joined with `, `.
pub open spec fn values_label(vs: Seq<Seq<char>>) -> Seq<char> {
    if vs.len() == 0 {
        "[]"@
    } else {
        joined(vs)
    }
}

/// The label of a feature's values.
pub fn feature_values_label(values: &Vec<String>) -> (r: String)
    ensures
        r@ == values_label(values@.map_values(|v: String| v@)),
{
    let ghost vs = values@.map_values(|v: String| v@);
    if values.len() == 0 {
        return "[]".to_string();
    }
    let mut out = values[0].clone();
    assert(vs.take(1).drop_last() == Seq::<Seq<char>>::empty());
    let mut i: usize = 1;
    while i < values.len()
        invariant
            vs == values@.map_values(|v: String| v@),
            1 <= i <= values@.len(),
            out@ == joined(vs.take(i as int)),
        decreases values.len() - i,
    {
        append(&mut out, ", ");
        append(&mut out, values[i].as_str());
        assert(vs.take(i + 1).drop_last() == vs.take(i as int));
        i += 1;
    }
    assert(vs.take(values@.len() as int) == vs);
    out
}

/// How risky a package or a change to it was judged.
#[derive(Clone, Copy, Debug, PartialEq, Eq, Structural)]
pub enum PackageRisk {
    Low,
    Elevated,
    High,
    Unknown,
}

impl PackageRisk {
    pub open spec fn label_text(self) -> Seq<char> {
        match self {
            PackageRisk::Low => "low"@,
            PackageRisk::Elevated => "elevated"@,
            PackageRisk::High => "high"@,
            PackageRisk::Unknown => "unknown"@,
        }
    }
}

/// The lower-case word for a risk level.
pub fn package_risk_label(risk: PackageRisk) -> (r: &'static str)
    ensures
        r@ == risk.label_text(),
{
    match risk {
        PackageRisk::Low => "low",
        PackageRisk::Elevated => "elevated",
        PackageRisk::High => "high",
        PackageRisk::Unknown => "unknown",
    }
}

/// What makes two diagnostics the same report: code, message and the span's
/// file, line, column and length.
pub open spec fn diag_key(d: DiagView) -> (Seq<char>, Seq<char>, Seq<char>, usize, usize, usize) {
    (d.code, d.message, d.span.file@, d.span.line, d.span.column, d.span.length)
}

/// Whether an earlier diagnostic has the same key as the one at `i`.
pub open spec fn seen_before(s: Seq<DiagView>, i: int) -> bool {
    exists|j: int| 0 <= j < i && diag_key(#[trigger] s[j]) == diag_key(s[i])
}

/// The diagnostics whose key did not occur earlier, in their order.
pub open spec fn first_occurrences(s: Seq<DiagView>) -> Seq<DiagView>
    decreases s.len(),
{
    if s.len() == 0 {
        s
    } else if seen_before(s, s.len() - 1) {
        first_occurrences(s.drop_last())
    } else {
        first_occurrences(s.drop_last()).push(s.last())
    }
}

fn same_key(a: &Diagnostic, b: &Diagnostic) -> (r: bool)
    ensures
        r == (diag_key(dview(*a)) == diag_key(dview(*b))),
{
    str_eq(a.code.as_str(), b.code.as_str()) && str_eq(a.message.as_str(), b.message.as_str()) && str_eq(
        a.span.file.as_str(),
        b.span.file.as_str(),
    ) && a.span.line == b.span.line && a.span.column == b.span.column && a.span.length == b.span.length
}

proof fn lemma_first_occurrences_step(s: Seq<DiagView>, k: int)
    requires
        0 <= k < s.len(),
    ensures
        first_occurrences(s.take(k + 1)) == if seen_before(s, k) {
            first_occurrences(s.take(k))
        } else {
            first_occurrences(s.take(k)).push(s[k])
        },
{
    let t = s.take(k + 1);
    assert(t.drop_last() == s.take(k));
    assert(seen_before(t, k) == seen_before(s, k)) by {
        if seen_before(s, k) {
            let j = choose|j: int| 0 <= j < k && diag_key(#[trigger] s[j]) == diag_key(s[k]);
            assert(t[j] == s[j]);
        }
        if seen_before(t, k) {
            let j = choose|j: int| 0 <= j < k && diag_key(#[trigger] t[j]) == diag_key(t[k]);
            assert(t[j] == s[j]);
        }
    }
}

/// Drops every diagnostic whose key an earlier one already has, keeping the
/// order of the rest.
pub fn dedup_diagnostics(diagnostics: &mut Vec<Diagnostic>)
    ensures
        dviews(final(diagnostics)@) == first_occurrences(dviews(old(diagnostics)@)),
{
    let ghost raw = diagnostics@;
    let ghost orig = dviews(raw);
    let n = diagnostics.len();
    let mut keep: Vec<bool> = Vec::new();
    let mut i: usize = 0;
    while i < n
        invariant
            n == diagnostics@.len(),
            diagnostics@ == raw,
            orig == dviews(raw),
            i <= n,
            keep@.len() == i,
            forall|k: int| 0 <= k < i ==> keep@[k] == !seen_before(orig, k),
        decreases n - i,
    {
        let mut seen = false;
        let mut j: usize = 0;
        while j < i
            invariant
                n == diagnostics@.len(),
                diagnostics@ == raw,
                orig == dviews(raw),
                j <= i < n,
                seen == exists|jj: int| 0 <= jj < j && diag_key(#[trigger] orig[jj]) == diag_key(orig[i as int]),
            decreases i - j,
        {
            assert(orig[j as int] == dview(raw[j as int]));
            assert(orig[i as int] == dview(raw[i as int]));
            if same_key(&diagnostics[j], &diagnostics[i]) {
                seen = true;
            }
            j += 1;
        }
        keep.push(!seen);
        i += 1;
    }
    let mut pending: Vec<Diagnostic> = Vec::new();
    std::mem::swap(&mut pending, diagnostics);
    let mut k: usize = 0;
    assert(orig.take(0) == Seq::<DiagView>::empty());
    while k < n
        invariant
            n == raw.len(),
            orig == dviews(raw),
            k <= n,
            keep@.len() == n,
            forall|m: int| 0 <= m < n ==> keep@[m] == !seen_before(orig, m),
            pending@ == raw.skip(k as int),
            dviews(diagnostics@) == first_occurrences(orig.take(k as int)),
        decreases n - k,
    {
        let d = pending.remove(0);
        assert(raw.skip(k as int).remove(0) == raw.skip(k + 1));
        proof {
            lemma_first_occurrences_step(orig, k as int);
        }
        if keep[k] {
            proof {
                crate::diag::lemma_dviews_push(diagnostics@, d);
            }
            diagnostics.push(d);
        }
        k += 1;
    }
    assert(orig.take(n as int) == orig);
}

proof fn lemma_kept_from_input(s: Seq<DiagView>)
    ensures
        forall|j: int|
            0 <= j < first_occurrences(s).len() ==> exists|i: int|
                0 <= i < s.len() && s[i] == #[trigger] first_occurrences(s)[j],
    decreases s.len(),
{
    if s.len() > 0 {
        let p = s.drop_last();
        let n = s.len() - 1;
        lemma_kept_from_input(p);
        let fp = first_occurrences(p);
        let fs = first_occurrences(s);
        assert forall|j: int| 0 <= j < fs.len() implies exists|i: int| 0 <= i < s.len() && s[i] == #[trigger] fs[j] by {
            if j < fp.len() {
                let i = choose|i: int| 0 <= i < p.len() && p[i] == fp[j];
                assert(s[i] == p[i]);
                assert(fs[j] == fp[j]);
            } else {
                assert(s[n] == fs[j]);
            }
        }
    }
}

proof fn lemma_kept_keys_distinct(s: Seq<DiagView>)
    ensures
        forall|a: int, b: int|
            0 <= a < b < first_occurrences(s).len() ==> diag_key(#[trigger] first_occurrences(s)[a]) != diag_key(
                #[trigger] first_occurrences(s)[b],
            ),
    decreases s.len(),
{
    if s.len() > 0 {
        let p = s.drop_last();
        let n = s.len() - 1;
        lemma_kept_keys_distinct(p);
        lemma_kept_from_input(p);
        let fp = first_occurrences(p);
        let fs = first_occurrences(s);
        if !seen_before(s, n) {
            assert forall|a: int, b: int| 0 <= a < b < fs.len() implies diag_key(#[trigger] fs[a]) != diag_key(
                #[trigger] fs[b],
            ) by {
                assert(fs[a] == fp[a]);
                if b < fp.len() {
                    assert(fs[b] == fp[b]);
                } else {
                    let i = choose|i: int| 0 <= i < p.len() && p[i] == fp[a];
                    assert(s[i] == p[i]);
                    if diag_key(fs[a]) == diag_key(fs[b]) {
                        assert(diag_key(s[i]) == diag_key(s[n]));
                        assert(seen_before(s, n));
                    }
                }
            }
        }
    }
}

proof fn lemma_every_key_kept(s: Seq<DiagView>)
    ensures
        forall|i: int|
            0 <= i < s.len() ==> exists|j: int|
                #![trigger first_occurrences(s)[j]]
                0 <= j < first_occurrences(s).len() && diag_key(first_occurrences(s)[j]) == diag_key(#[trigger] s[i]),
    decreases s.len(),
{
    if s.len() > 0 {
        let p = s.drop_last();
        let n = s.len() - 1;
        lemma_every_key_kept(p);
        let fp = first_occurrences(p);
        let fs = first_occurrences(s);
        assert forall|i: int| 0 <= i < s.len() implies exists|j: int|
            0 <= j < fs.len() && diag_key(fs[j]) == diag_key(#[trigger] s[i]) by {
            if i < n {
                assert(s[i] == p[i]);
                let j = choose|j: int| 0 <= j < fp.len() && diag_key(fp[j]) == diag_key(#[trigger] p[i]);
                assert(fs[j] == fp[j]);
            } else if seen_before(s, n) {
                let k = choose|k: int| 0 <= k < n && diag_key(#[trigger] s[k]) == diag_key(s[n]);
                assert(s[k] == p[k]);
                let j = choose|j: int| 0 <= j < fp.len() && diag_key(fp[j]) == diag_key(#[trigger] p[k]);
                assert(fs[j] == fp[j]);
            } else {
                assert(fs[fp.len() as int] == s[i]);
            }
        }
    }
}

/// Deduplication keeps one diagnostic per key: the kept diagnostics all come
/// from the input, no two of them share a key, and every key of the input is
/// kept.
pub proof fn law_dedup_keeps_one_per_key(s: Seq<DiagView>)
    ensures
        forall|j: int|
            0 <= j < first_occurrences(s).len() ==> exists|i: int|
                0 <= i < s.len() && s[i] == #[trigger] first_occurrences(s)[j],
        forall|a: int, b: int|
            0 <= a < b < first_occurrences(s).len() ==> diag_key(#[trigger] first_occurrences(s)[a]) != diag_key(
                #[trigger] first_occurrences(s)[b],
            ),
        forall|i: int|
            0 <= i < s.len() ==> exists|j: int|
                #![trigger first_occurrences(s)[j]]
                0 <= j < first_occurrences(s).len() && diag_key(first_occurrences(s)[j]) == diag_key(#[trigger] s[i]),
{
    lemma_every_key_kept(s);
    lemma_kept_from_input(s);
    lemma_kept_keys_distinct(s);
    let fs = first_occurrences(s);
    assert forall|i: int| 0 <= i < s.len() implies exists|j: int|
        0 <= j < fs.len() && diag_key(#[trigger] fs[j]) == diag_key(#[trigger] s[i]) by {
        let w = choose|j: int| #![trigger first_occurrences(s)[j]]
            0 <= j < first_occurrences(s).len() && diag_key(first_occurrences(s)[j]) == diag_key(s[i]);
        assert(0 <= w < fs.len());
        assert(diag_key(fs[w]) == diag_key(s[i]));
    }
}

/// The directory entries a package file scan passes over: build output,
/// VCS metadata, Finder files and the lock file.
pub open spec fn skipped_entry(name: Seq<char>) -> bool {
    name == "target"@ || name == ".git"@ || name == ".DS_Store"@ || name == "Cargo.lock"@
}

/// Whether a package file scan skips the entry with this name.
pub fn is_skipped_package_entry(name: &str) -> (r: bool)
    ensures
        r == skipped_entry(name@),
{
    str_eq(name, "target") || str_eq(name, ".git") || str_eq(name, ".DS_Store") || str_eq(name, "Cargo.lock")
}

/// A feature token that names, in any letter case, `native`, `unsafe`,
/// `ffi`, `build`, `proc`, `macro` or `link` is a boundary risk (so `ffi`,
/// `FFI` and `native-ffi` all are), and no other token is.
pub proof fn law_boundary_risk_markers(t: Seq<char>)
    ensures
        contains_seq(ascii_lower(t), "native"@) ==> token_is_boundary_risk(t),
        contains_seq(ascii_lower(t), kw_uns()) ==> token_is_boundary_risk(t),
        contains_seq(ascii_lower(t), "ffi"@) ==> token_is_boundary_risk(t),
        contains_seq(ascii_lower(t), "build"@) ==> token_is_boundary_risk(t),
        contains_seq(ascii_lower(t), "proc"@) ==> token_is_boundary_risk(t),
        contains_seq(ascii_lower(t), "macro"@) ==> token_is_boundary_risk(t),
        contains_seq(ascii_lower(t), "link"@) ==> token_is_boundary_risk(t),
        token_is_boundary_risk(t) ==> (contains_seq(ascii_lower(t), "native"@) || contains_seq(ascii_lower(t), kw_uns())
            || contains_seq(ascii_lower(t), "ffi"@) || contains_seq(ascii_lower(t), "build"@) || contains_seq(
            ascii_lower(t),
            "proc"@,
        ) || contains_seq(ascii_lower(t), "macro"@) || contains_seq(ascii_lower(t), "link"@)),
{
}

} // verus!
