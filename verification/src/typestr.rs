//! Rendered type names (`List<Int>`, `owned Fn(read Int) -> Int`) and the
//! structural comparisons the call checker performs on them.
use vstd::prelude::*;
use crate::chars::{
    chars_of, eq_chars, find_from, has_prefix_at, is_ws, skip_ws, slice_range, strip_prefix, strip_prefix_chars, trim,
    trim_end, trim_range, trim_start, trimmed,
};

verus! {

// ---------------------------------------------------------------------------
// Top-level splitting
// ---------------------------------------------------------------------------

/// Nesting effect of the character at `j`: `<` and `(` open, `)` and a `>`
/// that is not the tail of an `->` arrow close.
pub open spec fn delta(s: Seq<char>, j: int) -> int {
    if s[j] == '<' || s[j] == '(' {
        1
    } else if s[j] == ')' || (s[j] == '>' && !(j > 0 && s[j - 1] == '-')) {
        -1
    } else {
        0
    }
}

/// Nesting depth in front of position `i`.
pub open spec fn depth(s: Seq<char>, i: int) -> int
    decreases i,
{
    if i <= 0 {
        0
    } else {
        depth(s, i - 1) + delta(s, i - 1)
    }
}

/// A `,` at nesting depth zero separates top-level type arguments.
pub open spec fn is_sep(s: Seq<char>, j: int) -> bool {
    s[j] == ',' && depth(s, j) == 0
}

/// The trimmed top-level pieces of `s` from the piece starting at `start`,
/// having scanned up to `i`.
pub open spec fn split_from(s: Seq<char>, start: int, i: int) -> Seq<Seq<char>>
    decreases s.len() - i,
{
    if i >= s.len() || i < start || start < 0 {
        seq![trim(s.subrange(start, s.len() as int))]
    } else if is_sep(s, i) {
        seq![trim(s.subrange(start, i))] + split_from(s, i + 1, i + 1)
    } else {
        split_from(s, start, i + 1)
    }
}

/// `a, List<b, c>, Fn(d) -> e` splits into `a`, `List<b, c>`, `Fn(d) -> e`.
pub open spec fn split_top(s: Seq<char>) -> Seq<Seq<char>> {
    split_from(s, 0, 0)
}

pub open spec fn views(v: Seq<Vec<char>>) -> Seq<Seq<char>> {
    v.map_values(|p: Vec<char>| p@)
}

pub proof fn lemma_trim_start_shorter(s: Seq<char>)
    ensures
        trim_start(s).len() <= s.len(),
    decreases s.len(),
{
    if s.len() > 0 && is_ws(s[0]) {
        lemma_trim_start_shorter(s.drop_first());
    }
}

pub proof fn lemma_trim_end_shorter(s: Seq<char>)
    ensures
        trim_end(s).len() <= s.len(),
    decreases s.len(),
{
    if s.len() > 0 && is_ws(s.last()) {
        lemma_trim_end_shorter(s.drop_last());
    }
}

pub proof fn lemma_trim_shorter(s: Seq<char>)
    ensures
        trim(s).len() <= s.len(),
{
    lemma_trim_start_shorter(s);
    lemma_trim_end_shorter(trim_start(s));
}

/// Splits `v[lo..hi]` at its top-level commas, trimming each piece.
pub fn split_top_range(v: &[char], lo: usize, hi: usize) -> (r: Vec<Vec<char>>)
    requires
        lo <= hi <= v@.len(),
    ensures
        views(r@) == split_top(v@.subrange(lo as int, hi as int)),
{
    let ghost s = v@.subrange(lo as int, hi as int);
    let mut pieces: Vec<Vec<char>> = Vec::new();
    let mut start = lo;
    let mut i = lo;
    let mut opens: usize = 0;
    let mut closes: usize = 0;
    while i < hi
        invariant
            lo <= start <= i <= hi <= v@.len(),
            s == v@.subrange(lo as int, hi as int),
            opens <= i - lo,
            closes <= i - lo,
            opens - closes == depth(s, i - lo),
            views(pieces@) + split_from(s, start - lo, i - lo) == split_top(s),
        decreases hi - i,
    {
        let c = v[i];
        let ghost j = i - lo;
        assert(s[j] == c);
        if c == ',' && opens == closes {
            let (a, b) = trim_range(v, start, i);
            let piece = slice_range(v, a, b);
            assert(s.subrange(start - lo, j) == v@.subrange(start as int, i as int));
            proof {
                let old_pieces = views(pieces@);
                assert(split_from(s, start - lo, j) == seq![trim(s.subrange(start - lo, j))]
                    + split_from(s, j + 1, j + 1));
            }
            let ghost before = views(pieces@);
            pieces.push(piece);
            assert(views(pieces@) == before.push(piece@));
            start = i + 1;
        }
        if c == '<' || c == '(' {
            opens += 1;
        } else if c == ')' || (c == '>' && !(i > lo && v[i - 1] == '-')) {
            closes += 1;
        }
        proof {
            if j > 0 {
                assert(s[j - 1] == v@[i - 1]);
            }
        }
        i += 1;
    }
    let (a, b) = trim_range(v, start, hi);
    let piece = slice_range(v, a, b);
    assert(s.subrange(start - lo, hi - lo) == v@.subrange(start as int, hi as int));
    let ghost before = views(pieces@);
    pieces.push(piece);
    assert(views(pieces@) == before.push(piece@));
    pieces
}

// ---------------------------------------------------------------------------
// Roots, arguments and prefixes
// ---------------------------------------------------------------------------

/// The root of a type name: `List` for `List<Int>`.
pub open spec fn type_root(s: Seq<char>) -> Seq<char> {
    let t = trim(s);
    trim(t.take(find_from(t, '<', 0)))
}

/// The top-level type arguments: `Some([Int, String])` for `Result<Int, String>`,
/// `None` when the name carries no `<...>` suffix.
pub open spec fn type_args(s: Seq<char>) -> Option<Seq<Seq<char>>> {
    let t = trim(s);
    let k = find_from(t, '<', 0);
    if k < t.len() && t.last() == '>' {
        Some(split_top(t.subrange(k + 1, t.len() - 1)))
    } else {
        None
    }
}

/// A type name without a leading `fresh ` marker.
pub open spec fn strip_fresh(s: Seq<char>) -> Seq<char> {
    let t = trim(s);
    match strip_prefix(t, "fresh "@) {
        Some(rest) => trim(rest),
        None => t,
    }
}

/// The target of a `fresh T` type name.
pub open spec fn fresh_target(s: Seq<char>) -> Option<Seq<char>> {
    match strip_prefix(trim(s), "fresh "@) {
        Some(rest) => Some(trim(rest)),
        None => None,
    }
}

/// Position-finding helper: first index at or after `from` that is not whitespace.
pub open spec fn ws_skip(s: Seq<char>, from: int) -> int
    decreases s.len() - from,
{
    if from >= 0 && from < s.len() && is_ws(s[from]) {
        ws_skip(s, from + 1)
    } else {
        from
    }
}

pub proof fn lemma_find_from(s: Seq<char>, c: char, i: int)
    requires
        0 <= i,
    ensures
        i <= find_from(s, c, i) <= s.len() || (i > s.len() && find_from(s, c, i) == s.len()),
        find_from(s, c, i) < s.len() ==> s[find_from(s, c, i)] == c,
        forall|j: int| i <= j < find_from(s, c, i) ==> s[j] != c,
    decreases s.len() - i,
{
    if i < s.len() && s[i] != c {
        lemma_find_from(s, c, i + 1);
    }
}

pub fn find_char(v: &[char], c: char, from: usize) -> (k: usize)
    requires
        from <= v@.len(),
    ensures
        k as int == find_from(v@, c, from as int),
        from <= k <= v@.len(),
{
    let mut k = from;
    while k < v.len() && v[k] != c
        invariant
            from <= k <= v@.len(),
            find_from(v@, c, from as int) == find_from(v@, c, k as int),
        decreases v.len() - k,
    {
        k += 1;
    }
    k
}

pub fn type_root_chars(v: &[char]) -> (r: Vec<char>)
    ensures
        r@ == type_root(v@),
{
    let t = trimmed(v);
    let k = find_char(&t, '<', 0);
    let (a, b) = trim_range(&t, 0, k);
    assert(t@.take(k as int) == t@.subrange(0, k as int));
    slice_range(&t, a, b)
}

pub fn type_args_chars(v: &[char]) -> (r: Option<Vec<Vec<char>>>)
    ensures
        match type_args(v@) {
            Some(args) => r is Some && views(r->0@) == args,
            None => r is None,
        },
{
    let t = trimmed(v);
    let k = find_char(&t, '<', 0);
    if k < t.len() && t[t.len() - 1] == '>' {
        assert(t@.last() == t@[t@.len() - 1]);
        assert(k + 1 <= t.len() - 1) by {
            lemma_find_from(t@, '<', 0);
            if k == t@.len() - 1 {
                assert(t@[k as int] == '<');
            }
        }
        Some(split_top_range(&t, k + 1, t.len() - 1))
    } else {
        proof {
            if k < t@.len() {
                assert(t@.last() == t@[t@.len() - 1]);
            }
        }
        None
    }
}

pub fn strip_fresh_chars(v: &[char]) -> (r: Vec<char>)
    ensures
        r@ == strip_fresh(v@),
{
    let t = trimmed(v);
    let p = chars_of("fresh ");
    match strip_prefix_chars(&t, &p) {
        Some(rest) => trimmed(&rest),
        None => t,
    }
}

pub fn fresh_target_chars(v: &[char]) -> (r: Option<Vec<char>>)
    ensures
        match fresh_target(v@) {
            Some(x) => r is Some && r->0@ == x,
            None => r is None,
        },
{
    let t = trimmed(v);
    let p = chars_of("fresh ");
    match strip_prefix_chars(&t, &p) {
        Some(rest) => Some(trimmed(&rest)),
        None => None,
    }
}

// ---------------------------------------------------------------------------
// Function types
// ---------------------------------------------------------------------------

/// The callable prefix of a `Fn` type name: 0 none, 1 `owned`, 2 `noescape`.
pub open spec fn fn_prefix_kind(s: Seq<char>) -> int {
    let t = trim(s);
    let a = trim_start(
        match strip_prefix(t, "fresh "@) {
            Some(r) => r,
            None => t,
        },
    );
    if strip_prefix(a, "owned "@) is Some {
        1
    } else if strip_prefix(a, "noescape "@) is Some {
        2
    } else {
        0
    }
}

/// The text after the callable prefix: `Fn(Int) -> Int` for `owned Fn(Int) -> Int`.
pub open spec fn fn_body_text(s: Seq<char>) -> Seq<char> {
    let t = trim(s);
    let a = trim_start(
        match strip_prefix(t, "fresh "@) {
            Some(r) => r,
            None => t,
        },
    );
    trim_start(
        match strip_prefix(a, "owned "@) {
            Some(r) => r,
            None => match strip_prefix(a, "noescape "@) {
                Some(r) => r,
                None => a,
            },
        },
    )
}

/// Whether the name is a function type.
pub open spec fn is_fn_type(s: Seq<char>) -> bool {
    strip_prefix(fn_body_text(s), "Fn("@) is Some
}

/// Nesting effect used when closing a function parameter list (arrows are
/// not distinguished here).
pub open spec fn paren_delta(c: char) -> int {
    if c == '(' || c == '<' {
        1
    } else if c == ')' || c == '>' {
        -1
    } else {
        0
    }
}

/// Depth after scanning `inner[0..i]`, starting from one open parenthesis.
pub open spec fn paren_depth(inner: Seq<char>, i: int) -> int
    decreases i,
{
    if i <= 0 {
        1
    } else {
        paren_depth(inner, i - 1) + paren_delta(inner[i - 1])
    }
}

/// Index in `inner` of the parenthesis that closes the parameter list.
pub open spec fn close_index(inner: Seq<char>, i: int) -> Option<int>
    decreases inner.len() - i,
{
    if i < 0 || i >= inner.len() {
        None
    } else if paren_depth(inner, i + 1) == 0 {
        Some(i)
    } else {
        close_index(inner, i + 1)
    }
}

/// The text following `Fn(` in a function type name.
pub open spec fn fn_inner(s: Seq<char>) -> Seq<char> {
    match strip_prefix(fn_body_text(s), "Fn("@) {
        Some(r) => r,
        None => seq![],
    }
}

/// The top-level parameter slices of a `Fn(...)` type name:
/// `owned Fn(read UOp, mut Ctx) -> Option<UOp>` gives `read UOp` and `mut Ctx`.
pub open spec fn fn_type_params(s: Seq<char>) -> Option<Seq<Seq<char>>> {
    if !is_fn_type(s) {
        None
    } else {
        let inner = fn_inner(s);
        match close_index(inner, 0) {
            None => None,
            Some(end) => {
                let params = inner.take(end);
                if trim(params).len() == 0 {
                    Some(seq![])
                } else {
                    Some(split_top(params))
                }
            },
        }
    }
}

/// The return type of a `Fn(...) -> R` type name.
pub open spec fn fn_return(s: Seq<char>) -> Option<Seq<char>> {
    if !is_fn_type(s) {
        None
    } else {
        let inner = fn_inner(s);
        match close_index(inner, 0) {
            None => None,
            Some(end) => match strip_prefix(trim_start(inner.skip(end + 1)), "->"@) {
                Some(r) => Some(trim(r)),
                None => None,
            },
        }
    }
}

/// A parameter slice with an explicit `read` removed, so `read Int` and an
/// omitted effect compare equal.
pub open spec fn normalize_read(p: Seq<char>) -> Seq<char> {
    match strip_prefix(p, "read "@) {
        Some(r) => trim(r),
        None => p,
    }
}

/// Exec counterpart of `fn_body_text`, also reporting the prefix kind.
pub fn fn_body_chars(v: &[char]) -> (r: (Vec<char>, u8))
    ensures
        r.0@ == fn_body_text(v@),
        r.1 as int == fn_prefix_kind(v@),
{
    let t = trimmed(v);
    let fresh = chars_of("fresh ");
    let a0 = match strip_prefix_chars(&t, &fresh) {
        Some(r) => r,
        None => t,
    };
    let k = skip_ws(&a0, 0);
    assert(a0@.skip(0) == a0@);
    let a = slice_range(&a0, k, a0.len());
    assert(a@ == a0@.skip(k as int));
    let owned = chars_of("owned ");
    let noescape = chars_of("noescape ");
    let (b, kind) = match strip_prefix_chars(&a, &owned) {
        Some(r) => (r, 1u8),
        None => match strip_prefix_chars(&a, &noescape) {
            Some(r) => (r, 2u8),
            None => (slice_range(&a, 0, a.len()), 0u8),
        },
    };
    assert(a@.subrange(0, a@.len() as int) == a@);
    let k2 = skip_ws(&b, 0);
    assert(b@.skip(0) == b@);
    (slice_range(&b, k2, b.len()), kind)
}

pub fn is_fn_type_chars(v: &[char]) -> (r: bool)
    ensures
        r == is_fn_type(v@),
{
    let (body, _) = fn_body_chars(v);
    let p = chars_of("Fn(");
    assert(body@.skip(0) == body@);
    has_prefix_at(&body, 0, &p)
}

pub proof fn lemma_close_index_bounds(inner: Seq<char>, i: int)
    requires
        0 <= i,
    ensures
        close_index(inner, i) matches Some(e) ==> i <= e < inner.len(),
    decreases inner.len() - i,
{
    if i < inner.len() && paren_depth(inner, i + 1) != 0 {
        lemma_close_index_bounds(inner, i + 1);
    }
}

/// Position of the parameter-list close in `inner`, scanning from the start.
pub fn close_index_chars(inner: &[char]) -> (r: Option<usize>)
    ensures
        match close_index(inner@, 0) {
            Some(e) => r is Some && r->0 as int == e,
            None => r is None,
        },
{
    let mut i: usize = 0;
    let mut extra: usize = 0;
    let mut closes: usize = 0;
    while i < inner.len()
        invariant
            i <= inner@.len(),
            extra <= i,
            closes <= i,
            extra + 1 - closes == paren_depth(inner@, i as int),
            close_index(inner@, 0) == close_index(inner@, i as int),
            extra + 1 - closes > 0,
        decreases inner.len() - i,
    {
        let c = inner[i];
        if c == '(' || c == '<' {
            extra += 1;
        } else if c == ')' || c == '>' {
            closes += 1;
        }
        if closes > 0 && closes - 1 == extra {
            return Some(i);
        }
        i += 1;
    }
    None
}

pub fn fn_type_params_chars(v: &[char]) -> (r: Option<Vec<Vec<char>>>)
    ensures
        match fn_type_params(v@) {
            Some(ps) => r is Some && views(r->0@) == ps,
            None => r is None,
        },
{
    let (body, _) = fn_body_chars(v);
    let fnp = chars_of("Fn(");
    let inner = match strip_prefix_chars(&body, &fnp) {
        Some(r) => r,
        None => return None,
    };
    proof {
        lemma_close_index_bounds(inner@, 0);
    }
    match close_index_chars(&inner) {
        None => None,
        Some(end) => {
            let (a, b) = trim_range(&inner, 0, end);
            assert(inner@.take(end as int) == inner@.subrange(0, end as int));
            if a == b {
                let empty: Vec<Vec<char>> = Vec::new();
                assert(views(empty@) =~= seq![]);
                Some(empty)
            } else {
                Some(split_top_range(&inner, 0, end))
            }
        },
    }
}

pub fn fn_return_chars(v: &[char]) -> (r: Option<Vec<char>>)
    ensures
        match fn_return(v@) {
            Some(x) => r is Some && r->0@ == x,
            None => r is None,
        },
{
    let (body, _) = fn_body_chars(v);
    let fnp = chars_of("Fn(");
    let inner = match strip_prefix_chars(&body, &fnp) {
        Some(r) => r,
        None => return None,
    };
    proof {
        lemma_close_index_bounds(inner@, 0);
    }
    match close_index_chars(&inner) {
        None => None,
        Some(end) => {
            assert(end < inner.len());
            let k = skip_ws(&inner, end + 1);
            let rest = slice_range(&inner, k, inner.len());
            assert(rest@ == inner@.skip(k as int));
            let arrow = chars_of("->");
            match strip_prefix_chars(&rest, &arrow) {
                Some(r) => Some(trimmed(&r)),
                None => None,
            }
        },
    }
}

pub fn normalize_read_chars(p: &[char]) -> (r: Vec<char>)
    ensures
        r@ == normalize_read(p@),
{
    let read = chars_of("read ");
    match strip_prefix_chars(p, &read) {
        Some(r) => trimmed(&r),
        None => slice_range(p, 0, p.len()),
    }
}


// ---------------------------------------------------------------------------
// Structural compatibility of rendered types
// ---------------------------------------------------------------------------

/// Parameter types of a function type with an explicit `read` normalized away.
pub open spec fn fn_param_types(s: Seq<char>) -> Seq<Seq<char>> {
    match fn_type_params(s) {
        Some(ps) => ps.map_values(|p: Seq<char>| normalize_read(p)),
        None => seq![],
    }
}

/// Whether an argument of type `actual` is accepted where `expected` is
/// declared. A component is always shorter than the whole name; the length
/// guards make that visible to the termination measure.
pub open spec fn arg_matches(e: Seq<char>, a: Seq<char>) -> bool
    decreases e.len(), 2nat, 0nat,
{
    ||| e == a
    ||| e == "Self"@
    ||| strip_fresh(e) == strip_fresh(a)
    ||| fn_matches(e, a)
    ||| (type_root(e) == type_root(a) && match (type_args(e), type_args(a)) {
        (Some(ea), Some(aa)) => ea.len() == aa.len() && list_match(ea, aa, ea.len() as int, e.len()),
        _ => false,
    })
    ||| (a == "Option<?>"@ && type_root(e) == "Option"@)
    ||| (a == "Result<?>"@ && type_root(e) == "Result"@)
}

/// The first `k` pairs of `es`/`as_` match pairwise.
pub open spec fn list_match(es: Seq<Seq<char>>, as_: Seq<Seq<char>>, k: int, bound: nat) -> bool
    decreases bound, 0nat, k,
{
    if k <= 0 {
        true
    } else {
        list_match(es, as_, k - 1, bound) && k - 1 < es.len() && k - 1 < as_.len() && es[k
            - 1].len() < bound && arg_matches(es[k - 1], as_[k - 1])
    }
}

/// Function types match when their callable prefixes agree and parameter
/// and return types match after normalizing an omitted `read`.
pub open spec fn fn_matches(e: Seq<char>, a: Seq<char>) -> bool
    decreases e.len(), 1nat, 0nat,
{
    let ep = fn_param_types(e);
    let ap = fn_param_types(a);
    &&& is_fn_type(e)
    &&& is_fn_type(a)
    &&& fn_prefix_kind(e) == fn_prefix_kind(a)
    &&& ep.len() == ap.len()
    &&& list_match(ep, ap, ep.len() as int, e.len())
    &&& match (fn_return(e), fn_return(a)) {
        (Some(er), Some(ar)) => er.len() < e.len() && arg_matches(er, ar),
        (None, None) => true,
        _ => false,
    }
}

pub fn eq_literal(v: &[char], lit: &str) -> (r: bool)
    ensures
        r == (v@ == lit@),
{
    let l = chars_of(lit);
    eq_chars(v, &l)
}

fn list_match_exec(es: &Vec<Vec<char>>, as_: &Vec<Vec<char>>, bound: usize) -> (r: bool)
    requires
        es@.len() == as_@.len(),
    ensures
        r == list_match(views(es@), views(as_@), es@.len() as int, bound as nat),
    decreases bound, 0nat, es@.len(),
{
    let ghost ev = views(es@);
    let ghost av = views(as_@);
    let mut k: usize = 0;
    while k < es.len()
        invariant
            k <= es@.len() == as_@.len(),
            ev == views(es@),
            av == views(as_@),
            list_match(ev, av, k as int, bound as nat),
        decreases es.len() - k,
    {
        assert(ev[k as int] == es@[k as int]@);
        assert(av[k as int] == as_@[k as int]@);
        if es[k].len() >= bound {
            assert(!list_match(ev, av, k + 1, bound as nat));
            proof { lemma_list_match_prefix(ev, av, k + 1, es@.len() as int, bound as nat); }
            return false;
        }
        if !argument_type_matches_chars(&es[k], &as_[k]) {
            proof { lemma_list_match_prefix(ev, av, k + 1, es@.len() as int, bound as nat); }
            return false;
        }
        k += 1;
    }
    true
}

/// A failing prefix fails every longer list.
pub proof fn lemma_list_match_prefix(es: Seq<Seq<char>>, as_: Seq<Seq<char>>, k: int, n: int, bound: nat)
    requires
        k <= n,
        !list_match(es, as_, k, bound),
    ensures
        !list_match(es, as_, n, bound),
    decreases n - k,
{
    if k < n {
        lemma_list_match_prefix(es, as_, k, n - 1, bound);
    }
}

pub fn function_type_matches_chars(e: &Vec<char>, a: &Vec<char>) -> (r: bool)
    ensures
        r == fn_matches(e@, a@),
    decreases e@.len(), 1nat, 0nat,
{
    if !is_fn_type_chars(e) || !is_fn_type_chars(a) {
        return false;
    }
    let (_, ek) = fn_body_chars(e);
    let (_, ak) = fn_body_chars(a);
    if ek != ak {
        return false;
    }
    let ep = fn_param_types_chars(e);
    let ap = fn_param_types_chars(a);
    if ep.len() != ap.len() {
        return false;
    }
    if !list_match_exec(&ep, &ap, e.len()) {
        return false;
    }
    match (fn_return_chars(e), fn_return_chars(a)) {
        (Some(er), Some(ar)) => er.len() < e.len() && argument_type_matches_chars(&er, &ar),
        (None, None) => true,
        _ => false,
    }
}

pub fn fn_param_types_chars(v: &Vec<char>) -> (r: Vec<Vec<char>>)
    ensures
        views(r@) == fn_param_types(v@),
{
    match fn_type_params_chars(v) {
        Some(ps) => {
            let mut out: Vec<Vec<char>> = Vec::new();
            let mut i: usize = 0;
            while i < ps.len()
                invariant
                    i <= ps@.len(),
                    views(out@) == views(ps@).take(i as int).map_values(
                        |p: Seq<char>| normalize_read(p),
                    ),
                decreases ps.len() - i,
            {
                let n = normalize_read_chars(&ps[i]);
                let ghost before = views(out@);
                out.push(n);
                assert(views(out@) == before.push(n@));
                assert(views(ps@).take(i + 1) == views(ps@).take(i as int).push(ps@[i as int]@));
                assert(views(out@) =~= views(ps@).take(i + 1).map_values(
                    |p: Seq<char>| normalize_read(p),
                ));
                i += 1;
            }
            assert(views(ps@).take(ps@.len() as int) == views(ps@));
            out
        },
        None => {
            let out: Vec<Vec<char>> = Vec::new();
            assert(views(out@) =~= seq![]);
            out
        },
    }
}

pub fn argument_type_matches_chars(e: &Vec<char>, a: &Vec<char>) -> (r: bool)
    ensures
        r == arg_matches(e@, a@),
    decreases e@.len(), 2nat, 0nat,
{
    if eq_chars(e, a) {
        return true;
    }
    if eq_literal(e, "Self") {
        return true;
    }
    if eq_chars(&strip_fresh_chars(e), &strip_fresh_chars(a)) {
        return true;
    }
    if function_type_matches_chars(e, a) {
        return true;
    }
    if eq_chars(&type_root_chars(e), &type_root_chars(a)) {
        match (type_args_chars(e), type_args_chars(a)) {
            (Some(ea), Some(aa)) => {
                if ea.len() == aa.len() && list_match_exec(&ea, &aa, e.len()) {
                    return true;
                }
            },
            _ => {},
        }
    }
    if eq_literal(a, "Option<?>") {
        proof {
            reveal_strlit("Option<?>");
            reveal_strlit("Result<?>");
            assert("Option<?>"@[0] != "Result<?>"@[0]);
        }
        return eq_chars(&type_root_chars(e), &chars_of("Option"));
    }
    if eq_literal(a, "Result<?>") {
        return eq_chars(&type_root_chars(e), &chars_of("Result"));
    }
    false
}

/// Whether an argument whose type renders as `actual` may be passed where
/// `expected` is declared: identical names, `Self`, names equal up to a
/// `fresh` marker, matching function types, the same root with pairwise
/// matching arguments, or an untyped `Some`/`Ok` constructor.
pub fn argument_type_matches(expected: &str, actual: &str) -> (r: bool)
    ensures
        r == arg_matches(expected@, actual@),
{
    argument_type_matches_chars(&chars_of(expected), &chars_of(actual))
}

/// Whether two function type names match (see `fn_matches`).
pub fn function_type_matches(expected: &str, actual: &str) -> (r: bool)
    ensures
        r == fn_matches(expected@, actual@),
{
    function_type_matches_chars(&chars_of(expected), &chars_of(actual))
}

/// Outside the special forms (identical names, `Self`, names equal up to
/// `fresh`, function types, the untyped `Option<?>` and `Result<?>`), two
/// generic types match only when their roots are the same and they carry
/// as many type arguments: `List<Int>` never accepts a `Set<Int>`, nor
/// `Pair<A, B>` a `Pair<A>`.
pub proof fn law_generic_types_match_by_root_and_arity(e: Seq<char>, a: Seq<char>)
    requires
        e != a,
        e != "Self"@,
        strip_fresh(e) != strip_fresh(a),
        !is_fn_type(e),
        a != "Option<?>"@,
        a != "Result<?>"@,
        type_args(e) is Some,
        type_args(a) is Some,
    ensures
        arg_matches(e, a) ==> type_root(e) == type_root(a),
        arg_matches(e, a) ==> type_args(e)->0.len() == type_args(a)->0.len(),
{
}

/// A type accepts an argument of the very same type, and `Self` accepts
/// anything.
pub proof fn law_identical_and_self_types_match(e: Seq<char>, a: Seq<char>)
    ensures
        arg_matches(a, a),
        arg_matches("Self"@, a),
{
}

/// An untyped `Some`/`Ok` constructor (`Option<?>`, `Result<?>`) is
/// accepted wherever any `Option` or `Result` is expected.
pub proof fn law_untyped_constructors_match_their_family(e: Seq<char>)
    ensures
        type_root(e) == "Option"@ ==> arg_matches(e, "Option<?>"@),
        type_root(e) == "Result"@ ==> arg_matches(e, "Result<?>"@),
{
}

} // verus!
