//! Backend symbol-name projection: source-qualified RSScript names become
//! flat Rust identifiers, keywords are raw-escaped, and `#lower_name("...")`
//! pins override the projection.
use vstd::prelude::*;
use crate::chars::{chars_of, eq_chars, has_prefix, has_prefix_at, is_ascii_alpha, is_ascii_digit, push_char, string_of};
use crate::typestr::eq_literal;

verus! {

/// The word `e x t e r n`, spelled out.
pub open spec fn kw_ext() -> Seq<char> {
    seq!['e', 'x', 't', 'e', 'r', 'n']
}

/// The word `u n s a f e`, spelled out.
pub open spec fn kw_uns() -> Seq<char> {
    seq!['u', 'n', 's', 'a', 'f', 'e']
}

/// The word `s t a t i c`, spelled out.
pub open spec fn kw_sta() -> Seq<char> {
    seq!['s', 't', 'a', 't', 'i', 'c']
}

/// Strict and reserved Rust keywords (2024 edition), which cannot be used as
/// plain identifiers in generated Rust.
pub open spec fn is_rust_keyword(s: Seq<char>) -> bool {
    ||| s == "as"@ ||| s == "break"@ ||| s == "const"@ ||| s == "continue"@
    ||| s == "crate"@ ||| s == "else"@ ||| s == "enum"@ ||| s == kw_ext()
    ||| s == "false"@ ||| s == "fn"@ ||| s == "for"@ ||| s == "if"@
    ||| s == "impl"@ ||| s == "in"@ ||| s == "let"@ ||| s == "loop"@
    ||| s == "match"@ ||| s == "mod"@ ||| s == "move"@ ||| s == "mut"@
    ||| s == "pub"@ ||| s == "ref"@ ||| s == "return"@ ||| s == "self"@
    ||| s == "Self"@ ||| s == kw_sta() ||| s == "struct"@ ||| s == "super"@
    ||| s == "trait"@ ||| s == "true"@ ||| s == "type"@ ||| s == kw_uns()
    ||| s == "use"@ ||| s == "where"@ ||| s == "while"@ ||| s == "async"@
    ||| s == "await"@ ||| s == "dyn"@ ||| s == "abstract"@ ||| s == "become"@
    ||| s == "box"@ ||| s == "do"@ ||| s == "final"@ ||| s == "macro"@
    ||| s == "override"@ ||| s == "priv"@ ||| s == "typeof"@ ||| s == "unsized"@
    ||| s == "virtual"@ ||| s == "yield"@ ||| s == "try"@ ||| s == "gen"@
}

pub fn is_rust_keyword_chars(v: &[char]) -> (r: bool)
    ensures
        r == is_rust_keyword(v@),
{
    let ext = ['e', 'x', 't', 'e', 'r', 'n'];
    let uns = ['u', 'n', 's', 'a', 'f', 'e'];
    let sta = ['s', 't', 'a', 't', 'i', 'c'];
    assert(ext@ == kw_ext());
    assert(uns@ == kw_uns());
    assert(sta@ == kw_sta());
    eq_literal(v, "as") || eq_literal(v, "break") || eq_literal(v, "const") || eq_literal(
        v,
        "continue",
    ) || eq_literal(v, "crate") || eq_literal(v, "else") || eq_literal(v, "enum") || eq_chars(
        v,
        &ext,
    ) || eq_literal(v, "false") || eq_literal(v, "fn") || eq_literal(v, "for") || eq_literal(
        v,
        "if",
    ) || eq_literal(v, "impl") || eq_literal(v, "in") || eq_literal(v, "let") || eq_literal(
        v,
        "loop",
    ) || eq_literal(v, "match") || eq_literal(v, "mod") || eq_literal(v, "move") || eq_literal(
        v,
        "mut",
    ) || eq_literal(v, "pub") || eq_literal(v, "ref") || eq_literal(v, "return") || eq_literal(
        v,
        "self",
    ) || eq_literal(v, "Self") || eq_chars(v, &sta) || eq_literal(v, "struct") || eq_literal(
        v,
        "super",
    ) || eq_literal(v, "trait") || eq_literal(v, "true") || eq_literal(v, "type") || eq_chars(
        v,
        &uns,
    ) || eq_literal(v, "use") || eq_literal(v, "where") || eq_literal(v, "while") || eq_literal(
        v,
        "async",
    ) || eq_literal(v, "await") || eq_literal(v, "dyn") || eq_literal(v, "abstract")
        || eq_literal(v, "become") || eq_literal(v, "box") || eq_literal(v, "do") || eq_literal(
        v,
        "final",
    ) || eq_literal(v, "macro") || eq_literal(v, "override") || eq_literal(v, "priv")
        || eq_literal(v, "typeof") || eq_literal(v, "unsized") || eq_literal(v, "virtual")
        || eq_literal(v, "yield") || eq_literal(v, "try") || eq_literal(v, "gen")
}

/// Whether `name` is a strict or reserved Rust keyword.
pub fn is_rust_keyword_str(name: &str) -> (r: bool)
    ensures
        r == is_rust_keyword(name@),
{
    is_rust_keyword_chars(&chars_of(name))
}

/// Dotted member names are flattened: every `.` becomes `_`.
pub open spec fn flatten_dots(s: Seq<char>) -> Seq<char> {
    s.map_values(|c: char| if c == '.' { '_' } else { c })
}

/// A Rust identifier for `s`: keywords are raw-escaped with `r#`.
pub open spec fn rust_ident(s: Seq<char>) -> Seq<char> {
    if is_rust_keyword(s) {
        "r#"@ + s
    } else {
        s
    }
}

/// The backend symbol for a source-qualified name when no pin applies.
pub open spec fn default_lowered_name(s: Seq<char>) -> Seq<char> {
    rust_ident(flatten_dots(s))
}

pub fn rust_ident_chars(v: &[char]) -> (r: String)
    ensures
        r@ == rust_ident(v@),
{
    if is_rust_keyword_chars(v) {
        let mut s = "r#".to_owned();
        let mut i: usize = 0;
        while i < v.len()
            invariant
                i <= v@.len(),
                s@ == "r#"@ + v@.take(i as int),
            decreases v.len() - i,
        {
            push_char(&mut s, v[i]);
            assert(v@.take(i + 1) == v@.take(i as int).push(v@[i as int]));
            i += 1;
        }
        assert(v@.take(v@.len() as int) == v@);
        s
    } else {
        string_of(v)
    }
}

/// A Rust identifier for `name`, raw-escaping keywords.
pub fn rust_ident_str(name: &str) -> (r: String)
    ensures
        r@ == rust_ident(name@),
{
    rust_ident_chars(&chars_of(name))
}

pub fn flatten_dots_chars(v: &[char]) -> (r: Vec<char>)
    ensures
        r@ == flatten_dots(v@),
{
    let mut r: Vec<char> = Vec::new();
    let mut i: usize = 0;
    while i < v.len()
        invariant
            i <= v@.len(),
            r@ == flatten_dots(v@.take(i as int)),
        decreases v.len() - i,
    {
        let c = v[i];
        r.push(if c == '.' { '_' } else { c });
        assert(v@.take(i + 1) == v@.take(i as int).push(c));
        assert(flatten_dots(v@.take(i + 1)) =~= flatten_dots(v@.take(i as int)).push(
            if c == '.' { '_' } else { c },
        ));
        i += 1;
    }
    assert(v@.take(v@.len() as int) == v@);
    r
}

/// The backend symbol name for a source-qualified RSScript name. Dotted
/// member names are flattened and Rust keywords are raw-escaped:
/// `MultiBuffer.ref` lowers to `MultiBuffer_ref`, `gen` to `r#gen`. This is
/// the name when no `#lower_name` pin is installed; `rust_function_ident`
/// takes the installed pins and honours them.
pub fn lowered_symbol_name(qualified_name: &str) -> (r: String)
    ensures
        r@ == default_lowered_name(qualified_name@),
{
    let flat = flatten_dots_chars(&chars_of(qualified_name));
    rust_ident_chars(&flat)
}

/// The value of the last pin for `key` among `pins`, if any. A later pin
/// for the same source name replaces an earlier one.
pub open spec fn pin_lookup(pins: Seq<(Seq<char>, Seq<char>)>, key: Seq<char>) -> Option<Seq<char>>
    decreases pins.len(),
{
    if pins.len() == 0 {
        None
    } else if pins.last().0 == key {
        Some(pins.last().1)
    } else {
        pin_lookup(pins.drop_last(), key)
    }
}

pub open spec fn pin_views(pins: Seq<(String, String)>) -> Seq<(Seq<char>, Seq<char>)> {
    pins.map_values(|p: (String, String)| (p.0@, p.1@))
}

/// The pinned backend name of `source_name`, if a pin exists.
pub fn lower_name_override(pins: &Vec<(String, String)>, source_name: &str) -> (r: Option<String>)
    ensures
        match pin_lookup(pin_views(pins@), source_name@) {
            Some(v) => r is Some && r->0@ == v,
            None => r is None,
        },
{
    let key = chars_of(source_name);
    let mut i = pins.len();
    assert(pins@.take(i as int) == pins@);
    while i > 0
        invariant
            i <= pins@.len(),
            key@ == source_name@,
            pin_lookup(pin_views(pins@), source_name@) == pin_lookup(
                pin_views(pins@.take(i as int)),
                source_name@,
            ),
        decreases i,
    {
        let ghost pre = pin_views(pins@.take(i as int));
        assert(pre.last() == (pins@[i - 1].0@, pins@[i - 1].1@));
        assert(pre.drop_last() =~= pin_views(pins@.take(i - 1)));
        if eq_chars(&chars_of(pins[i - 1].0.as_str()), &key) {
            return Some(pins[i - 1].1.clone());
        }
        i -= 1;
    }
    None
}

/// The backend function identifier for `name`: a pin from `pins` when one
/// exists, otherwise the flattened, keyword-escaped name.
pub fn rust_function_ident(pins: &Vec<(String, String)>, name: &str) -> (r: String)
    ensures
        r@ == match pin_lookup(pin_views(pins@), name@) {
            Some(v) => v,
            None => default_lowered_name(name@),
        },
{
    match lower_name_override(pins, name) {
        Some(pinned) => pinned,
        None => lowered_symbol_name(name),
    }
}

/// A plain Rust identifier (usable verbatim as a pinned backend symbol):
/// non-empty, starts with an ASCII letter or `_`, continues with ASCII
/// letters, digits or `_`, and is not a keyword.
pub open spec fn is_valid_rust_identifier(s: Seq<char>) -> bool {
    &&& s.len() > 0
    &&& (is_ascii_alpha(s[0]) || s[0] == '_')
    &&& forall|i: int| 1 <= i < s.len() ==> is_ascii_alpha(#[trigger] s[i]) || is_ascii_digit(s[i]) || s[i] == '_'
    &&& !is_rust_keyword(s)
}

pub fn is_valid_rust_identifier_str(name: &str) -> (r: bool)
    ensures
        r == is_valid_rust_identifier(name@),
{
    let v = chars_of(name);
    if v.len() == 0 {
        return false;
    }
    let first = v[0];
    if !(('a' <= first && first <= 'z') || ('A' <= first && first <= 'Z') || first == '_') {
        return false;
    }
    let mut i: usize = 1;
    while i < v.len()
        invariant
            1 <= i <= v@.len(),
            v@ == name@,
            forall|j: int| 1 <= j < i ==> is_ascii_alpha(#[trigger] v@[j]) || is_ascii_digit(v@[j]) || v@[j] == '_',
        decreases v.len() - i,
    {
        let c = v[i];
        if !(('a' <= c && c <= 'z') || ('A' <= c && c <= 'Z') || ('0' <= c && c <= '9') || c == '_') {
            return false;
        }
        i += 1;
    }
    !is_rust_keyword_chars(&v)
}

/// Names the compiler generates and a declaration must not claim:
/// desugaring temporaries (`__rss_*`) and runtime helpers (`__rsscript_*`).
pub open spec fn is_reserved_generated_name(leaf: Seq<char>) -> bool {
    has_prefix(leaf, "__rss_"@) || has_prefix(leaf, "__rsscript_"@)
}

pub fn is_reserved_generated_name_str(leaf: &str) -> (r: bool)
    ensures
        r == is_reserved_generated_name(leaf@),
{
    let v = chars_of(leaf);
    assert(v@.skip(0) == v@);
    has_prefix_at(&v, 0, &chars_of("__rss_")) || has_prefix_at(&v, 0, &chars_of("__rsscript_"))
}

/// Index of the last `.` in `s`, or -1.
pub open spec fn last_dot(s: Seq<char>, i: int) -> int
    decreases i,
{
    if i <= 0 {
        -1
    } else if s[i - 1] == '.' {
        i - 1
    } else {
        last_dot(s, i - 1)
    }
}

pub proof fn lemma_last_dot(s: Seq<char>, i: int)
    requires
        0 <= i <= s.len(),
    ensures
        -1 <= last_dot(s, i) < i,
        last_dot(s, i) >= 0 ==> s[last_dot(s, i)] == '.',
        forall|j: int| last_dot(s, i) < j < i ==> s[j] != '.',
    decreases i,
{
    if i > 0 && s[i - 1] != '.' {
        lemma_last_dot(s, i - 1);
    }
}

/// `helpers.count` splits into `Some("helpers")` and `count`; a name without
/// a dot has no namespace.
pub open spec fn split_qualified(s: Seq<char>) -> (Option<Seq<char>>, Seq<char>) {
    let k = last_dot(s, s.len() as int);
    if k >= 0 {
        (Some(s.take(k)), s.skip(k + 1))
    } else {
        (None, s)
    }
}

pub fn split_qualified_name(name: &str) -> (r: (Option<String>, String))
    ensures
        r.0 is Some == split_qualified(name@).0 is Some,
        r.0 is Some ==> r.0->0@ == split_qualified(name@).0->0,
        r.1@ == split_qualified(name@).1,
{
    let v = chars_of(name);
    let mut i = v.len();
    proof { lemma_last_dot(v@, v@.len() as int); }
    while i > 0 && v[i - 1] != '.'
        invariant
            i <= v@.len(),
            v@ == name@,
            last_dot(v@, v@.len() as int) == last_dot(v@, i as int),
        decreases i,
    {
        i -= 1;
    }
    if i > 0 {
        assert(v@.take(i - 1) == v@.subrange(0, i - 1));
        assert(v@.skip(i as int) == v@.subrange(i as int, v@.len() as int));
        (Some(crate::chars::string_of_range(&v, 0, i - 1)), crate::chars::string_of_range(&v, i, v.len()))
    } else {
        (None, string_of(&v))
    }
}

/// The `#lower_name("...")` pins a list of declarations makes, as
/// (source name, pinned name), in order.
pub open spec fn item_pins(items: Seq<crate::ast::Item>) -> Seq<(Seq<char>, Seq<char>)>
    decreases items.len(),
{
    if items.len() == 0 {
        seq![]
    } else {
        let rest = item_pins(items.drop_last());
        match items.last() {
            crate::ast::Item::Function(f) => match f.lower_name {
                Some(pin) => rest.push((f.name@, pin@)),
                None => rest,
            },
            _ => rest,
        }
    }
}

/// The pins a program declares; a later pin of the same function replaces
/// an earlier one when looked up.
pub fn collect_lower_name_overrides(program: &crate::ast::Program) -> (r: Vec<(String, String)>)
    ensures
        pin_views(r@) == item_pins(program.items@),
{
    let mut r: Vec<(String, String)> = Vec::new();
    let mut i: usize = 0;
    while i < program.items.len()
        invariant
            i <= program.items@.len(),
            pin_views(r@) == item_pins(program.items@.take(i as int)),
        decreases program.items.len() - i,
    {
        assert(program.items@.take(i + 1).drop_last() == program.items@.take(i as int));
        match &program.items[i] {
            crate::ast::Item::Function(f) => match &f.lower_name {
                Some(pin) => {
                    let ghost before = r@;
                    let e = (f.name.clone(), pin.clone());
                    r.push(e);
                    assert(pin_views(r@) =~= pin_views(before).push((e.0@, e.1@)));
                },
                None => {},
            },
            _ => {},
        }
        i += 1;
    }
    assert(program.items@.take(program.items@.len() as int) == program.items@);
    r
}

/// The first position at or after `i` where a `::<` turbofish starts, or the
/// end.
pub open spec fn turbofish_at(s: Seq<char>, i: int) -> int
    decreases s.len() - i,
{
    if i >= s.len() {
        s.len() as int
    } else if has_prefix(s.skip(i), "::<"@) {
        i
    } else {
        turbofish_at(s, i + 1)
    }
}

proof fn lemma_turbofish_at(s: Seq<char>, i: int)
    requires
        0 <= i <= s.len(),
    ensures
        i <= turbofish_at(s, i) <= s.len(),
        turbofish_at(s, i) < s.len() ==> has_prefix(s.skip(turbofish_at(s, i)), "::<"@),
        forall|j: int| i <= j < turbofish_at(s, i) ==> !has_prefix(#[trigger] s.skip(j), "::<"@),
    decreases s.len() - i,
{
    if i < s.len() && !has_prefix(s.skip(i), "::<"@) {
        lemma_turbofish_at(s, i + 1);
    }
}

/// A path segment as a Rust identifier: the part before a `::<` turbofish is
/// keyword-escaped and the turbofish is kept as written.
pub open spec fn path_segment(s: Seq<char>) -> Seq<char> {
    let k = turbofish_at(s, 0);
    if k < s.len() {
        rust_ident(s.take(k)) + s.skip(k)
    } else {
        rust_ident(s)
    }
}

/// One segment of a dotted path as a Rust identifier.
pub fn rust_path_segment(segment: &str) -> (r: String)
    ensures
        r@ == path_segment(segment@),
{
    let v = chars_of(segment);
    let p = chars_of("::<");
    let mut k: usize = 0;
    proof {
        lemma_turbofish_at(v@, 0);
    }
    while k < v.len() && !has_prefix_at(&v, k, &p)
        invariant
            v@ == segment@,
            p@ == "::<"@,
            k <= v@.len(),
            turbofish_at(v@, k as int) == turbofish_at(v@, 0),
        decreases v.len() - k,
    {
        k += 1;
    }
    if k < v.len() {
        let head = crate::chars::slice_range(&v, 0, k);
        let mut out = rust_ident_chars(&head);
        let tail = crate::chars::string_of_range(&v, k, v.len());
        crate::types::append(&mut out, tail.as_str());
        assert(head@ == v@.take(k as int));
        assert(tail@ == v@.skip(k as int));
        out
    } else {
        rust_ident_chars(&v)
    }
}

/// The segments of a dotted path, as `str::split('.')` gives them.
pub open spec fn dot_segments(s: Seq<char>) -> Seq<Seq<char>>
    decreases s.len(),
{
    let k = last_dot(s, s.len() as int);
    if k >= 0 {
        proof {
            lemma_last_dot(s, s.len() as int);
        }
        dot_segments(s.take(k)).push(s.skip(k + 1))
    } else {
        seq![s]
    }
}

fn dot_segments_exec(s: &str) -> (r: Vec<String>)
    ensures
        crate::aliases::strs(r@) == dot_segments(s@),
    decreases s@.len(),
{
    let (ns, leaf) = split_qualified_name(s);
    proof {
        lemma_last_dot(s@, s@.len() as int);
    }
    match ns {
        Some(n) => {
            let mut v = dot_segments_exec(n.as_str());
            let ghost before = v@;
            v.push(leaf);
            assert(crate::aliases::strs(v@) =~= crate::aliases::strs(before).push(leaf@));
            v
        },
        None => {
            let mut v: Vec<String> = Vec::new();
            v.push(leaf);
            assert(crate::aliases::strs(v@) =~= seq![s@]);
            v
        },
    }
}

/// Path segments, each made an identifier, joined with `_`.
pub open spec fn joined_segments(segs: Seq<Seq<char>>) -> Seq<char>
    decreases segs.len(),
{
    if segs.len() == 0 {
        Seq::empty()
    } else if segs.len() == 1 {
        path_segment(segs[0])
    } else {
        joined_segments(segs.drop_last()) + "_"@ + path_segment(segs.last())
    }
}

/// The backend identifier of a function reached through a namespace, when
/// no pin applies: the namespace's segments and the function's root name,
/// each made an identifier, joined with `_`.
pub open spec fn qualified_function_ident(namespace: Seq<char>, name: Seq<char>) -> Seq<char> {
    joined_segments(dot_segments(namespace).push(crate::typestr::type_root(name)))
}

/// The backend identifier of `namespace.name`: the pin for
/// `namespace.<root of name>` when there is one, otherwise the namespace's
/// segments and the root name, each made an identifier, joined with `_`.
pub fn rust_qualified_function_ident(pins: &Vec<(String, String)>, namespace: &str, name: &str) -> (r: String)
    ensures
        r@ == match pin_lookup(pin_views(pins@), namespace@ + "."@ + crate::typestr::type_root(name@)) {
            Some(v) => v,
            None => qualified_function_ident(namespace@, name@),
        },
{
    let root_chars = crate::typestr::type_root_chars(&chars_of(name));
    let root = string_of(&root_chars);
    let mut source_name = namespace.to_owned();
    crate::types::append(&mut source_name, ".");
    crate::types::append(&mut source_name, root.as_str());
    if let Some(pinned) = lower_name_override(pins, source_name.as_str()) {
        return pinned;
    }
    let mut segments = dot_segments_exec(namespace);
    let ghost segs = crate::aliases::strs(segments@).push(root@);
    segments.push(root);
    assert(crate::aliases::strs(segments@) =~= segs);
    let mut out = String::new();
    let mut i: usize = 0;
    while i < segments.len()
        invariant
            segs == crate::aliases::strs(segments@),
            i <= segments@.len(),
            segments@.len() >= 1,
            out@ == joined_segments(segs.take(i as int)),
        decreases segments.len() - i,
    {
        assert(segs.take(i + 1).drop_last() == segs.take(i as int));
        assert(segs[i as int] == segments@[i as int]@);
        if i > 0 {
            crate::types::append(&mut out, "_");
        }
        let seg = rust_path_segment(segments[i].as_str());
        crate::types::append(&mut out, seg.as_str());
        i += 1;
    }
    assert(segs.take(segs.len() as int) == segs);
    out
}

} // verus!
