//! Derive requirements on fields: a compiler-owned derive (`Eq`, `Ord`,
//! `Hash`, `JsonEncode`, `JsonDecode`) needs every field's type to support
//! it. The verdict per type is three-valued so that only known-bad fields
//! are rejected.
use vstd::prelude::*;
use crate::aliases::{last_match, param_name_strings, param_names, strs};
use crate::ast::{FieldDecl, Item, Span, TypeKind, TypeRef, VariantDecl};
use crate::diag::{
    derive_field_code, dview, dviews, error_with_fix, lemma_dviews_push, DiagView, Diagnostic, Severity,
};
use crate::chars::{chars_of, str_eq, string_of};
use crate::typestr::{type_root, type_root_chars};
use crate::types::{append, clone_span, lemma_tviews, tview, tviews, type_name_text, type_ref_name, TypeView};

verus! {

/// Whether a field type supports a derive.
#[derive(Clone, Copy, Debug, PartialEq, Eq, Structural)]
pub enum DeriveSupport {
    Yes,
    No,
    Unknown,
}

/// The derives that impose a requirement on every field.
#[derive(Clone, Copy, Debug, PartialEq, Eq, Structural)]
pub enum FieldDerive {
    Eq,
    Ord,
    Hash,
    JsonEncode,
    JsonDecode,
}

impl FieldDerive {
    pub open spec fn text(self) -> Seq<char> {
        match self {
            FieldDerive::Eq => "Eq"@,
            FieldDerive::Ord => "Ord"@,
            FieldDerive::Hash => "Hash"@,
            FieldDerive::JsonEncode => "JsonEncode"@,
            FieldDerive::JsonDecode => "JsonDecode"@,
        }
    }

    /// The derive's name as written in a derive list.
    pub fn name(&self) -> (r: &'static str)
        ensures
            r@ == self.text(),
    {
        match self {
            FieldDerive::Eq => "Eq",
            FieldDerive::Ord => "Ord",
            FieldDerive::Hash => "Hash",
            FieldDerive::JsonEncode => "JsonEncode",
            FieldDerive::JsonDecode => "JsonDecode",
        }
    }
}

/// `No` if either side is `No`; else `Unknown` if either is `Unknown`; else
/// `Yes`.
pub open spec fn combine(l: DeriveSupport, r: DeriveSupport) -> DeriveSupport {
    if l == DeriveSupport::No || r == DeriveSupport::No {
        DeriveSupport::No
    } else if l == DeriveSupport::Unknown || r == DeriveSupport::Unknown {
        DeriveSupport::Unknown
    } else {
        DeriveSupport::Yes
    }
}

/// The verdict for two requirements that must both hold.
pub fn combine_support(left: DeriveSupport, right: DeriveSupport) -> (r: DeriveSupport)
    ensures
        r == combine(left, right),
{
    match (left, right) {
        (DeriveSupport::No, _) | (_, DeriveSupport::No) => DeriveSupport::No,
        (DeriveSupport::Unknown, _) | (_, DeriveSupport::Unknown) => DeriveSupport::Unknown,
        _ => DeriveSupport::Yes,
    }
}

/// Combining verdicts does not depend on their order or grouping; `Yes`
/// changes nothing and `No` decides.
pub proof fn lemma_combine_laws(a: DeriveSupport, b: DeriveSupport, c: DeriveSupport)
    ensures
        combine(a, b) == combine(b, a),
        combine(combine(a, b), c) == combine(a, combine(b, c)),
        combine(DeriveSupport::Yes, a) == a,
        combine(DeriveSupport::No, a) == DeriveSupport::No,
        combine(a, a) == a,
{
}

pub open spec fn has_name(ds: Seq<Seq<char>>, name: Seq<char>) -> bool {
    exists|i: int| 0 <= i < ds.len() && ds[i] == name
}

/// The derives of a list that impose a per-field requirement, in a fixed
/// order: `Ord` (which covers `Eq`) or else `Eq`, then `Hash`, `JsonEncode`
/// and `JsonDecode`. `Debug`, `Clone` and review-only markers impose none.
pub open spec fn required_derives(ds: Seq<Seq<char>>) -> Seq<FieldDerive> {
    (if has_name(ds, "Ord"@) {
        seq![FieldDerive::Ord]
    } else if has_name(ds, "Eq"@) {
        seq![FieldDerive::Eq]
    } else {
        seq![]
    }) + (if has_name(ds, "Hash"@) {
        seq![FieldDerive::Hash]
    } else {
        seq![]
    }) + (if has_name(ds, "JsonEncode"@) {
        seq![FieldDerive::JsonEncode]
    } else {
        seq![]
    }) + (if has_name(ds, "JsonDecode"@) {
        seq![FieldDerive::JsonDecode]
    } else {
        seq![]
    })
}

/// Whether `v` holds the name `name`.
pub fn contains_name(v: &Vec<String>, name: &str) -> (r: bool)
    ensures
        r == has_name(strs(v@), name@),
{
    let mut i: usize = 0;
    while i < v.len()
        invariant
            i <= v@.len(),
            forall|j: int| 0 <= j < i ==> strs(v@)[j] != name@,
        decreases v.len() - i,
    {
        if str_eq(v[i].as_str(), name) {
            assert(strs(v@)[i as int] == name@);
            return true;
        }
        i += 1;
    }
    false
}

/// The derives in `derives` that every field must support.
pub fn required_field_derives(derives: &Vec<String>) -> (r: Vec<FieldDerive>)
    ensures
        r@ == required_derives(strs(derives@)),
{
    let mut r: Vec<FieldDerive> = Vec::new();
    if contains_name(derives, "Ord") {
        r.push(FieldDerive::Ord);
    } else if contains_name(derives, "Eq") {
        r.push(FieldDerive::Eq);
    }
    if contains_name(derives, "Hash") {
        r.push(FieldDerive::Hash);
    }
    if contains_name(derives, "JsonEncode") {
        r.push(FieldDerive::JsonEncode);
    }
    if contains_name(derives, "JsonDecode") {
        r.push(FieldDerive::JsonDecode);
    }
    assert(r@ =~= required_derives(strs(derives@)));
    r
}

pub open spec fn requirement_cause(derive: Seq<char>) -> Seq<char> {
    if derive == "Eq"@ {
        "`Eq` is total equality, so every field's type must be `Eq` (for example `Float` is not, and a struct or sum field must itself derive `Eq`)."@
    } else if derive == "Ord"@ {
        "`Ord` is total ordering, so every field's type must be `Ord` (for example `Float` is not, and a struct or sum field must itself derive `Ord`)."@
    } else if derive == "Hash"@ {
        "`Hash` requires hashable fields, so every field's type must be `Hash` (`Float`, `Map`, and `Set` are not, and a struct or sum field must itself derive `Hash`)."@
    } else if derive == "JsonEncode"@ {
        "`JsonEncode` requires every struct or sum field's type to also derive `JsonEncode`."@
    } else if derive == "JsonDecode"@ {
        "`JsonDecode` requires every struct or sum field's type to also derive `JsonDecode`."@
    } else {
        "Every field must support the derived trait."@
    }
}

/// Why a derive constrains every field.
pub fn derive_requirement_cause(derive: &str) -> (r: &'static str)
    ensures
        r@ == requirement_cause(derive@),
{
    if str_eq(derive, "Eq") {
        "`Eq` is total equality, so every field's type must be `Eq` (for example `Float` is not, and a struct or sum field must itself derive `Eq`)."
    } else if str_eq(derive, "Ord") {
        "`Ord` is total ordering, so every field's type must be `Ord` (for example `Float` is not, and a struct or sum field must itself derive `Ord`)."
    } else if str_eq(derive, "Hash") {
        "`Hash` requires hashable fields, so every field's type must be `Hash` (`Float`, `Map`, and `Set` are not, and a struct or sum field must itself derive `Hash`)."
    } else if str_eq(derive, "JsonEncode") {
        "`JsonEncode` requires every struct or sum field's type to also derive `JsonEncode`."
    } else if str_eq(derive, "JsonDecode") {
        "`JsonDecode` requires every struct or sum field's type to also derive `JsonDecode`."
    } else {
        "Every field must support the derived trait."
    }
}

// ---------------------------------------------------------------------------
// Local types
// ---------------------------------------------------------------------------

/// A type declared in the program being checked.
pub struct LocalType {
    pub name: String,
    pub is_value: bool,
    pub derives: Vec<String>,
}

/// The locally declared types; a later declaration of a name shadows an
/// earlier one.
pub struct LocalTypes {
    pub entries: Vec<LocalType>,
}

pub struct LocalView {
    pub name: Seq<char>,
    pub is_value: bool,
    pub derives: Seq<Seq<char>>,
}

pub open spec fn local_view(t: LocalTypes) -> Seq<LocalView> {
    t.entries@.map_values(|e: LocalType| LocalView { name: e.name@, is_value: e.is_value, derives: strs(e.derives@) })
}

/// The value types and derive lists the items declare: structs and sums are
/// value types; classes and resources are not.
pub open spec fn local_types(items: Seq<Item>) -> Seq<LocalView>
    decreases items.len(),
{
    if items.len() == 0 {
        seq![]
    } else {
        let rest = local_types(items.drop_last());
        match items.last() {
            Item::Type(d) => rest.push(
                LocalView { name: d.name@, is_value: d.kind == TypeKind::Struct, derives: strs(d.derives@) },
            ),
            Item::SumType(d) => rest.push(LocalView { name: d.name@, is_value: true, derives: strs(d.derives@) }),
            _ => rest,
        }
    }
}

pub open spec fn local_lookup(loc: Seq<LocalView>, name: Seq<char>) -> Option<int> {
    last_match(loc.map_values(|l: LocalView| l.name), name, loc.len() as int)
}

pub fn clone_strings(v: &Vec<String>) -> (r: Vec<String>)
    ensures
        r@ == v@,
{
    let mut r: Vec<String> = Vec::new();
    let mut i: usize = 0;
    while i < v.len()
        invariant
            i <= v@.len(),
            r@ == v@.take(i as int),
        decreases v.len() - i,
    {
        r.push(v[i].clone());
        assert(r@ =~= v@.take(i + 1));
        i += 1;
    }
    assert(v@.take(v@.len() as int) == v@);
    r
}

/// The value types declared in `items` with their derive lists.
pub fn collect_local_value_types(items: &Vec<Item>) -> (r: LocalTypes)
    ensures
        local_view(r) == local_types(items@),
{
    let mut r = LocalTypes { entries: Vec::new() };
    assert(local_view(r) =~= Seq::<LocalView>::empty());
    r.add_items(items);
    assert(Seq::<LocalView>::empty() + local_types(items@) =~= local_types(items@));
    r
}

impl LocalTypes {
    /// Records the value types `items` declare, after those already held.
    pub fn add_items(&mut self, items: &Vec<Item>)
        ensures
            local_view(*final(self)) == local_view(*old(self)) + local_types(items@),
    {
        let ghost l0 = local_view(*self);
        let mut i: usize = 0;
        while i < items.len()
            invariant
                i <= items@.len(),
                local_view(*self) == l0 + local_types(items@.take(i as int)),
            decreases items.len() - i,
        {
            assert(items@.take(i + 1).drop_last() == items@.take(i as int));
            match &items[i] {
                Item::Type(d) => {
                    let is_value = match d.kind {
                        TypeKind::Struct => true,
                        _ => false,
                    };
                    let e = LocalType { name: d.name.clone(), is_value, derives: clone_strings(&d.derives) };
                    let ghost ev = LocalView { name: e.name@, is_value: e.is_value, derives: strs(e.derives@) };
                    let ghost before = self.entries@;
                    assert(local_view(*self) == before.map_values(|x: LocalType| LocalView { name: x.name@, is_value: x.is_value, derives: strs(x.derives@) }));
                    self.entries.push(e);
                    assert(self.entries@ == before.push(e));
                    assert(local_view(*self) =~= (l0 + local_types(items@.take(i as int))).push(ev));
                    assert(local_view(*self) =~= l0 + local_types(items@.take(i + 1)));
                },
                Item::SumType(d) => {
                    let e = LocalType { name: d.name.clone(), is_value: true, derives: clone_strings(&d.derives) };
                    let ghost ev = LocalView { name: e.name@, is_value: e.is_value, derives: strs(e.derives@) };
                    let ghost before = self.entries@;
                    assert(local_view(*self) == before.map_values(|x: LocalType| LocalView { name: x.name@, is_value: x.is_value, derives: strs(x.derives@) }));
                    self.entries.push(e);
                    assert(self.entries@ == before.push(e));
                    assert(local_view(*self) =~= (l0 + local_types(items@.take(i as int))).push(ev));
                    assert(local_view(*self) =~= l0 + local_types(items@.take(i + 1)));
                },
                _ => {
                    assert(local_view(*self) =~= l0 + local_types(items@.take(i + 1)));
                },
            }
            i += 1;
        }
        assert(items@.take(items@.len() as int) == items@);
    }

    /// The declaration `name` resolves to.
    pub fn find(&self, name: &str) -> (r: Option<usize>)
        ensures
            r matches Some(i) ==> i < self.entries@.len() && local_lookup(local_view(*self), name@) == Some(i as int),
            r is None ==> local_lookup(local_view(*self), name@) is None,
    {
        let ghost loc = local_view(*self);
        let ghost names = loc.map_values(|l: LocalView| l.name);
        let mut k: usize = self.entries.len();
        while k > 0
            invariant
                loc == local_view(*self),
                names == loc.map_values(|l: LocalView| l.name),
                k <= self.entries@.len(),
                local_lookup(loc, name@) == last_match(names, name@, k as int),
            decreases k,
        {
            if str_eq(self.entries[k - 1].name.as_str(), name) {
                assert(names[k - 1] == name@);
                return Some(k - 1);
            }
            assert(names[k - 1] != name@);
            k -= 1;
        }
        None
    }
}

// ---------------------------------------------------------------------------
// Verdicts
// ---------------------------------------------------------------------------

pub open spec fn is_float_root(r: Seq<char>) -> bool {
    r == "Float"@ || r == "Float32"@ || r == "Float64"@
}

/// The builtin scalars that support every structural derive.
pub open spec fn is_scalar_root(r: Seq<char>) -> bool {
    r == "Int"@ || r == "Int8"@ || r == "Int16"@ || r == "Int32"@ || r == "Int64"@ || r == "UInt"@ || r
        == "UInt8"@ || r == "UInt16"@ || r == "UInt32"@ || r == "UInt64"@ || r == "Bool"@ || r == "Byte"@ || r
        == "Char"@ || r == "Unit"@ || r == "String"@
}

pub fn is_float_name(r: &str) -> (b: bool)
    ensures
        b == is_float_root(r@),
{
    str_eq(r, "Float") || str_eq(r, "Float32") || str_eq(r, "Float64")
}

pub fn is_scalar_name(r: &str) -> (b: bool)
    ensures
        b == is_scalar_root(r@),
{
    str_eq(r, "Int") || str_eq(r, "Int8") || str_eq(r, "Int16") || str_eq(r, "Int32") || str_eq(r, "Int64")
        || str_eq(r, "UInt") || str_eq(r, "UInt8") || str_eq(r, "UInt16") || str_eq(r, "UInt32") || str_eq(
        r,
        "UInt64",
    ) || str_eq(r, "Bool") || str_eq(r, "Byte") || str_eq(r, "Char") || str_eq(r, "Unit") || str_eq(r, "String")
}

/// Whether a field of type `t` supports `d`. A generic parameter of the
/// declaring type is `Unknown`: the derive adds the matching bound.
pub open spec fn support(t: TypeView, d: FieldDerive, loc: Seq<LocalView>, gen: Seq<Seq<char>>) -> DeriveSupport
    decreases t, 3nat,
{
    let root = type_root(t.name);
    if gen.contains(root) {
        DeriveSupport::Unknown
    } else {
        match d {
            FieldDerive::JsonEncode => json(t, root, d, loc, gen),
            FieldDerive::JsonDecode => json(t, root, d, loc, gen),
            _ => structural(t, root, d, loc, gen),
        }
    }
}

/// The combined verdict for every type in `ts`.
pub open spec fn support_all(ts: Seq<TypeView>, d: FieldDerive, loc: Seq<LocalView>, gen: Seq<Seq<char>>) -> DeriveSupport
    decreases ts, 0nat,
{
    if ts.len() == 0 {
        DeriveSupport::Yes
    } else {
        combine(support_all(ts.drop_last(), d, loc, gen), support(ts.last(), d, loc, gen))
    }
}

/// `Eq`, `Ord` and `Hash`.
pub open spec fn structural(t: TypeView, root: Seq<char>, d: FieldDerive, loc: Seq<LocalView>, gen: Seq<Seq<char>>) -> DeriveSupport
    decreases t, 2nat,
{
    if is_float_root(root) {
        DeriveSupport::No
    } else if is_scalar_root(root) {
        DeriveSupport::Yes
    } else if root == "List"@ || root == "Option"@ {
        if t.args.len() > 0 {
            support(t.args[0], d, loc, gen)
        } else {
            DeriveSupport::Unknown
        }
    } else if root == "Result"@ && t.args.len() > 0 {
        support_all(t.args, d, loc, gen)
    } else if root == "Set"@ && d == FieldDerive::Eq {
        if t.args.len() > 0 {
            combine(support(t.args[0], FieldDerive::Eq, loc, gen), hash_key(t.args[0], loc, gen))
        } else {
            DeriveSupport::Unknown
        }
    } else if root == "Map"@ && d == FieldDerive::Eq {
        if t.args.len() > 1 {
            combine(
                combine(support(t.args[0], FieldDerive::Eq, loc, gen), hash_key(t.args[0], loc, gen)),
                support(t.args[1], FieldDerive::Eq, loc, gen),
            )
        } else {
            DeriveSupport::Unknown
        }
    } else if root == "Map"@ || root == "Set"@ {
        DeriveSupport::No
    } else {
        user(t, root, d, loc, gen)
    }
}

/// Whether a generic parameter is the root of `t` or of one of its type
/// arguments, at any depth.
pub open spec fn has_generic(t: TypeView, gen: Seq<Seq<char>>) -> bool
    decreases t, 1nat,
{
    gen.contains(type_root(t.name)) || has_generic_list(t.args, gen)
}

pub open spec fn has_generic_list(ts: Seq<TypeView>, gen: Seq<Seq<char>>) -> bool
    decreases ts, 0nat,
{
    if ts.len() == 0 {
        false
    } else {
        has_generic_list(ts.drop_last(), gen) || has_generic(ts.last(), gen)
    }
}

/// Whether `t` can be a hashed key or set element. A generic parameter is
/// `No` here at any depth: nothing can bound it by `Hash`.
pub open spec fn hash_key(t: TypeView, loc: Seq<LocalView>, gen: Seq<Seq<char>>) -> DeriveSupport
    decreases t, 3nat,
{
    let root = type_root(t.name);
    if gen.contains(root) {
        DeriveSupport::No
    } else if is_float_root(root) {
        DeriveSupport::No
    } else if is_scalar_root(root) {
        DeriveSupport::Yes
    } else if root == "List"@ || root == "Option"@ {
        if t.args.len() > 0 {
            hash_key(t.args[0], loc, gen)
        } else {
            DeriveSupport::Unknown
        }
    } else if root == "Result"@ && t.args.len() > 0 {
        hash_key_all(t.args, loc, gen)
    } else if root == "Map"@ || root == "Set"@ {
        DeriveSupport::No
    } else if has_generic_list(t.args, gen) {
        DeriveSupport::No
    } else {
        match local_lookup(loc, root) {
            Some(i) => if 0 <= i < loc.len() && loc[i].is_value {
                if !has_name(loc[i].derives, "Hash"@) {
                    DeriveSupport::No
                } else {
                    hash_key_all(t.args, loc, gen)
                }
            } else {
                DeriveSupport::Unknown
            },
            None => DeriveSupport::Unknown,
        }
    }
}

pub open spec fn hash_key_all(ts: Seq<TypeView>, loc: Seq<LocalView>, gen: Seq<Seq<char>>) -> DeriveSupport
    decreases ts, 0nat,
{
    if ts.len() == 0 {
        DeriveSupport::Yes
    } else {
        combine(hash_key_all(ts.drop_last(), loc, gen), hash_key(ts.last(), loc, gen))
    }
}

/// A key or element that a decoded map or set hashes.
pub open spec fn hashable_key(t: TypeView, loc: Seq<LocalView>, gen: Seq<Seq<char>>) -> DeriveSupport
    decreases t, 4nat,
{
    combine(support(t, FieldDerive::Eq, loc, gen), hash_key(t, loc, gen))
}

/// `JsonEncode` and `JsonDecode`.
pub open spec fn json(t: TypeView, root: Seq<char>, d: FieldDerive, loc: Seq<LocalView>, gen: Seq<Seq<char>>) -> DeriveSupport
    decreases t, 2nat,
{
    let decode = d == FieldDerive::JsonDecode;
    if is_scalar_root(root) || is_float_root(root) {
        DeriveSupport::Yes
    } else if root == "List"@ || root == "Option"@ {
        if t.args.len() > 0 {
            support(t.args[0], d, loc, gen)
        } else {
            DeriveSupport::Unknown
        }
    } else if root == "Result"@ && t.args.len() > 0 {
        support_all(t.args, d, loc, gen)
    } else if root == "Set"@ {
        if t.args.len() > 0 {
            if decode {
                combine(support(t.args[0], d, loc, gen), hashable_key(t.args[0], loc, gen))
            } else {
                support(t.args[0], d, loc, gen)
            }
        } else {
            DeriveSupport::Unknown
        }
    } else if root == "Map"@ && t.args.len() == 2 {
        let elements = combine(support(t.args[0], d, loc, gen), support(t.args[1], d, loc, gen));
        if decode {
            combine(elements, hashable_key(t.args[0], loc, gen))
        } else {
            elements
        }
    } else if root == "Map"@ {
        DeriveSupport::Unknown
    } else {
        user(t, root, d, loc, gen)
    }
}

/// A locally declared value type supports `d` when it derives it (`Ord`
/// also gives `Eq`) and its type arguments do; other types are `Unknown`.
pub open spec fn user(t: TypeView, root: Seq<char>, d: FieldDerive, loc: Seq<LocalView>, gen: Seq<Seq<char>>) -> DeriveSupport
    decreases t, 1nat,
{
    match local_lookup(loc, root) {
        Some(i) => if 0 <= i < loc.len() && loc[i].is_value {
            let derived = if d == FieldDerive::Eq {
                has_name(loc[i].derives, "Eq"@) || has_name(loc[i].derives, "Ord"@)
            } else {
                has_name(loc[i].derives, d.text())
            };
            if !derived {
                DeriveSupport::No
            } else {
                support_all(t.args, d, loc, gen)
            }
        } else {
            DeriveSupport::Unknown
        },
        None => DeriveSupport::Unknown,
    }
}

fn root_of(ty: &TypeRef) -> (r: String)
    ensures
        r@ == type_root(tview(*ty).name),
{
    let v = chars_of(ty.name.as_str());
    let rv = type_root_chars(v.as_slice());
    string_of(rv.as_slice())
}

/// Whether a field of type `ty` supports `derive`, given the local types and
/// the generic parameters of the declaring type.
pub fn field_supports_derive(ty: &TypeRef, derive: FieldDerive, locals: &LocalTypes, generics: &Vec<String>) -> (r: DeriveSupport)
    ensures
        r == support(tview(*ty), derive, local_view(*locals), strs(generics@)),
    decreases ty, 3nat,
{
    let root = root_of(ty);
    if contains_name(generics, root.as_str()) {
        return DeriveSupport::Unknown;
    }
    match derive {
        FieldDerive::JsonEncode => json_support(ty, root.as_str(), derive, locals, generics),
        FieldDerive::JsonDecode => json_support(ty, root.as_str(), derive, locals, generics),
        _ => structural_support(ty, root.as_str(), derive, locals, generics),
    }
}

fn support_all_exec(v: &Vec<TypeRef>, derive: FieldDerive, locals: &LocalTypes, generics: &Vec<String>) -> (r: DeriveSupport)
    ensures
        r == support_all(tviews(v@), derive, local_view(*locals), strs(generics@)),
    decreases v, 0nat,
{
    let ghost loc = local_view(*locals);
    let ghost gen = strs(generics@);
    let mut acc = DeriveSupport::Yes;
    let mut i: usize = 0;
    while i < v.len()
        invariant
            loc == local_view(*locals),
            gen == strs(generics@),
            i <= v@.len(),
            acc == support_all(tviews(v@.take(i as int)), derive, loc, gen),
        decreases v.len() - i,
    {
        proof {
            assert(decreases_to!(*v => v@[i as int]));
            crate::types::lemma_tviews_take(v@, i as int);
            assert(tviews(v@.take(i + 1)).drop_last() == tviews(v@.take(i as int)));
        }
        let s = field_supports_derive(&v[i], derive, locals, generics);
        acc = combine_support(acc, s);
        i += 1;
    }
    assert(v@.take(v@.len() as int) == v@);
    acc
}

fn hash_key_all_exec(v: &Vec<TypeRef>, locals: &LocalTypes, generics: &Vec<String>) -> (r: DeriveSupport)
    ensures
        r == hash_key_all(tviews(v@), local_view(*locals), strs(generics@)),
    decreases v, 0nat,
{
    let ghost loc = local_view(*locals);
    let ghost gen = strs(generics@);
    let mut acc = DeriveSupport::Yes;
    let mut i: usize = 0;
    while i < v.len()
        invariant
            loc == local_view(*locals),
            gen == strs(generics@),
            i <= v@.len(),
            acc == hash_key_all(tviews(v@.take(i as int)), loc, gen),
        decreases v.len() - i,
    {
        proof {
            assert(decreases_to!(*v => v@[i as int]));
            crate::types::lemma_tviews_take(v@, i as int);
            assert(tviews(v@.take(i + 1)).drop_last() == tviews(v@.take(i as int)));
        }
        let s = hash_key_support(&v[i], locals, generics);
        acc = combine_support(acc, s);
        i += 1;
    }
    assert(v@.take(v@.len() as int) == v@);
    acc
}

fn structural_support(ty: &TypeRef, root: &str, derive: FieldDerive, locals: &LocalTypes, generics: &Vec<String>) -> (r: DeriveSupport)
    ensures
        r == structural(tview(*ty), root@, derive, local_view(*locals), strs(generics@)),
    decreases ty, 2nat,
{
    proof {
        lemma_tviews(ty.args@);
    }
    let n = ty.args.len();
    if is_float_name(root) {
        DeriveSupport::No
    } else if is_scalar_name(root) {
        DeriveSupport::Yes
    } else if str_eq(root, "List") || str_eq(root, "Option") {
        if n > 0 {
            proof {
                assert(decreases_to!(*ty => ty.args@[0]));
            }
            field_supports_derive(&ty.args[0], derive, locals, generics)
        } else {
            DeriveSupport::Unknown
        }
    } else if str_eq(root, "Result") && n > 0 {
        support_all_exec(&ty.args, derive, locals, generics)
    } else if str_eq(root, "Set") && derive == FieldDerive::Eq {
        if n > 0 {
            proof {
                assert(decreases_to!(*ty => ty.args@[0]));
            }
            let a = field_supports_derive(&ty.args[0], FieldDerive::Eq, locals, generics);
            let b = hash_key_support(&ty.args[0], locals, generics);
            combine_support(a, b)
        } else {
            DeriveSupport::Unknown
        }
    } else if str_eq(root, "Map") && derive == FieldDerive::Eq {
        if n > 1 {
            proof {
                assert(decreases_to!(*ty => ty.args@[0]));
                assert(decreases_to!(*ty => ty.args@[1]));
            }
            let a = field_supports_derive(&ty.args[0], FieldDerive::Eq, locals, generics);
            let b = hash_key_support(&ty.args[0], locals, generics);
            let c = field_supports_derive(&ty.args[1], FieldDerive::Eq, locals, generics);
            combine_support(combine_support(a, b), c)
        } else {
            DeriveSupport::Unknown
        }
    } else if str_eq(root, "Map") || str_eq(root, "Set") {
        DeriveSupport::No
    } else {
        user_type_support(ty, root, derive, locals, generics)
    }
}

fn has_generic_exec(ty: &TypeRef, generics: &Vec<String>) -> (r: bool)
    ensures
        r == has_generic(tview(*ty), strs(generics@)),
    decreases ty, 1nat,
{
    proof {
        lemma_tviews(ty.args@);
    }
    let root = root_of(ty);
    if contains_name(generics, root.as_str()) {
        proof {
            let gen = strs(generics@);
            let k = choose|k: int| 0 <= k < gen.len() && gen[k] == root@;
            assert(gen.contains(root@));
        }
        return true;
    }
    proof {
        let gen = strs(generics@);
        if gen.contains(root@) {
            let k = choose|k: int| 0 <= k < gen.len() && gen[k] == root@;
            assert(has_name(gen, root@));
        }
    }
    has_generic_list_exec(&ty.args, generics)
}

fn has_generic_list_exec(v: &Vec<TypeRef>, generics: &Vec<String>) -> (r: bool)
    ensures
        r == has_generic_list(tviews(v@), strs(generics@)),
    decreases v, 0nat,
{
    let ghost gen = strs(generics@);
    let mut i: usize = 0;
    while i < v.len()
        invariant
            gen == strs(generics@),
            i <= v@.len(),
            !has_generic_list(tviews(v@.take(i as int)), gen),
        decreases v.len() - i,
    {
        proof {
            assert(decreases_to!(*v => v@[i as int]));
            crate::types::lemma_tviews_take(v@, i as int);
            assert(tviews(v@.take(i + 1)).drop_last() == tviews(v@.take(i as int)));
        }
        if has_generic_exec(&v[i], generics) {
            proof {
                lemma_has_generic_list_prefix(v@, i as int + 1, gen);
            }
            return true;
        }
        i += 1;
    }
    assert(v@.take(v@.len() as int) == v@);
    false
}

proof fn lemma_has_generic_list_prefix(v: Seq<TypeRef>, k: int, gen: Seq<Seq<char>>)
    requires
        0 <= k <= v.len(),
        has_generic_list(tviews(v.take(k)), gen),
    ensures
        has_generic_list(tviews(v), gen),
    decreases v.len() - k,
{
    if k < v.len() {
        crate::types::lemma_tviews_take(v, k);
        assert(tviews(v.take(k + 1)).drop_last() == tviews(v.take(k)));
        lemma_has_generic_list_prefix(v, k + 1, gen);
    } else {
        assert(v.take(k) == v);
    }
}

/// Whether `ty` can be a hashed key or set element.
pub fn hash_key_support(ty: &TypeRef, locals: &LocalTypes, generics: &Vec<String>) -> (r: DeriveSupport)
    ensures
        r == hash_key(tview(*ty), local_view(*locals), strs(generics@)),
    decreases ty, 3nat,
{
    proof {
        lemma_tviews(ty.args@);
    }
    let root = root_of(ty);
    let root = root.as_str();
    let n = ty.args.len();
    if contains_name(generics, root) {
        DeriveSupport::No
    } else if is_float_name(root) {
        DeriveSupport::No
    } else if is_scalar_name(root) {
        DeriveSupport::Yes
    } else if str_eq(root, "List") || str_eq(root, "Option") {
        if n > 0 {
            proof {
                assert(decreases_to!(*ty => ty.args@[0]));
            }
            hash_key_support(&ty.args[0], locals, generics)
        } else {
            DeriveSupport::Unknown
        }
    } else if str_eq(root, "Result") && n > 0 {
        hash_key_all_exec(&ty.args, locals, generics)
    } else if str_eq(root, "Map") || str_eq(root, "Set") {
        DeriveSupport::No
    } else if has_generic_list_exec(&ty.args, generics) {
        DeriveSupport::No
    } else {
        match locals.find(root) {
            Some(i) => {
                if locals.entries[i].is_value {
                    if !contains_name(&locals.entries[i].derives, "Hash") {
                        DeriveSupport::No
                    } else {
                        hash_key_all_exec(&ty.args, locals, generics)
                    }
                } else {
                    DeriveSupport::Unknown
                }
            },
            None => DeriveSupport::Unknown,
        }
    }
}

fn hashable_key_support(ty: &TypeRef, locals: &LocalTypes, generics: &Vec<String>) -> (r: DeriveSupport)
    ensures
        r == hashable_key(tview(*ty), local_view(*locals), strs(generics@)),
    decreases ty, 4nat,
{
    let a = field_supports_derive(ty, FieldDerive::Eq, locals, generics);
    let b = hash_key_support(ty, locals, generics);
    combine_support(a, b)
}

fn json_support(ty: &TypeRef, root: &str, derive: FieldDerive, locals: &LocalTypes, generics: &Vec<String>) -> (r: DeriveSupport)
    ensures
        r == json(tview(*ty), root@, derive, local_view(*locals), strs(generics@)),
    decreases ty, 2nat,
{
    proof {
        lemma_tviews(ty.args@);
    }
    let decode = derive == FieldDerive::JsonDecode;
    let n = ty.args.len();
    if is_scalar_name(root) || is_float_name(root) {
        DeriveSupport::Yes
    } else if str_eq(root, "List") || str_eq(root, "Option") {
        if n > 0 {
            proof {
                assert(decreases_to!(*ty => ty.args@[0]));
            }
            field_supports_derive(&ty.args[0], derive, locals, generics)
        } else {
            DeriveSupport::Unknown
        }
    } else if str_eq(root, "Result") && n > 0 {
        support_all_exec(&ty.args, derive, locals, generics)
    } else if str_eq(root, "Set") {
        if n > 0 {
            proof {
                assert(decreases_to!(*ty => ty.args@[0]));
            }
            if decode {
                let a = field_supports_derive(&ty.args[0], derive, locals, generics);
                let b = hashable_key_support(&ty.args[0], locals, generics);
                combine_support(a, b)
            } else {
                field_supports_derive(&ty.args[0], derive, locals, generics)
            }
        } else {
            DeriveSupport::Unknown
        }
    } else if str_eq(root, "Map") && n == 2 {
        proof {
            assert(decreases_to!(*ty => ty.args@[0]));
            assert(decreases_to!(*ty => ty.args@[1]));
        }
        let k = field_supports_derive(&ty.args[0], derive, locals, generics);
        let v = field_supports_derive(&ty.args[1], derive, locals, generics);
        let elements = combine_support(k, v);
        if decode {
            let h = hashable_key_support(&ty.args[0], locals, generics);
            combine_support(elements, h)
        } else {
            elements
        }
    } else if str_eq(root, "Map") {
        DeriveSupport::Unknown
    } else {
        user_type_support(ty, root, derive, locals, generics)
    }
}

fn user_type_support(ty: &TypeRef, root: &str, derive: FieldDerive, locals: &LocalTypes, generics: &Vec<String>) -> (r: DeriveSupport)
    ensures
        r == user(tview(*ty), root@, derive, local_view(*locals), strs(generics@)),
    decreases ty, 1nat,
{
    match locals.find(root) {
        Some(i) => {
            if locals.entries[i].is_value {
                let derives = &locals.entries[i].derives;
                let derived = if derive == FieldDerive::Eq {
                    contains_name(derives, "Eq") || contains_name(derives, "Ord")
                } else {
                    contains_name(derives, derive.name())
                };
                if !derived {
                    DeriveSupport::No
                } else {
                    support_all_exec(&ty.args, derive, locals, generics)
                }
            } else {
                DeriveSupport::Unknown
            }
        },
        None => DeriveSupport::Unknown,
    }
}

// ---------------------------------------------------------------------------
// The check
// ---------------------------------------------------------------------------

/// A field whose type cannot support a derive of its declaring type.
pub struct ViolationView {
    pub span: Span,
    pub field: Seq<char>,
    pub type_label: Seq<char>,
    pub derive: FieldDerive,
}

/// `handle` and `weak` fields support none of the derives.
pub open spec fn field_verdict(f: FieldDecl, d: FieldDerive, loc: Seq<LocalView>, gen: Seq<Seq<char>>) -> DeriveSupport {
    if f.is_handle || f.is_weak {
        DeriveSupport::No
    } else {
        support(tview(f.ty), d, loc, gen)
    }
}

pub open spec fn field_type_label(f: FieldDecl) -> Seq<char> {
    if f.is_handle {
        "handle "@ + type_name_text(tview(f.ty))
    } else if f.is_weak {
        "weak "@ + type_name_text(tview(f.ty))
    } else {
        type_name_text(tview(f.ty))
    }
}

/// The violations of one field, one per required derive it cannot support,
/// in the order of `req`.
pub open spec fn field_violations(f: FieldDecl, req: Seq<FieldDerive>, loc: Seq<LocalView>, gen: Seq<Seq<char>>) -> Seq<ViolationView>
    decreases req.len(),
{
    if req.len() == 0 {
        seq![]
    } else {
        field_violations(f, req.drop_last(), loc, gen) + if field_verdict(f, req.last(), loc, gen)
            == DeriveSupport::No {
            seq![ViolationView { span: f.span, field: f.name@, type_label: field_type_label(f), derive: req.last() }]
        } else {
            seq![]
        }
    }
}

pub open spec fn fields_violations(fs: Seq<FieldDecl>, req: Seq<FieldDerive>, loc: Seq<LocalView>, gen: Seq<Seq<char>>) -> Seq<ViolationView>
    decreases fs.len(),
{
    if fs.len() == 0 {
        seq![]
    } else {
        fields_violations(fs.drop_last(), req, loc, gen) + field_violations(fs.last(), req, loc, gen)
    }
}

pub open spec fn variants_violations(
    vs: Seq<VariantDecl>,
    req: Seq<FieldDerive>,
    loc: Seq<LocalView>,
    gen: Seq<Seq<char>>,
) -> Seq<ViolationView>
    decreases vs.len(),
{
    if vs.len() == 0 {
        seq![]
    } else {
        variants_violations(vs.drop_last(), req, loc, gen) + fields_violations(vs.last().fields@, req, loc, gen)
    }
}

/// Struct and class declarations (not resources) and sums are checked
/// against their own derive list, with their own generic parameters.
pub open spec fn item_violations(item: Item, loc: Seq<LocalView>) -> Seq<ViolationView> {
    match item {
        Item::Type(d) => if d.kind != TypeKind::Resource {
            fields_violations(d.fields@, required_derives(strs(d.derives@)), loc, param_names(d.type_params@))
        } else {
            seq![]
        },
        Item::SumType(d) => variants_violations(
            d.variants@,
            required_derives(strs(d.derives@)),
            loc,
            param_names(d.type_params@),
        ),
        _ => seq![],
    }
}

pub open spec fn items_violations(items: Seq<Item>, loc: Seq<LocalView>) -> Seq<ViolationView>
    decreases items.len(),
{
    if items.len() == 0 {
        seq![]
    } else {
        items_violations(items.drop_last(), loc) + item_violations(items.last(), loc)
    }
}

/// Every field of `items` that cannot support a derive of its type.
pub open spec fn derive_violations(items: Seq<Item>) -> Seq<ViolationView> {
    items_violations(items, local_types(items))
}

pub open spec fn violation_diag(v: ViolationView) -> DiagView {
    DiagView {
        code: derive_field_code(),
        severity: Severity::Error,
        message: "`"@ + v.derive.text() + "` derive is not supported by field `"@ + v.field + "`."@,
        span: v.span,
        label: "`"@ + v.type_label + "` does not support the `"@ + v.derive.text() + "` derive"@,
        causes: seq![requirement_cause(v.derive.text())],
        fixes: seq![
            (
                "remove_or_change_derive"@,
                "Remove `"@ + v.derive.text() + "` from the derive list, or change `"@ + v.field
                    + "` to a type that supports it."@,
                "manual"@,
            ),
        ],
    }
}

pub open spec fn violation_diags(vs: Seq<ViolationView>) -> Seq<DiagView> {
    vs.map_values(|v: ViolationView| violation_diag(v))
}

fn violation_diagnostic(f: &FieldDecl, derive: FieldDerive) -> (d: Diagnostic)
    ensures
        dview(d) == violation_diag(
            ViolationView { span: f.span, field: f.name@, type_label: field_type_label(*f), derive },
        ),
{
    let mut type_label = if f.is_handle {
        "handle ".to_owned()
    } else if f.is_weak {
        "weak ".to_owned()
    } else {
        String::new()
    };
    let tn = type_ref_name(&f.ty);
    append(&mut type_label, tn.as_str());
    let dn = derive.name();
    let mut message = "`".to_owned();
    append(&mut message, dn);
    append(&mut message, "` derive is not supported by field `");
    append(&mut message, f.name.as_str());
    append(&mut message, "`.");
    let mut label = "`".to_owned();
    append(&mut label, type_label.as_str());
    append(&mut label, "` does not support the `");
    append(&mut label, dn);
    append(&mut label, "` derive");
    let mut fix = "Remove `".to_owned();
    append(&mut fix, dn);
    append(&mut fix, "` from the derive list, or change `");
    append(&mut fix, f.name.as_str());
    append(&mut fix, "` to a type that supports it.");
    error_with_fix(
        "DERIVE_FIELD_UNSUPPORTED",
        message,
        clone_span(&f.span),
        label,
        derive_requirement_cause(dn),
        "remove_or_change_derive",
        fix,
        "manual",
    )
}

fn check_field(
    f: &FieldDecl,
    req: &Vec<FieldDerive>,
    locals: &LocalTypes,
    generics: &Vec<String>,
    out: &mut Vec<Diagnostic>,
)
    ensures
        dviews(final(out)@) == dviews(old(out)@) + violation_diags(
            field_violations(*f, req@, local_view(*locals), strs(generics@)),
        ),
{
    let ghost loc = local_view(*locals);
    let ghost gen = strs(generics@);
    let ghost o0 = dviews(out@);
    let managed = f.is_handle || f.is_weak;
    let mut i: usize = 0;
    while i < req.len()
        invariant
            loc == local_view(*locals),
            gen == strs(generics@),
            managed == (f.is_handle || f.is_weak),
            i <= req@.len(),
            dviews(out@) == o0 + violation_diags(field_violations(*f, req@.take(i as int), loc, gen)),
        decreases req.len() - i,
    {
        let d = req[i];
        let verdict = if managed {
            DeriveSupport::No
        } else {
            field_supports_derive(&f.ty, d, locals, generics)
        };
        assert(req@.take(i + 1).drop_last() == req@.take(i as int));
        assert(req@.take(i + 1).last() == d);
        let ghost prev = field_violations(*f, req@.take(i as int), loc, gen);
        let ghost v = ViolationView { span: f.span, field: f.name@, type_label: field_type_label(*f), derive: d };
        assert(verdict == field_verdict(*f, d, loc, gen));
        if verdict == DeriveSupport::No {
            let diag = violation_diagnostic(f, d);
            proof {
                lemma_dviews_push(out@, diag);
            }
            out.push(diag);
            assert(field_violations(*f, req@.take(i + 1), loc, gen) == prev + seq![v]);
            assert(violation_diags(prev + seq![v]) =~= violation_diags(prev).push(violation_diag(v)));
        } else {
            assert(field_violations(*f, req@.take(i + 1), loc, gen) == prev + Seq::<ViolationView>::empty());
            assert(prev + Seq::<ViolationView>::empty() =~= prev);
        }
        assert(dviews(out@) =~= o0 + violation_diags(field_violations(*f, req@.take(i + 1), loc, gen)));
        i += 1;
    }
    assert(req@.take(req@.len() as int) == req@);
}

fn check_fields(
    fs: &Vec<FieldDecl>,
    req: &Vec<FieldDerive>,
    locals: &LocalTypes,
    generics: &Vec<String>,
    out: &mut Vec<Diagnostic>,
)
    ensures
        dviews(final(out)@) == dviews(old(out)@) + violation_diags(
            fields_violations(fs@, req@, local_view(*locals), strs(generics@)),
        ),
{
    let ghost loc = local_view(*locals);
    let ghost gen = strs(generics@);
    let ghost o0 = dviews(out@);
    let mut i: usize = 0;
    while i < fs.len()
        invariant
            loc == local_view(*locals),
            gen == strs(generics@),
            i <= fs@.len(),
            dviews(out@) == o0 + violation_diags(fields_violations(fs@.take(i as int), req@, loc, gen)),
        decreases fs.len() - i,
    {
        check_field(&fs[i], req, locals, generics, out);
        assert(fs@.take(i + 1).drop_last() == fs@.take(i as int));
        assert(dviews(out@) =~= o0 + violation_diags(fields_violations(fs@.take(i + 1), req@, loc, gen)));
        i += 1;
    }
    assert(fs@.take(fs@.len() as int) == fs@);
}

/// One error per field whose type cannot support a derive that its struct,
/// class or sum declares, in declaration order.
pub fn check_derive_field_requirements(items: &Vec<Item>) -> (r: Vec<Diagnostic>)
    ensures
        dviews(r@) == violation_diags(derive_violations(items@)),
{
    let locals = collect_local_value_types(items);
    check_items_derives(items, &locals)
}

/// The derive violations of `items`, judging local types by `locals`.
pub fn check_items_derives(items: &Vec<Item>, locals: &LocalTypes) -> (r: Vec<Diagnostic>)
    ensures
        dviews(r@) == violation_diags(items_violations(items@, local_view(*locals))),
{
    let ghost loc = local_view(*locals);
    let mut out: Vec<Diagnostic> = Vec::new();
    let mut i: usize = 0;
    while i < items.len()
        invariant
            loc == local_view(*locals),
            i <= items@.len(),
            dviews(out@) == violation_diags(items_violations(items@.take(i as int), loc)),
        decreases items.len() - i,
    {
        let ghost o1 = dviews(out@);
        match &items[i] {
            Item::Type(d) => {
                let is_resource = match d.kind {
                    TypeKind::Resource => true,
                    _ => false,
                };
                if !is_resource {
                    let req = required_field_derives(&d.derives);
                    let generics = param_name_strings(&d.type_params);
                    check_fields(&d.fields, &req, locals, &generics, &mut out);
                }
            },
            Item::SumType(d) => {
                let req = required_field_derives(&d.derives);
                let generics = param_name_strings(&d.type_params);
                let ghost o2 = dviews(out@);
                let mut j: usize = 0;
                while j < d.variants.len()
                    invariant
                        loc == local_view(*locals),
                        j <= d.variants@.len(),
                        req@ == required_derives(strs(d.derives@)),
                        strs(generics@) == param_names(d.type_params@),
                        dviews(out@) == o2 + violation_diags(
                            variants_violations(d.variants@.take(j as int), req@, loc, strs(generics@)),
                        ),
                    decreases d.variants.len() - j,
                {
                    check_fields(&d.variants[j].fields, &req, locals, &generics, &mut out);
                    assert(d.variants@.take(j + 1).drop_last() == d.variants@.take(j as int));
                    assert(dviews(out@) =~= o2 + violation_diags(
                        variants_violations(d.variants@.take(j + 1), req@, loc, strs(generics@)),
                    ));
                    j += 1;
                }
                assert(d.variants@.take(d.variants@.len() as int) == d.variants@);
            },
            _ => {},
        }
        assert(items@.take(i + 1).drop_last() == items@.take(i as int));
        assert(dviews(out@) =~= violation_diags(items_violations(items@.take(i + 1), loc)));
        i += 1;
    }
    assert(items@.take(items@.len() as int) == items@);
    out
}

// ---------------------------------------------------------------------------
// Laws of the verdicts
// ---------------------------------------------------------------------------

/// `a` is no better a verdict than `b`: `No` below `Unknown` below `Yes`.
pub open spec fn at_most(a: DeriveSupport, b: DeriveSupport) -> bool {
    &&& (b == DeriveSupport::No ==> a == DeriveSupport::No)
    &&& (b == DeriveSupport::Unknown ==> a != DeriveSupport::Yes)
}

proof fn lemma_combine_at_most(l: DeriveSupport, r: DeriveSupport)
    ensures
        at_most(combine(l, r), l),
        at_most(combine(l, r), r),
{
}

proof fn lemma_support_all_at_most(ts: Seq<TypeView>, d: FieldDerive, loc: Seq<LocalView>, gen: Seq<Seq<char>>)
    ensures
        forall|i: int| 0 <= i < ts.len() ==> at_most(support_all(ts, d, loc, gen), #[trigger] support(ts[i], d, loc, gen)),
    decreases ts.len(),
{
    if ts.len() > 0 {
        lemma_support_all_at_most(ts.drop_last(), d, loc, gen);
        lemma_combine_at_most(support_all(ts.drop_last(), d, loc, gen), support(ts.last(), d, loc, gen));
        assert forall|i: int| 0 <= i < ts.len() implies at_most(
            support_all(ts, d, loc, gen),
            #[trigger] support(ts[i], d, loc, gen),
        ) by {
            if i < ts.len() - 1 {
                assert(ts.drop_last()[i] == ts[i]);
            }
        }
    }
}

proof fn lemma_builtin_root_shape(r: Seq<char>)
    requires
        is_float_root(r) || is_scalar_root(r),
    ensures
        r.len() > 0,
        r[0] != 'L' && r[0] != 'O' && r[0] != 'R' && r[0] != 'M',
        r[0] == 'S' ==> r.len() == 6,
        is_float_root(r) ==> r[0] == 'F',
        is_scalar_root(r) ==> r[0] != 'F',
{
    reveal_strlit("Float");
    reveal_strlit("Float32");
    reveal_strlit("Float64");
    reveal_strlit("Int");
    reveal_strlit("Int8");
    reveal_strlit("Int16");
    reveal_strlit("Int32");
    reveal_strlit("Int64");
    reveal_strlit("UInt");
    reveal_strlit("UInt8");
    reveal_strlit("UInt16");
    reveal_strlit("UInt32");
    reveal_strlit("UInt64");
    reveal_strlit("Bool");
    reveal_strlit("Byte");
    reveal_strlit("Char");
    reveal_strlit("Unit");
    reveal_strlit("String");
}

proof fn lemma_root_literals()
    ensures
        !is_float_root("List"@) && !is_scalar_root("List"@),
        !is_float_root("Option"@) && !is_scalar_root("Option"@),
        !is_float_root("Result"@) && !is_scalar_root("Result"@),
        !is_float_root("Map"@) && !is_scalar_root("Map"@),
        !is_float_root("Set"@) && !is_scalar_root("Set"@),
        "List"@ != "Option"@ && "List"@ != "Result"@ && "List"@ != "Map"@ && "List"@ != "Set"@,
        "Option"@ != "Result"@ && "Option"@ != "Map"@ && "Option"@ != "Set"@,
        "Result"@ != "Map"@ && "Result"@ != "Set"@ && "Map"@ != "Set"@,
        forall|r: Seq<char>| is_float_root(r) ==> !is_scalar_root(r),
        forall|r: Seq<char>| is_float_root(r) || is_scalar_root(r) ==> r != "List"@ && r != "Option"@ && r != "Result"@
            && r != "Map"@ && r != "Set"@,
{
    reveal_strlit("List");
    reveal_strlit("Option");
    reveal_strlit("Result");
    reveal_strlit("Map");
    reveal_strlit("Set");
    assert("List"@[0] == 'L' && "Option"@[0] == 'O' && "Result"@[0] == 'R' && "Map"@[0] == 'M' && "Set"@[0] == 'S');
    assert forall|r: Seq<char>| is_float_root(r) || is_scalar_root(r) implies r != "List"@ && r != "Option"@ && r
        != "Result"@ && r != "Map"@ && r != "Set"@ by {
        lemma_builtin_root_shape(r);
    }
    assert forall|r: Seq<char>| is_float_root(r) implies !is_scalar_root(r) by {
        lemma_builtin_root_shape(r);
    }
}

/// A container supports a derive no better than what it holds: a list or
/// option exactly as its element, a result at most as each of its types, a
/// set's `Eq` at most as its element's `Eq` and hashability, a map's `Eq` at
/// most as its key's `Eq` and hashability and its value's `Eq`, and the
/// JSON derives of maps and sets at most as their keys, values and elements.
/// Maps and sets never support `Ord` or `Hash`.
pub proof fn law_containers_bounded_by_contents(t: TypeView, d: FieldDerive, loc: Seq<LocalView>, gen: Seq<Seq<char>>)
    requires
        !gen.contains(type_root(t.name)),
    ensures
        (type_root(t.name) == "List"@ || type_root(t.name) == "Option"@) && t.args.len() > 0 ==> support(t, d, loc, gen)
            == support(t.args[0], d, loc, gen),
        type_root(t.name) == "Result"@ && t.args.len() > 0 ==> forall|i: int|
            0 <= i < t.args.len() ==> at_most(support(t, d, loc, gen), #[trigger] support(t.args[i], d, loc, gen)),
        type_root(t.name) == "Set"@ && t.args.len() > 0 && d == FieldDerive::Eq ==> at_most(
            support(t, d, loc, gen),
            support(t.args[0], FieldDerive::Eq, loc, gen),
        ) && at_most(support(t, d, loc, gen), hash_key(t.args[0], loc, gen)),
        type_root(t.name) == "Map"@ && t.args.len() > 1 && d == FieldDerive::Eq ==> at_most(
            support(t, d, loc, gen),
            support(t.args[0], FieldDerive::Eq, loc, gen),
        ) && at_most(support(t, d, loc, gen), hash_key(t.args[0], loc, gen)) && at_most(
            support(t, d, loc, gen),
            support(t.args[1], FieldDerive::Eq, loc, gen),
        ),
        (type_root(t.name) == "Map"@ || type_root(t.name) == "Set"@) && (d == FieldDerive::Ord || d
            == FieldDerive::Hash) ==> support(t, d, loc, gen) == DeriveSupport::No,
        type_root(t.name) == "Map"@ && t.args.len() == 2 && (d == FieldDerive::JsonEncode || d
            == FieldDerive::JsonDecode) ==> at_most(support(t, d, loc, gen), support(t.args[0], d, loc, gen))
            && at_most(support(t, d, loc, gen), support(t.args[1], d, loc, gen)),
        type_root(t.name) == "Set"@ && t.args.len() > 0 && (d == FieldDerive::JsonEncode || d
            == FieldDerive::JsonDecode) ==> at_most(support(t, d, loc, gen), support(t.args[0], d, loc, gen)),
{
    let root = type_root(t.name);
    if root == "Result"@ && t.args.len() > 0 {
        lemma_support_all_at_most(t.args, d, loc, gen);
    }
    if t.args.len() > 1 {
        lemma_combine_at_most(
            combine(support(t.args[0], FieldDerive::Eq, loc, gen), hash_key(t.args[0], loc, gen)),
            support(t.args[1], FieldDerive::Eq, loc, gen),
        );
        lemma_combine_at_most(support(t.args[0], FieldDerive::Eq, loc, gen), hash_key(t.args[0], loc, gen));
        lemma_combine_at_most(support(t.args[0], d, loc, gen), support(t.args[1], d, loc, gen));
        lemma_combine_at_most(
            combine(support(t.args[0], d, loc, gen), support(t.args[1], d, loc, gen)),
            hashable_key(t.args[0], loc, gen),
        );
    }
    if t.args.len() > 0 {
        lemma_combine_at_most(support(t.args[0], FieldDerive::Eq, loc, gen), hash_key(t.args[0], loc, gen));
        lemma_combine_at_most(support(t.args[0], d, loc, gen), hashable_key(t.args[0], loc, gen));
    }
    lemma_root_literals();
    assert(support(t, d, loc, gen) == if d == FieldDerive::JsonEncode || d == FieldDerive::JsonDecode {
        json(t, root, d, loc, gen)
    } else {
        structural(t, root, d, loc, gen)
    });
}

/// Floating-point fields support no structural derive but encode and decode
/// as JSON; the builtin scalars support every derive; a generic parameter of
/// the declaring type is left to the derive's own bound.
pub proof fn law_scalar_float_and_generic_verdicts(t: TypeView, d: FieldDerive, loc: Seq<LocalView>, gen: Seq<Seq<char>>)
    ensures
        gen.contains(type_root(t.name)) ==> support(t, d, loc, gen) == DeriveSupport::Unknown,
        !gen.contains(type_root(t.name)) && is_float_root(type_root(t.name)) ==> support(t, d, loc, gen) == if d
            == FieldDerive::JsonEncode || d == FieldDerive::JsonDecode {
            DeriveSupport::Yes
        } else {
            DeriveSupport::No
        },
        !gen.contains(type_root(t.name)) && is_scalar_root(type_root(t.name)) ==> support(t, d, loc, gen)
            == DeriveSupport::Yes,
{
    lemma_root_literals();
    let root = type_root(t.name);
    if !gen.contains(root) {
        assert(support(t, d, loc, gen) == if d == FieldDerive::JsonEncode || d == FieldDerive::JsonDecode {
            json(t, root, d, loc, gen)
        } else {
            structural(t, root, d, loc, gen)
        });
    }
}

/// A local value type that does not derive `d` (for `Eq`, neither `Eq` nor
/// `Ord`) never supports it, whatever its arguments.
pub proof fn law_underived_local_types_fail(t: TypeView, d: FieldDerive, loc: Seq<LocalView>, gen: Seq<Seq<char>>, i: int)
    requires
        !gen.contains(type_root(t.name)),
        !is_float_root(type_root(t.name)),
        !is_scalar_root(type_root(t.name)),
        type_root(t.name) != "List"@,
        type_root(t.name) != "Option"@,
        type_root(t.name) != "Result"@,
        type_root(t.name) != "Map"@,
        type_root(t.name) != "Set"@,
        local_lookup(loc, type_root(t.name)) == Some(i),
        0 <= i < loc.len(),
        loc[i].is_value,
        !has_name(loc[i].derives, d.text()),
        d == FieldDerive::Eq ==> !has_name(loc[i].derives, "Ord"@),
    ensures
        support(t, d, loc, gen) == DeriveSupport::No,
{
    let root = type_root(t.name);
    assert(user(t, root, d, loc, gen) == DeriveSupport::No) by {
        reveal_strlit("Eq");
        reveal_strlit("Ord");
    }
    assert(support(t, d, loc, gen) == if d == FieldDerive::JsonEncode || d == FieldDerive::JsonDecode {
        json(t, root, d, loc, gen)
    } else {
        structural(t, root, d, loc, gen)
    });
}

proof fn lemma_hash_key_all_at_most(ts: Seq<TypeView>, loc: Seq<LocalView>, gen: Seq<Seq<char>>)
    ensures
        forall|i: int| 0 <= i < ts.len() ==> at_most(hash_key_all(ts, loc, gen), #[trigger] hash_key(ts[i], loc, gen)),
    decreases ts.len(),
{
    if ts.len() > 0 {
        lemma_hash_key_all_at_most(ts.drop_last(), loc, gen);
        lemma_combine_at_most(hash_key_all(ts.drop_last(), loc, gen), hash_key(ts.last(), loc, gen));
        assert forall|i: int| 0 <= i < ts.len() implies at_most(
            hash_key_all(ts, loc, gen),
            #[trigger] hash_key(ts[i], loc, gen),
        ) by {
            if i < ts.len() - 1 {
                assert(ts.drop_last()[i] == ts[i]);
            }
        }
    }
}

/// What can be a hashed key: never a generic parameter of the declaring
/// type, a float, a map or a set; every builtin scalar; a list or option
/// exactly as its element; a result at most as each of its types.
pub proof fn law_hash_key_verdicts(t: TypeView, loc: Seq<LocalView>, gen: Seq<Seq<char>>)
    ensures
        gen.contains(type_root(t.name)) ==> hash_key(t, loc, gen) == DeriveSupport::No,
        is_float_root(type_root(t.name)) ==> hash_key(t, loc, gen) == DeriveSupport::No,
        !gen.contains(type_root(t.name)) && is_scalar_root(type_root(t.name)) ==> hash_key(t, loc, gen)
            == DeriveSupport::Yes,
        type_root(t.name) == "Map"@ || type_root(t.name) == "Set"@ ==> hash_key(t, loc, gen) == DeriveSupport::No,
        !gen.contains(type_root(t.name)) && (type_root(t.name) == "List"@ || type_root(t.name) == "Option"@)
            && t.args.len() > 0 ==> hash_key(t, loc, gen) == hash_key(t.args[0], loc, gen),
        !gen.contains(type_root(t.name)) && type_root(t.name) == "Result"@ && t.args.len() > 0 ==> forall|i: int|
            0 <= i < t.args.len() ==> at_most(hash_key(t, loc, gen), #[trigger] hash_key(t.args[i], loc, gen)),
{
    lemma_root_literals();
    lemma_hash_key_all_at_most(t.args, loc, gen);
}

} // verus!
