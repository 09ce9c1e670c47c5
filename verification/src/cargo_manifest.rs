//! Which dependencies of a native package's Cargo manifest look like
//! parallel or worker backends. The manifest is parsed by the `toml` crate.
use vstd::prelude::*;
use crate::chars::{chars_of, contains_chars, contains_seq};

verus! {

/// The keys of the table `section` of a TOML document, in the order the
/// toml crate's map keeps them; `None` when the text is not TOML or has no
/// table under `section`. They depend on the text and the section alone.
pub uninterp spec fn toml_table_keys(source: Seq<char>, section: Seq<char>) -> Option<Seq<Seq<char>>>;

/// The keys of a top-level table of a TOML document: `str::parse::<toml::Value>`,
/// then `toml::Value::get`, `toml::Value::as_table` and
/// `toml::map::Map::keys`. The result is the name above.
#[verifier::external_body]
fn toml_section_keys(source: &str, section: &str) -> (r: Option<Vec<String>>)
    ensures
        match r {
            Some(keys) => toml_table_keys(source@, section@) == Some(texts(keys@)),
            None => toml_table_keys(source@, section@) is None,
        },
{
    let value = source.parse::<toml::Value>().ok()?;
    let table = value.get(section)?.as_table()?;
    Some(table.keys().cloned().collect())
}

/// A dependency whose name mentions `parallel` or `worker`.
pub open spec fn is_parallel_backend(name: Seq<char>) -> bool {
    contains_seq(name, "parallel"@) || contains_seq(name, "worker"@)
}

/// The names among `keys` that are parallel backends, in order.
pub open spec fn backends_among(keys: Seq<Seq<char>>) -> Seq<Seq<char>>
    decreases keys.len(),
{
    if keys.len() == 0 {
        Seq::empty()
    } else {
        backends_among(keys.drop_last()) + if is_parallel_backend(keys.last()) {
            seq![keys.last()]
        } else {
            Seq::empty()
        }
    }
}

/// The backends of each section that is a table, section by section.
pub open spec fn backends_in_sections(sections: Seq<Option<Seq<Seq<char>>>>) -> Seq<Seq<char>>
    decreases sections.len(),
{
    if sections.len() == 0 {
        Seq::empty()
    } else {
        backends_in_sections(sections.drop_last()) + match sections.last() {
            Some(keys) => backends_among(keys),
            None => Seq::empty(),
        }
    }
}

pub open spec fn section_views(v: Seq<Option<Vec<String>>>) -> Seq<Option<Seq<Seq<char>>>> {
    v.map_values(
        |s: Option<Vec<String>>|
            match s {
                Some(keys) => Some(keys@.map_values(|k: String| k@)),
                None => None,
            },
    )
}

pub open spec fn texts(v: Seq<String>) -> Seq<Seq<char>> {
    v.map_values(|s: String| s@)
}

/// The parallel backends named by the dependency sections of a manifest,
/// given the keys of each section that is a table (`None` for one that is
/// absent or not a table).
pub fn parallel_backends_in_sections(sections: &Vec<Option<Vec<String>>>) -> (r: Vec<String>)
    ensures
        texts(r@) == backends_in_sections(section_views(sections@)),
{
    let ghost sv = section_views(sections@);
    let mut out: Vec<String> = Vec::new();
    let parallel = chars_of("parallel");
    let worker = chars_of("worker");
    let mut s: usize = 0;
    while s < sections.len()
        invariant
            sv == section_views(sections@),
            s <= sections@.len(),
            parallel@ == "parallel"@,
            worker@ == "worker"@,
            texts(out@) == backends_in_sections(sv.take(s as int)),
        decreases sections.len() - s,
    {
        assert(sv.take(s + 1).drop_last() == sv.take(s as int));
        match &sections[s] {
            Some(keys) => {
                let ghost before = texts(out@);
                let ghost kv = keys@.map_values(|k: String| k@);
                assert(sv[s as int] == Some(kv));
                let mut i: usize = 0;
                while i < keys.len()
                    invariant
                        kv == keys@.map_values(|k: String| k@),
                        i <= keys@.len(),
                        parallel@ == "parallel"@,
                        worker@ == "worker"@,
                        texts(out@) == before + backends_among(kv.take(i as int)),
                    decreases keys.len() - i,
                {
                    assert(kv.take(i + 1).drop_last() == kv.take(i as int));
                    let name = chars_of(keys[i].as_str());
                    if contains_chars(name.as_slice(), parallel.as_slice()) || contains_chars(
                        name.as_slice(),
                        worker.as_slice(),
                    ) {
                        let c = keys[i].clone();
                        let ghost o = out@;
                        out.push(c);
                        assert(kv[i as int] == keys@[i as int]@);
                        assert(texts(out@) == texts(o).push(c@)) by {
                            assert(texts(o.push(c)) =~= texts(o).push(c@));
                        }
                        assert(texts(out@) =~= before + backends_among(kv.take(i + 1)));
                    } else {
                        assert(kv[i as int] == keys@[i as int]@);
                        assert(texts(out@) =~= before + backends_among(kv.take(i + 1)));
                    }
                    i += 1;
                }
                assert(kv.take(keys@.len() as int) == kv);
            },
            None => {
                assert(sv[s as int] == None::<Seq<Seq<char>>>);
                assert(texts(out@) =~= backends_in_sections(sv.take(s + 1)));
            },
        }
        s += 1;
    }
    assert(sv.take(sections@.len() as int) == sv);
    out
}

/// The key lists of a manifest's three dependency tables, in order.
pub open spec fn dependency_sections(source: Seq<char>) -> Seq<Option<Seq<Seq<char>>>> {
    seq![
        toml_table_keys(source, "dependencies"@),
        toml_table_keys(source, "dev-dependencies"@),
        toml_table_keys(source, "build-dependencies"@),
    ]
}

/// The dependencies of a manifest's `dependencies`, `dev-dependencies` and
/// `build-dependencies` tables whose names mention `parallel` or `worker`,
/// table by table in the parser's key order; none from a table that is
/// absent or from text that does not parse.
pub fn native_parallel_backends_from_cargo(cargo_source: &str) -> (r: Vec<String>)
    ensures
        texts(r@) == backends_in_sections(dependency_sections(cargo_source@)),
        forall|i: int| 0 <= i < r@.len() ==> is_parallel_backend(#[trigger] r@[i]@),
{
    let mut sections: Vec<Option<Vec<String>>> = Vec::new();
    sections.push(toml_section_keys(cargo_source, "dependencies"));
    sections.push(toml_section_keys(cargo_source, "dev-dependencies"));
    sections.push(toml_section_keys(cargo_source, "build-dependencies"));
    let r = parallel_backends_in_sections(&sections);
    proof {
        let sv = section_views(sections@);
        let want = dependency_sections(cargo_source@);
        assert forall|k: int| 0 <= k < 3 implies #[trigger] sv[k] == want[k] by {
            match sections@[k] {
                Some(keys) => {
                    assert(keys@.map_values(|s: String| s@) == texts(keys@));
                },
                None => {},
            }
        }
        assert(sv =~= want);
        lemma_backends_are_backends(sv);
        assert forall|i: int| 0 <= i < r@.len() implies is_parallel_backend(#[trigger] r@[i]@) by {
            assert(texts(r@)[i] == r@[i]@);
        }
    }
    r
}

proof fn lemma_among_are_backends(keys: Seq<Seq<char>>)
    ensures
        forall|i: int| 0 <= i < backends_among(keys).len() ==> is_parallel_backend(#[trigger] backends_among(keys)[i]),
    decreases keys.len(),
{
    if keys.len() > 0 {
        lemma_among_are_backends(keys.drop_last());
        let p = backends_among(keys.drop_last());
        assert forall|i: int| 0 <= i < backends_among(keys).len() implies is_parallel_backend(
            #[trigger] backends_among(keys)[i],
        ) by {
            if i < p.len() {
                assert(backends_among(keys)[i] == p[i]);
            }
        }
    }
}

proof fn lemma_backends_are_backends(sections: Seq<Option<Seq<Seq<char>>>>)
    ensures
        forall|i: int|
            0 <= i < backends_in_sections(sections).len() ==> is_parallel_backend(
                #[trigger] backends_in_sections(sections)[i],
            ),
    decreases sections.len(),
{
    if sections.len() > 0 {
        lemma_backends_are_backends(sections.drop_last());
        let p = backends_in_sections(sections.drop_last());
        let tail = match sections.last() {
            Some(keys) => backends_among(keys),
            None => Seq::empty(),
        };
        match sections.last() {
            Some(keys) => lemma_among_are_backends(keys),
            None => {},
        }
        assert forall|i: int| 0 <= i < backends_in_sections(sections).len() implies is_parallel_backend(
            #[trigger] backends_in_sections(sections)[i],
        ) by {
            if i < p.len() {
                assert(backends_in_sections(sections)[i] == p[i]);
            } else {
                assert(backends_in_sections(sections)[i] == tail[i - p.len()]);
            }
        }
    }
}

} // verus!
