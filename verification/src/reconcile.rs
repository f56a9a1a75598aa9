//! Bringing `rbx_project.toml` in line with the tool manifests on disk
//! (`rokit.toml`, `wally.toml`, `pesde.toml`).
use vstd::prelude::*;
use crate::config::{Config, Pesde, PesdeDependency, PesdeDependencyView, Rokit, Wally};
use crate::depmap::DepMap;
use crate::text::copy_text;
use crate::toml_doc::{
    Table, TomlEntry, TomlView, section_of, section_table, string_entries, toml_entries, toml_get,
    toml_parse, toml_parsed, toml_table_view,
};

verus! {

broadcast use vstd::string::group_string_axioms;

/// The string under `key` in `t`, if that is a string.
pub open spec fn string_at(t: Map<Seq<char>, TomlView>, key: Seq<char>) -> Option<Seq<char>> {
    match t.get(key) {
        Some(TomlView::Str(s)) => Some(s),
        _ => None,
    }
}

/// The `version` of an inline dependency table, or the empty text.
pub open spec fn version_of(t: Map<Seq<char>, TomlView>) -> Seq<char> {
    match string_at(t, "version"@) {
        Some(v) => v,
        None => Seq::empty(),
    }
}

/// The pesde dependency that a TOML value stands for: an inline table with a
/// `wally` string is a Wally package, else one with a `name` string is a
/// pesde package; anything else is none.
pub open spec fn pesde_dep_of(v: TomlView) -> Option<PesdeDependencyView> {
    match v {
        TomlView::Table(t) => match string_at(t, "wally"@) {
            Some(w) => Some(PesdeDependencyView::WallySource { wally: w, version: version_of(t) }),
            None => match string_at(t, "name"@) {
                Some(n) => Some(PesdeDependencyView::Standard { name: n, version: version_of(t) }),
                None => None,
            },
        },
        _ => None,
    }
}

/// The pesde dependencies of a table, by alias.
pub open spec fn pesde_entries(t: Map<Seq<char>, TomlView>) -> Map<Seq<char>, PesdeDependencyView> {
    Map::new(
        |k: Seq<char>| t.contains_key(k) && pesde_dep_of(t[k]) is Some,
        |k: Seq<char>| pesde_dep_of(t[k])->Some_0,
    )
}

/// The string under `key` in `t`, if that is a string.
fn string_in(t: &Table, key: &str) -> (r: Option<String>)
    ensures
        match r {
            Some(s) => string_at(toml_table_view(*t), key@) == Some(s@),
            None => string_at(toml_table_view(*t), key@) is None,
        },
{
    match toml_get(t, key) {
        Some(TomlEntry::Str(s)) => Some(s),
        _ => None,
    }
}

/// The string values of a table, by key.
pub fn string_entries_of(t: &Table) -> (r: DepMap<String>)
    ensures
        r.wf(),
        r.map() == string_entries(toml_table_view(*t)),
{
    let ghost v = toml_table_view(*t);
    let ghost want = string_entries(v);
    let entries = toml_entries(t);
    let mut r: DepMap<String> = DepMap::new();
    let mut i: usize = 0;
    while i < entries.len()
        invariant
            r.wf(),
            i <= entries@.len(),
            v == toml_table_view(*t),
            want == string_entries(v),
            forall|a: int, b: int| 0 <= a < b < entries@.len() ==> entries@[a].0@ != entries@[b].0@,
            forall|x: int|
                0 <= x < entries@.len() ==> v.contains_key(#[trigger] entries@[x].0@)
                    && entries@[x].1.view_of() == v[entries@[x].0@],
            forall|k: Seq<char>|
                #[trigger] v.contains_key(k) ==> exists|x: int|
                    0 <= x < entries@.len() && #[trigger] entries@[x].0@ == k,
            forall|k: Seq<char>| #[trigger]
                r.map().contains_key(k) == (want.contains_key(k) && exists|x: int|
                    0 <= x < i && #[trigger] entries@[x].0@ == k),
            forall|k: Seq<char>| #[trigger] r.map().contains_key(k) ==> r.map()[k] == want[k],
        decreases entries@.len() - i,
    {
        let ghost before = r.map();
        let ghost key = entries@[i as int].0@;
        assert(!before.contains_key(key)) by {
            if before.contains_key(key) {
                let x = choose|x: int| 0 <= x < i && #[trigger] entries@[x].0@ == key;
            }
        }
        match &entries[i].1 {
            TomlEntry::Str(s) => {
                r.insert_if_absent(copy_text(entries[i].0.as_str()), copy_text(s.as_str()));
            },
            _ => {},
        }
        proof {
            assert forall|k: Seq<char>| #[trigger]
                r.map().contains_key(k) == (want.contains_key(k) && exists|x: int|
                    0 <= x < i + 1 && #[trigger] entries@[x].0@ == k) by {
                if exists|x: int| 0 <= x < i + 1 && #[trigger] entries@[x].0@ == k {
                    let x = choose|x: int| 0 <= x < i + 1 && #[trigger] entries@[x].0@ == k;
                    if x < i {
                        assert(exists|y: int| 0 <= y < i && #[trigger] entries@[y].0@ == k);
                    }
                }
                if exists|x: int| 0 <= x < i && #[trigger] entries@[x].0@ == k {
                    let x = choose|x: int| 0 <= x < i && #[trigger] entries@[x].0@ == k;
                    assert(exists|y: int| 0 <= y < i + 1 && #[trigger] entries@[y].0@ == k);
                }
                if k == key {
                    assert(entries@[i as int].0@ == k);
                }
            }
        }
        i = i + 1;
    }
    proof {
        assert forall|k: Seq<char>| #[trigger] r.map().contains_key(k) == want.contains_key(k) by {
            if want.contains_key(k) {
                let x = choose|x: int| 0 <= x < entries@.len() && #[trigger] entries@[x].0@ == k;
            }
        }
        assert(r.map() =~= want);
    }
    r
}

/// Parses a single pesde dependency value (inline table) into a PesdeDependency.
pub fn parse_pesde_dep(value: &TomlEntry) -> (r: Option<PesdeDependency>)
    ensures
        match r {
            Some(d) => pesde_dep_of(value.view_of()) == Some(d@),
            None => pesde_dep_of(value.view_of()) is None,
        },
{
    match value {
        TomlEntry::Table(t) => {
            match string_in(t, "wally") {
                Some(wally) => {
                    let version = match string_in(t, "version") {
                        Some(v) => v,
                        None => String::new(),
                    };
                    Some(PesdeDependency::WallySource { wally, version })
                },
                None => match string_in(t, "name") {
                    Some(name) => {
                        let version = match string_in(t, "version") {
                            Some(v) => v,
                            None => String::new(),
                        };
                        Some(PesdeDependency::Standard { name, version })
                    },
                    None => None,
                },
            }
        },
        _ => None,
    }
}

/// The pesde dependencies of a table, by alias; values that are not a
/// dependency are left out.
pub fn pesde_entries_of(t: &Table) -> (r: DepMap<PesdeDependency>)
    ensures
        r.wf(),
        r.map() == pesde_entries(toml_table_view(*t)),
{
    let ghost v = toml_table_view(*t);
    let ghost want = pesde_entries(v);
    let entries = toml_entries(t);
    let mut r: DepMap<PesdeDependency> = DepMap::new();
    let mut i: usize = 0;
    while i < entries.len()
        invariant
            r.wf(),
            i <= entries@.len(),
            v == toml_table_view(*t),
            want == pesde_entries(v),
            forall|a: int, b: int| 0 <= a < b < entries@.len() ==> entries@[a].0@ != entries@[b].0@,
            forall|x: int|
                0 <= x < entries@.len() ==> v.contains_key(#[trigger] entries@[x].0@)
                    && entries@[x].1.view_of() == v[entries@[x].0@],
            forall|k: Seq<char>|
                #[trigger] v.contains_key(k) ==> exists|x: int|
                    0 <= x < entries@.len() && #[trigger] entries@[x].0@ == k,
            forall|k: Seq<char>| #[trigger]
                r.map().contains_key(k) == (want.contains_key(k) && exists|x: int|
                    0 <= x < i && #[trigger] entries@[x].0@ == k),
            forall|k: Seq<char>| #[trigger] r.map().contains_key(k) ==> r.map()[k] == want[k],
        decreases entries@.len() - i,
    {
        let ghost before = r.map();
        let ghost key = entries@[i as int].0@;
        assert(!before.contains_key(key)) by {
            if before.contains_key(key) {
                let x = choose|x: int| 0 <= x < i && #[trigger] entries@[x].0@ == key;
            }
        }
        match parse_pesde_dep(&entries[i].1) {
            Some(d) => {
                r.insert_if_absent(copy_text(entries[i].0.as_str()), d);
            },
            None => {},
        }
        proof {
            assert forall|k: Seq<char>| #[trigger]
                r.map().contains_key(k) == (want.contains_key(k) && exists|x: int|
                    0 <= x < i + 1 && #[trigger] entries@[x].0@ == k) by {
                if exists|x: int| 0 <= x < i + 1 && #[trigger] entries@[x].0@ == k {
                    let x = choose|x: int| 0 <= x < i + 1 && #[trigger] entries@[x].0@ == k;
                    if x < i {
                        assert(exists|y: int| 0 <= y < i && #[trigger] entries@[y].0@ == k);
                    }
                }
                if exists|x: int| 0 <= x < i && #[trigger] entries@[x].0@ == k {
                    let x = choose|x: int| 0 <= x < i && #[trigger] entries@[x].0@ == k;
                    assert(exists|y: int| 0 <= y < i + 1 && #[trigger] entries@[y].0@ == k);
                }
                if k == key {
                    assert(entries@[i as int].0@ == k);
                }
            }
        }
        i = i + 1;
    }
    proof {
        assert forall|k: Seq<char>| #[trigger] r.map().contains_key(k) == want.contains_key(k) by {
            if want.contains_key(k) {
                let x = choose|x: int| 0 <= x < entries@.len() && #[trigger] entries@[x].0@ == k;
            }
        }
        assert(r.map() =~= want);
    }
    r
}

/// Parses a wally dependency section table into a map.
pub fn parse_wally_deps(table: &Table, section: &str) -> (r: DepMap<String>)
    ensures
        r.wf(),
        r.map() == string_entries(section_of(toml_table_view(*table), section@)),
{
    string_entries_of(&section_table(table, section))
}

/// Parses a pesde dependency section table into a map.
pub fn parse_pesde_deps(table: &Table, section: &str) -> (r: DepMap<PesdeDependency>)
    ensures
        r.wf(),
        r.map() == pesde_entries(section_of(toml_table_view(*table), section@)),
{
    pesde_entries_of(&section_table(table, section))
}

/// The tools of a parsed `rokit.toml`: the string values of `[tools]`.
pub open spec fn rokit_tools_of(doc: Map<Seq<char>, TomlView>) -> Map<Seq<char>, Seq<char>> {
    string_entries(section_of(doc, "tools"@))
}

/// The dependencies of a parsed `wally.toml` in one section.
pub open spec fn wally_deps_of(doc: Map<Seq<char>, TomlView>, section: Seq<char>) -> Map<
    Seq<char>,
    Seq<char>,
> {
    string_entries(section_of(doc, section))
}

/// The dependencies of a parsed `pesde.toml` in one section.
pub open spec fn pesde_deps_of(doc: Map<Seq<char>, TomlView>, section: Seq<char>) -> Map<
    Seq<char>,
    PesdeDependencyView,
> {
    pesde_entries(section_of(doc, section))
}

impl Rokit {
    /// The tools of a parsed `rokit.toml`.
    pub fn from_toml_table(doc: &Table) -> (r: Rokit)
        ensures
            r.wf(),
            r.tools.map() == rokit_tools_of(toml_table_view(*doc)),
    {
        Rokit { tools: parse_wally_deps(doc, "tools") }
    }
}

impl Wally {
    /// The dependencies of a parsed `wally.toml`.
    pub fn from_toml_table(doc: &Table) -> (r: Wally)
        ensures
            r.wf(),
            r.shared.map() == wally_deps_of(toml_table_view(*doc), "dependencies"@),
            r.server.map() == wally_deps_of(toml_table_view(*doc), "server-dependencies"@),
            r.dev.map() == wally_deps_of(toml_table_view(*doc), "dev-dependencies"@),
    {
        Wally {
            shared: parse_wally_deps(doc, "dependencies"),
            server: parse_wally_deps(doc, "server-dependencies"),
            dev: parse_wally_deps(doc, "dev-dependencies"),
        }
    }
}

impl Pesde {
    /// The dependencies of a parsed `pesde.toml`.
    pub fn from_toml_table(doc: &Table) -> (r: Pesde)
        ensures
            r.wf(),
            r.dependencies.map() == pesde_deps_of(toml_table_view(*doc), "dependencies"@),
            r.peer_dependencies.map() == pesde_deps_of(
                toml_table_view(*doc),
                "peer_dependencies"@,
            ),
            r.dev_dependencies.map() == pesde_deps_of(toml_table_view(*doc), "dev_dependencies"@),
    {
        Pesde {
            dependencies: parse_pesde_deps(doc, "dependencies"),
            peer_dependencies: parse_pesde_deps(doc, "peer_dependencies"),
            dev_dependencies: parse_pesde_deps(doc, "dev_dependencies"),
        }
    }
}

/// Parses `rokit.toml` and returns a `Rokit` with the tools map populated.
pub fn read_rokit(content: &str) -> (r: Result<Rokit, String>)
    ensures
        match r {
            Ok(rokit) => toml_parsed(content@) is Some && rokit.wf() && rokit.tools.map()
                == rokit_tools_of(toml_parsed(content@).unwrap()),
            Err(_) => toml_parsed(content@) is None,
        },
{
    let table = toml_parse(content)?;
    Ok(Rokit::from_toml_table(&table))
}

/// Parses `wally.toml` and returns a `Wally` with dependencies populated.
pub fn read_wally(content: &str) -> (r: Result<Wally, String>)
    ensures
        match r {
            Ok(w) => toml_parsed(content@) is Some && w.wf() && w.shared.map() == wally_deps_of(
                toml_parsed(content@).unwrap(),
                "dependencies"@,
            ) && w.server.map() == wally_deps_of(
                toml_parsed(content@).unwrap(),
                "server-dependencies"@,
            ) && w.dev.map() == wally_deps_of(
                toml_parsed(content@).unwrap(),
                "dev-dependencies"@,
            ),
            Err(_) => toml_parsed(content@) is None,
        },
{
    let table = toml_parse(content)?;
    Ok(Wally::from_toml_table(&table))
}

/// Parses `pesde.toml` and returns a `Pesde` with dependencies populated.
pub fn read_pesde(content: &str) -> (r: Result<Pesde, String>)
    ensures
        match r {
            Ok(p) => toml_parsed(content@) is Some && p.wf() && p.dependencies.map()
                == pesde_deps_of(toml_parsed(content@).unwrap(), "dependencies"@)
                && p.peer_dependencies.map() == pesde_deps_of(
                toml_parsed(content@).unwrap(),
                "peer_dependencies"@,
            ) && p.dev_dependencies.map() == pesde_deps_of(
                toml_parsed(content@).unwrap(),
                "dev_dependencies"@,
            ),
            Err(_) => toml_parsed(content@) is None,
        },
{
    let table = toml_parse(content)?;
    Ok(Pesde::from_toml_table(&table))
}

/// A manifest is there and the TOML parser refuses it.
pub open spec fn refused(content: Option<&str>) -> bool {
    match content {
        Some(c) => toml_parsed(c@) is None,
        None => false,
    }
}

/// Which manifest could not be parsed, with the parser's message.
#[derive(Debug, PartialEq, Eq)]
pub enum ReconcileError {
    Rokit(String),
    Wally(String),
    Pesde(String),
}

/// Updates the configuration to match the manifests on disk; each is given
/// by its text, or `None` where the file does not exist.
/// - A `rokit.toml` replaces the tools; without one they stay.
/// - A `wally.toml` (`pesde.toml`) replaces the Wally (pesde) section;
///   without one the section is removed.
/// The manifests are parsed in that order and the first that does not parse
/// is reported.
pub fn run(
    config: &mut Config,
    rokit_toml: Option<&str>,
    wally_toml: Option<&str>,
    pesde_toml: Option<&str>,
) -> (r: Result<(), ReconcileError>)
    requires
        old(config).wf(),
    ensures
        final(config).wf(),
        final(config).template_name == old(config).template_name,
        r matches Err(ReconcileError::Rokit(_)) <==> refused(rokit_toml),
        r matches Err(ReconcileError::Wally(_)) <==> !refused(rokit_toml) && refused(wally_toml),
        r matches Err(ReconcileError::Pesde(_)) <==> !refused(rokit_toml) && !refused(wally_toml)
            && refused(pesde_toml),
        r is Ok ==> {
            &&& (rokit_toml matches Some(c) ==> final(config).rokit.tools.map() == rokit_tools_of(
                toml_parsed(c@).unwrap(),
            ))
            &&& (rokit_toml is None ==> final(config).rokit.tools.map()
                == old(config).rokit.tools.map())
            &&& (final(config).wally is Some <==> wally_toml is Some)
            &&& (wally_toml matches Some(c) ==> {
                let doc = toml_parsed(c@).unwrap();
                let w = final(config).wally.unwrap();
                &&& w.shared.map() == wally_deps_of(doc, "dependencies"@)
                &&& w.server.map() == wally_deps_of(doc, "server-dependencies"@)
                &&& w.dev.map() == wally_deps_of(doc, "dev-dependencies"@)
            })
            &&& (final(config).pesde is Some <==> pesde_toml is Some)
            &&& (pesde_toml matches Some(c) ==> {
                let doc = toml_parsed(c@).unwrap();
                let p = final(config).pesde.unwrap();
                &&& p.dependencies.map() == pesde_deps_of(doc, "dependencies"@)
                &&& p.peer_dependencies.map() == pesde_deps_of(doc, "peer_dependencies"@)
                &&& p.dev_dependencies.map() == pesde_deps_of(doc, "dev_dependencies"@)
            })
        },
{
    if let Some(c) = rokit_toml {
        match read_rokit(c) {
            Ok(rokit) => config.rokit = rokit,
            Err(msg) => return Err(ReconcileError::Rokit(msg)),
        }
    }
    match wally_toml {
        Some(c) => match read_wally(c) {
            Ok(w) => config.wally = Some(w),
            Err(msg) => return Err(ReconcileError::Wally(msg)),
        },
        None => config.wally = None,
    }
    match pesde_toml {
        Some(c) => match read_pesde(c) {
            Ok(p) => config.pesde = Some(p),
            Err(msg) => return Err(ReconcileError::Pesde(msg)),
        },
        None => config.pesde = None,
    }
    Ok(())
}

} // verus!
