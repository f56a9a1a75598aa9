//! TOML documents, through the `toml` crate.
//!
//! A table of the `toml` crate is opaque here. What the library reads of it
//! is its view: a map from keys to `TomlView`, which tells strings and tables
//! apart and carries every other kind of value as it is.
use vstd::prelude::*;

verus! {

broadcast use vstd::string::group_string_axioms;

/// The `toml` crate's table: a map from keys to values.
#[verifier::external_type_specification]
#[verifier::external_body]
#[verifier::reject_recursive_types(K)]
#[verifier::reject_recursive_types(V)]
pub struct ExTomlMap<K, V>(toml::map::Map<K, V>);

/// The `toml` crate's value.
#[verifier::external_type_specification]
#[verifier::external_body]
pub struct ExTomlValue(toml::Value);

/// A TOML table of the `toml` crate.
pub type Table = toml::map::Map<String, toml::Value>;

/// What the library reads of a TOML value: a string, a table (seen the same
/// way), or another value, carried unopened.
pub enum TomlView {
    Str(Seq<char>),
    Table(Map<Seq<char>, TomlView>),
    /// Any other value, carried as it is.
    Other(toml::Value),
}

/// The contents of a table: each key with the view of its value.
pub uninterp spec fn toml_table_view(t: toml::map::Map<String, toml::Value>) -> Map<
    Seq<char>,
    TomlView,
>;

/// The table that the `toml` crate parses from a text, or `None` where it
/// refuses the text.
pub uninterp spec fn toml_parsed(content: Seq<char>) -> Option<Map<Seq<char>, TomlView>>;

/// The text that the `toml` crate writes for a table, or `None` where it
/// fails.
pub uninterp spec fn toml_rendered(t: toml::map::Map<String, toml::Value>) -> Option<Seq<char>>;

/// The table under `name` in `doc`, or an empty table where there is none
/// or the value there is not a table.
pub open spec fn section_of(doc: Map<Seq<char>, TomlView>, name: Seq<char>) -> Map<Seq<char>, TomlView> {
    match doc.get(name) {
        Some(TomlView::Table(t)) => t,
        _ => Map::empty(),
    }
}

/// The string values of a table.
pub open spec fn string_entries(t: Map<Seq<char>, TomlView>) -> Map<Seq<char>, Seq<char>> {
    Map::new(|k: Seq<char>| t.contains_key(k) && t[k] is Str, |k: Seq<char>| t[k]->Str_0)
}

/// A value taken out of a table: a string, a table, or another value.
pub enum TomlEntry {
    Str(String),
    Table(Table),
    Other(toml::Value),
}

impl TomlEntry {
    pub open spec fn view_of(&self) -> TomlView {
        match self {
            TomlEntry::Str(s) => TomlView::Str(s@),
            TomlEntry::Table(t) => TomlView::Table(toml_table_view(*t)),
            TomlEntry::Other(v) => TomlView::Other(*v),
        }
    }
}

/// Parses a TOML document into a table (`toml::from_str::<toml::Table>`).
///
/// Trusted: the table is what the `toml` crate parses from the text, and it
/// fails exactly where the crate refuses the text; the error carries the
/// crate's message, of which nothing is stated.
#[verifier::external_body]
pub fn toml_parse(content: &str) -> (r: Result<Table, String>)
    ensures
        match r {
            Ok(t) => toml_parsed(content@) == Some(toml_table_view(t)),
            Err(_) => toml_parsed(content@) is None,
        },
{
    toml::from_str::<toml::Table>(content).map_err(|e| e.to_string())
}

/// Writes a table as a TOML document (`toml::to_string`).
///
/// Trusted: the text is what the `toml` crate writes for the table, and it
/// fails exactly where the crate fails; the error carries the crate's
/// message, of which nothing is stated.
#[verifier::external_body]
pub fn toml_render(t: &Table) -> (r: Result<String, String>)
    ensures
        match r {
            Ok(s) => toml_rendered(*t) == Some(s@),
            Err(_) => toml_rendered(*t) is None,
        },
{
    toml::to_string(t).map_err(|e| e.to_string())
}

/// An empty table (`toml::Table::new`).
///
/// Trusted: a new table has no key.
#[verifier::external_body]
pub fn toml_new_table() -> (r: Table)
    ensures
        toml_table_view(r).dom() == Set::<Seq<char>>::empty(),
{
    toml::Table::new()
}

/// The value of `key` in `t` (`toml::Table::get`), told apart as a string, a
/// table (a copy), or another value (a copy).
///
/// Trusted: `get` finds the value that the table holds for the key.
#[verifier::external_body]
pub fn toml_get(t: &Table, key: &str) -> (r: Option<TomlEntry>)
    ensures
        match r {
            Some(e) => toml_table_view(*t).contains_key(key@) && e.view_of() == toml_table_view(
                *t,
            )[key@],
            None => !toml_table_view(*t).contains_key(key@),
        },
{
    match t.get(key) {
        Some(toml::Value::String(s)) => Some(TomlEntry::Str(s.clone())),
        Some(toml::Value::Table(x)) => Some(TomlEntry::Table(x.clone())),
        Some(v) => Some(TomlEntry::Other(v.clone())),
        None => None,
    }
}

/// The entries of `t` (`toml::Table::iter`), each key with its value told
/// apart as in `toml_get`.
///
/// Trusted: the iteration hands out each key of the table once, with the
/// value that the table holds for it.
#[verifier::external_body]
pub fn toml_entries(t: &Table) -> (r: Vec<(String, TomlEntry)>)
    ensures
        forall|i: int, j: int| 0 <= i < j < r@.len() ==> r@[i].0@ != r@[j].0@,
        forall|i: int|
            0 <= i < r@.len() ==> toml_table_view(*t).contains_key(#[trigger] r@[i].0@)
                && r@[i].1.view_of() == toml_table_view(*t)[r@[i].0@],
        forall|k: Seq<char>|
            #[trigger] toml_table_view(*t).contains_key(k) ==> exists|i: int|
                0 <= i < r@.len() && #[trigger] r@[i].0@ == k,
{
    let mut r = Vec::new();
    for (k, v) in t.iter() {
        let e = match v {
            toml::Value::String(s) => TomlEntry::Str(s.clone()),
            toml::Value::Table(x) => TomlEntry::Table(x.clone()),
            other => TomlEntry::Other(other.clone()),
        };
        r.push((k.clone(), e));
    }
    r
}

/// Sets `key` to a string or a table in `t` (`toml::Table::insert`).
///
/// Trusted: after the insertion the key holds that value, and the other keys
/// are as they were.
#[verifier::external_body]
pub fn toml_insert(t: &mut Table, key: String, value: TomlEntry)
    requires
        !(value is Other),
    ensures
        toml_table_view(*final(t)) == toml_table_view(*old(t)).insert(key@, value.view_of()),
{
    let v = match value {
        TomlEntry::Str(s) => toml::Value::String(s),
        TomlEntry::Table(x) => toml::Value::Table(x),
        TomlEntry::Other(v) => v,
    };
    t.insert(key, v);
}

/// Removes `key` from `t` (`toml::Table::remove`) and hands back its value,
/// told apart as in `toml_get`.
///
/// Trusted: the key is gone afterwards, the other keys are as they were, and
/// the value handed back is the one the key held.
#[verifier::external_body]
pub fn toml_remove(t: &mut Table, key: &str) -> (r: Option<TomlEntry>)
    ensures
        toml_table_view(*final(t)) == toml_table_view(*old(t)).remove(key@),
        match r {
            Some(e) => toml_table_view(*old(t)).contains_key(key@) && e.view_of()
                == toml_table_view(*old(t))[key@],
            None => !toml_table_view(*old(t)).contains_key(key@),
        },
{
    match t.remove(key) {
        Some(toml::Value::String(s)) => Some(TomlEntry::Str(s)),
        Some(toml::Value::Table(x)) => Some(TomlEntry::Table(x)),
        Some(v) => Some(TomlEntry::Other(v)),
        None => None,
    }
}

/// The table under `name` in `doc` (a copy), or an empty table where there
/// is none or the value there is not a table.
pub fn section_table(doc: &Table, name: &str) -> (r: Table)
    ensures
        toml_table_view(r) == section_of(toml_table_view(*doc), name@),
{
    match toml_get(doc, name) {
        Some(TomlEntry::Table(t)) => t,
        _ => {
            let t = toml_new_table();
            assert(toml_table_view(t) =~= Map::empty());
            t
        },
    }
}

} // verus!
