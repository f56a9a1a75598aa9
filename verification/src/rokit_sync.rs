//! Writing the configured rokit tools into `rokit.toml`.
use vstd::prelude::*;
use crate::config::Rokit;
use crate::depmap::{has_name, index_of_name, lemma_sorted_index, sorted_names};
use crate::text::copy_text;
use crate::toml_doc::{
    Table, TomlEntry, TomlView, toml_entries, toml_get, toml_insert,
    toml_new_table, toml_parse, toml_parsed, toml_remove, toml_render, toml_rendered,
    toml_table_view, section_of,
};

verus! {

broadcast use vstd::string::group_string_axioms;

/// What a configured tool becomes in `rokit.toml`: a pinned spec overwrites
/// the entry; an empty spec keeps the installed entry, or adds the name.
pub open spec fn synced_value(old: Map<Seq<char>, TomlView>, name: Seq<char>, spec: Seq<char>) -> TomlView {
    if spec.len() > 0 {
        TomlView::Str(spec)
    } else if old.contains_key(name) {
        old[name]
    } else {
        TomlView::Str(name)
    }
}

/// The `[tools]` table of `rokit.toml` after syncing: exactly the configured
/// tools, each with its synced value.
pub open spec fn synced_tools(old: Map<Seq<char>, TomlView>, ours: Map<Seq<char>, Seq<char>>) -> Map<
    Seq<char>,
    TomlView,
> {
    Map::new(|k: Seq<char>| ours.contains_key(k), |k: Seq<char>| synced_value(old, k, ours[k]))
}

/// The `[tools]` table of a document: the table under `tools`, or an empty
/// one where there is none.
pub open spec fn tools_of(doc: Map<Seq<char>, TomlView>) -> Map<Seq<char>, TomlView> {
    section_of(doc, "tools"@)
}

/// `rokit.toml` after syncing: its other keys as they were, and `tools` the
/// synced table.
pub open spec fn synced_document(doc: Map<Seq<char>, TomlView>, ours: Map<Seq<char>, Seq<char>>) -> Map<
    Seq<char>,
    TomlView,
> {
    doc.insert("tools"@, TomlView::Table(synced_tools(tools_of(doc), ours)))
}

/// The table after the first `i` configured tools have been written.
pub open spec fn partly_synced(
    old: Map<Seq<char>, TomlView>,
    ps: Seq<(Seq<char>, Seq<char>)>,
    i: int,
) -> Map<Seq<char>, TomlView> {
    Map::new(
        |k: Seq<char>| old.contains_key(k) || has_name(ps.take(i), k),
        |k: Seq<char>|
            if has_name(ps.take(i), k) {
                synced_value(old, k, ps[index_of_name(ps.take(i), k)].1)
            } else {
                old[k]
            },
    )
}

/// Why `write_to_rokit` failed.
#[derive(Debug, PartialEq, Eq)]
pub enum RokitSyncError {
    /// The manifest is not TOML; the message of the TOML parser.
    Parse(String),
    /// `tools` is there but is not a table.
    ToolsNotTable,
    /// The TOML writer failed; its message.
    Serialize(String),
}

proof fn lemma_take_sorted(ps: Seq<(Seq<char>, Seq<char>)>, i: int)
    requires
        sorted_names(ps),
        0 <= i <= ps.len(),
    ensures
        sorted_names(ps.take(i)),
{
}

impl Rokit {
    /// Syncs a `[tools]` table with our tool map.
    /// - Tools with a pinned spec overwrite the existing entry.
    /// - Tools with an empty spec are added only if missing (preserves the installed version).
    /// - Tools in the table but not in our config are removed.
    pub fn sync_tools_table(&self, tools: &mut Table)
        requires
            self.wf(),
        ensures
            toml_table_view(*final(tools)) == synced_tools(
                toml_table_view(*old(tools)),
                self.tools.map(),
            ),
    {
        let ghost old_v = toml_table_view(*tools);
        let ghost ps = self.tools.pairs();
        let n = self.tools.len();
        let mut i: usize = 0;
        assert(partly_synced(old_v, ps, 0) =~= old_v) by {
            assert forall|k: Seq<char>| !has_name(ps.take(0), k) by {}
        }
        while i < n
            invariant
                self.wf(),
                ps == self.tools.pairs(),
                n == ps.len(),
                i <= n,
                toml_table_view(*tools) == partly_synced(old_v, ps, i as int),
            decreases n - i,
        {
            let name = self.tools.key_at(i);
            let spec = self.tools.value_at(i);
            let ghost before = toml_table_view(*tools);
            let ghost nm = ps[i as int].0;
            proof {
                lemma_take_sorted(ps, i as int);
                lemma_take_sorted(ps, i + 1);
                // The names written so far do not include this one.
                if has_name(ps.take(i as int), nm) {
                    let j = choose|j: int| 0 <= j < i && #[trigger] ps.take(i as int)[j].0 == nm;
                    lemma_sorted_index(ps, j);
                    lemma_sorted_index(ps, i as int);
                }
            }
            let ghost sv = synced_value(old_v, nm, ps[i as int].1);
            if spec.as_str().is_empty() {
                match toml_get(tools, name.as_str()) {
                    None => {
                        toml_insert(tools, copy_text(name.as_str()), TomlEntry::Str(copy_text(name.as_str())));
                    },
                    Some(_) => {},
                }
            } else {
                toml_insert(tools, copy_text(name.as_str()), TomlEntry::Str(copy_text(spec.as_str())));
            }
            proof {
                let after = partly_synced(old_v, ps, i + 1);
                let t1 = ps.take(i + 1);
                let t0 = ps.take(i as int);
                assert(toml_table_view(*tools) =~= before.insert(nm, sv));
                assert forall|k: Seq<char>| #[trigger] has_name(t1, k) == (has_name(t0, k) || k
                    == nm) by {
                    if has_name(t1, k) {
                        let j = choose|j: int| 0 <= j < t1.len() && #[trigger] t1[j].0 == k;
                        if j < i {
                            assert(t0[j].0 == k);
                        }
                    }
                    if has_name(t0, k) {
                        let j = choose|j: int| 0 <= j < t0.len() && #[trigger] t0[j].0 == k;
                        assert(t1[j].0 == k);
                    }
                    if k == nm {
                        assert(t1[i as int].0 == k);
                    }
                }
                assert forall|k: Seq<char>| #[trigger] has_name(t0, k) implies ps[index_of_name(
                    t1,
                    k,
                )].1 == ps[index_of_name(t0, k)].1 by {
                    let j = choose|j: int| 0 <= j < t0.len() && #[trigger] t0[j].0 == k;
                    lemma_sorted_index(t0, j);
                    assert(t1[j] == t0[j]);
                    lemma_sorted_index(t1, j);
                }
                assert(index_of_name(t1, nm) == i) by {
                    assert(t1[i as int].0 == nm);
                    lemma_sorted_index(t1, i as int);
                }
                assert(after =~= before.insert(nm, sv));
            }
            i = i + 1;
        }
        let ghost mid = toml_table_view(*tools);
        assert(ps.take(n as int) =~= ps);
        // Remove the tools that are not configured.
        let entries = toml_entries(tools);
        let m = entries.len();
        let mut j: usize = 0;
        while j < m
            invariant
                self.wf(),
                ps == self.tools.pairs(),
                m == entries@.len(),
                j <= m,
                mid == partly_synced(old_v, ps, ps.len() as int),
                ps.take(ps.len() as int) == ps,
                forall|k: Seq<char>| #[trigger]
                    mid.contains_key(k) ==> exists|x: int|
                        0 <= x < entries@.len() && #[trigger] entries@[x].0@ == k,
                forall|k: Seq<char>| #[trigger]
                    toml_table_view(*tools).contains_key(k) == (mid.contains_key(k) && (
                    self.tools.map().contains_key(k) || !exists|x: int|
                        0 <= x < j && #[trigger] entries@[x].0@ == k)),
                forall|k: Seq<char>| #[trigger]
                    toml_table_view(*tools).contains_key(k) ==> toml_table_view(*tools)[k]
                        == mid[k],
            decreases m - j,
        {
            let key = &entries[j].0;
            let ghost before = toml_table_view(*tools);
            if !self.tools.contains_key(key.as_str()) {
                toml_remove(tools, key.as_str());
            }
            proof {
                assert forall|k: Seq<char>| #[trigger]
                    toml_table_view(*tools).contains_key(k) == (mid.contains_key(k) && (
                    self.tools.map().contains_key(k) || !exists|x: int|
                        0 <= x < j + 1 && #[trigger] entries@[x].0@ == k)) by {
                    if exists|x: int| 0 <= x < j + 1 && #[trigger] entries@[x].0@ == k {
                        let x = choose|x: int| 0 <= x < j + 1 && #[trigger] entries@[x].0@ == k;
                        if x < j {
                            assert(exists|y: int| 0 <= y < j && #[trigger] entries@[y].0@ == k);
                        }
                    }
                    if exists|x: int| 0 <= x < j && #[trigger] entries@[x].0@ == k {
                        let x = choose|x: int| 0 <= x < j && #[trigger] entries@[x].0@ == k;
                        assert(exists|y: int| 0 <= y < j + 1 && #[trigger] entries@[y].0@ == k);
                    }
                    if k == entries@[j as int].0@ {
                        assert(exists|y: int| 0 <= y < j + 1 && #[trigger] entries@[y].0@ == k);
                    }
                }
            }
            j = j + 1;
        }
        proof {
            let ours = self.tools.map();
            let fin = toml_table_view(*tools);
            let want = synced_tools(old_v, ours);
            assert forall|k: Seq<char>| #[trigger] fin.contains_key(k) == want.contains_key(k) by {
                if ours.contains_key(k) {
                    assert(has_name(ps, k));
                    assert(mid.contains_key(k));
                }
                if mid.contains_key(k) && !ours.contains_key(k) {
                    let x = choose|x: int| 0 <= x < entries@.len() && #[trigger] entries@[x].0@ == k;
                    assert(exists|y: int| 0 <= y < m && #[trigger] entries@[y].0@ == k);
                }
            }
            assert forall|k: Seq<char>| #[trigger] fin.contains_key(k) implies fin[k] == want[k] by {
                assert(ours.contains_key(k));
                let x = choose|x: int| 0 <= x < ps.len() && #[trigger] ps[x].0 == k;
                lemma_sorted_index(ps, x);
                assert(has_name(ps, k));
            }
            assert(fin =~= want);
        }
    }

    /// `rokit.toml` with its `[tools]` table synced with our tool map (see
    /// `sync_tools_table`); a missing `[tools]` table is created. The caller
    /// reads the manifest and writes the result back.
    pub fn write_to_rokit(&self, content: &str) -> (r: Result<String, RokitSyncError>)
        requires
            self.wf(),
        ensures
            toml_parsed(content@) is None <==> r matches Err(RokitSyncError::Parse(_)),
            (toml_parsed(content@) matches Some(doc) && doc.contains_key("tools"@)
                && !(doc["tools"@] is Table)) <==> r matches Err(RokitSyncError::ToolsNotTable),
            r matches Ok(s) ==> toml_parsed(content@) is Some && exists|t: Table|
                #![trigger toml_rendered(t)]
                toml_rendered(t) == Some(s@) && toml_table_view(t) == synced_document(
                    toml_parsed(content@).unwrap(),
                    self.tools.map(),
                ),
            r matches Err(RokitSyncError::Serialize(_)) ==> toml_parsed(content@) is Some
                && exists|t: Table|
                #![trigger toml_rendered(t)]
                toml_rendered(t) is None && toml_table_view(t) == synced_document(
                    toml_parsed(content@).unwrap(),
                    self.tools.map(),
                ),
    {
        let mut doc = match toml_parse(content) {
            Ok(t) => t,
            Err(msg) => return Err(RokitSyncError::Parse(msg)),
        };
        let ghost parsed = toml_table_view(doc);
        let mut tools = match toml_remove(&mut doc, "tools") {
            None => toml_new_table(),
            Some(TomlEntry::Table(t)) => t,
            Some(_) => return Err(RokitSyncError::ToolsNotTable),
        };
        let ghost old_tools = toml_table_view(tools);
        assert(old_tools =~= tools_of(parsed));
        self.sync_tools_table(&mut tools);
        let ghost synced = toml_table_view(tools);
        toml_insert(&mut doc, copy_text("tools"), TomlEntry::Table(tools));
        assert(toml_table_view(doc) =~= synced_document(parsed, self.tools.map()));
        match toml_render(&doc) {
            Ok(s) => Ok(s),
            Err(msg) => Err(RokitSyncError::Serialize(msg)),
        }
    }
}

} // verus!
