//! Properties of the library as a whole, stated over the mathematical
//! meaning of its operations.
use vstd::prelude::*;
use crate::cli::insert_if_absent;
use crate::config::{
    Config, Pesde, PesdeDependencyView, Wally, before_version, resolved_spec, first_marker, manifest_info, manifest_text, pesde_section, section_text,
    short_name_of, wally_section,
};
use crate::depmap::DepMap;
use crate::reconcile::pesde_dep_of;
use crate::create::{SetupStepView, rokit_add_steps, setup_steps, step_if};
use crate::home::{HomeCandidate, HomeSearchAction, home_order, home_step, lemma_absent, lemma_index};
use crate::rokit_sync::{synced_document, synced_tools};
use crate::text::{
    find, is_ws, lemma_find_char, lemma_find_from_first, lemma_find_from_sound,
    lemma_find_is, lemma_rfind_char, occurs_at, rfind_char, trim, trim_end, trim_start,
};
use crate::toml_doc::{TomlView, section_of};

verus! {

/// A short tool name holds neither `@` nor `/`.
pub proof fn law_short_name_is_bare(spec: Seq<char>)
    ensures
        !short_name_of(spec).contains('@'),
        !short_name_of(spec).contains('/'),
{
    let w = before_version(spec);
    lemma_find_char(spec, '@');
    assert(!w.contains('@')) by {
        if let Some(i) = find(spec, seq!['@']) {
            assert forall|j: int| 0 <= j < w.len() implies w[j] != '@' by {
                assert(w[j] == spec[j]);
            }
        }
    }
    lemma_rfind_char(w, '/');
    let r = short_name_of(spec);
    if let Some(k) = rfind_char(w, '/') {
        assert forall|j: int| 0 <= j < r.len() implies r[j] != '@' && r[j] != '/' by {
            assert(r[j] == w[k + 1 + j]);
        }
    }
}

/// The short name of a short name is itself: a tool added by its short name
/// keeps it.
pub proof fn law_short_name_idempotent(spec: Seq<char>)
    ensures
        short_name_of(short_name_of(spec)) == short_name_of(spec),
{
    let r = short_name_of(spec);
    law_short_name_is_bare(spec);
    lemma_find_char(r, '@');
    lemma_rfind_char(r, '/');
    assert(before_version(r) == r);
}

/// Adding an entry that is not there and then removing it gives back the
/// map: `remove_tool` (`wally_remove_dependency`, `pesde_remove_dependency`)
/// undoes `add_tool` (`wally_add_dependency`, `pesde_add_dependency`) of a new
/// name.
pub proof fn law_remove_undoes_add<V>(m: Map<Seq<char>, V>, k: Seq<char>, v: V)
    requires
        !m.contains_key(k),
    ensures
        insert_if_absent(m, k, v).remove(k) == m,
{
    assert(insert_if_absent(m, k, v).remove(k) =~= m);
}

/// After an entry is added, its name is there: after `add_tool(spec)`,
/// `has_tool` answers yes for the short name of `spec`.
pub proof fn law_added_name_is_present<V>(m: Map<Seq<char>, V>, k: Seq<char>, v: V)
    ensures
        insert_if_absent(m, k, v).contains_key(k),
{
}

/// A name added where it was not reads back with the value it was added
/// with (`DepMap::get`, `Rokit::has_tool`).
pub proof fn law_added_value_is_read_back<V>(m: Map<Seq<char>, V>, k: Seq<char>, v: V)
    requires
        !m.contains_key(k),
    ensures
        insert_if_absent(m, k, v)[k] == v,
{
}

/// Adding the same entry twice is adding it once, and adding a name that is
/// there keeps its value.
pub proof fn law_add_idempotent<V>(m: Map<Seq<char>, V>, k: Seq<char>, v: V, w: V)
    ensures
        insert_if_absent(insert_if_absent(m, k, v), k, w) == insert_if_absent(m, k, v),
        m.contains_key(k) ==> insert_if_absent(m, k, v) == m,
{
}

/// Syncing the tools twice is syncing them once.
pub proof fn law_sync_tools_idempotent(old: Map<Seq<char>, TomlView>, ours: Map<Seq<char>, Seq<char>>)
    ensures
        synced_tools(synced_tools(old, ours), ours) == synced_tools(old, ours),
{
    assert(synced_tools(synced_tools(old, ours), ours) =~= synced_tools(old, ours));
}

/// Writing the tools into `rokit.toml` twice is writing them once.
pub proof fn law_sync_document_idempotent(
    doc: Map<Seq<char>, TomlView>,
    ours: Map<Seq<char>, Seq<char>>,
)
    ensures
        synced_document(synced_document(doc, ours), ours) == synced_document(doc, ours),
{
    let once = synced_document(doc, ours);
    assert(section_of(once, "tools"@) == synced_tools(section_of(doc, "tools"@), ours));
    law_sync_tools_idempotent(section_of(doc, "tools"@), ours);
    assert(synced_document(once, ours) =~= once);
}

/// Two maps with the same contents hand out their entries in the same order,
/// so what is written from them is the same.
pub proof fn law_order_follows_contents<V: View>(a: DepMap<V>, b: DepMap<V>)
    requires
        a.wf(),
        b.wf(),
        a.map() == b.map(),
    ensures
        a.pairs() == b.pairs(),
{
    crate::depmap::lemma_sorted_pairs_unique(a.pairs(), b.pairs());
}

// ---------------------------------------------------------------------------
// Rewriting a manifest twice
// ---------------------------------------------------------------------------

/// `trim_start` drops a run of white space from the front.
proof fn lemma_trim_start_index(x: Seq<char>) -> (a: int)
    ensures
        0 <= a <= x.len(),
        trim_start(x) == x.subrange(a, x.len() as int),
        forall|j: int| 0 <= j < a ==> is_ws(#[trigger] x[j]),
        a < x.len() ==> !is_ws(x[a]),
    decreases x.len(),
{
    if x.len() > 0 && is_ws(x[0]) {
        let b = lemma_trim_start_index(x.drop_first());
        assert(x.drop_first().subrange(b, x.drop_first().len() as int) =~= x.subrange(
            b + 1,
            x.len() as int,
        ));
        assert forall|j: int| 0 <= j < b + 1 implies is_ws(#[trigger] x[j]) by {
            if j > 0 {
                assert(x[j] == x.drop_first()[j - 1]);
            }
        }
        b + 1
    } else {
        assert(x.subrange(0, x.len() as int) =~= x);
        0
    }
}

/// `trim_end` drops a run of white space from the back.
proof fn lemma_trim_end_index(x: Seq<char>) -> (b: int)
    ensures
        0 <= b <= x.len(),
        trim_end(x) == x.subrange(0, b),
        forall|j: int| b <= j < x.len() ==> is_ws(#[trigger] x[j]),
        b > 0 ==> !is_ws(x[b - 1]),
    decreases x.len(),
{
    if x.len() > 0 && is_ws(x.last()) {
        let b = lemma_trim_end_index(x.drop_last());
        assert(x.drop_last().subrange(0, b) =~= x.subrange(0, b));
        assert forall|j: int| b <= j < x.len() implies is_ws(#[trigger] x[j]) by {
            if j < x.len() - 1 {
                assert(x[j] == x.drop_last()[j]);
            }
        }
        b
    } else {
        assert(x.subrange(0, x.len() as int) =~= x);
        x.len() as int
    }
}

/// `trim` keeps a middle part, which starts and ends with a character that
/// is not white space.
proof fn lemma_trim_range(x: Seq<char>) -> (r: (int, int))
    ensures
        0 <= r.0 <= r.1 <= x.len(),
        trim(x) == x.subrange(r.0, r.1),
        r.0 < r.1 ==> !is_ws(x[r.0]) && !is_ws(x[r.1 - 1]),
{
    let a = lemma_trim_start_index(x);
    let y = trim_start(x);
    let b = lemma_trim_end_index(y);
    assert(y.subrange(0, b) =~= x.subrange(a, a + b));
    if b > 0 {
        assert(y[0] == x[a]);
        assert(y[b - 1] == x[a + b - 1]);
    }
    (a, a + b)
}

/// A text that starts and ends with a character that is not white space is
/// its own trim.
proof fn lemma_trim_fixed(y: Seq<char>)
    requires
        y.len() > 0 ==> !is_ws(y[0]) && !is_ws(y.last()),
    ensures
        trim(y) == y,
{
}

/// `trim` is idempotent.
proof fn lemma_trim_idempotent(x: Seq<char>)
    ensures
        trim(trim(x)) == trim(x),
{
    let (a, b) = lemma_trim_range(x);
    let y = trim(x);
    if y.len() > 0 {
        assert(y[0] == x[a]);
        assert(y.last() == x[b - 1]);
    }
    lemma_trim_fixed(y);
}

/// White space at the end of `a + b` is white space at the end of `b`, when
/// `b` holds something else.
proof fn lemma_trim_end_concat(a: Seq<char>, b: Seq<char>, k: int)
    requires
        0 <= k < b.len(),
        !is_ws(b[k]),
    ensures
        trim_end(a + b) == a + trim_end(b),
    decreases b.len(),
{
    if is_ws(b.last()) {
        assert((a + b).last() == b.last());
        assert((a + b).drop_last() =~= a + b.drop_last());
        lemma_trim_end_concat(a, b.drop_last(), k);
    } else {
        assert((a + b).last() == b.last());
    }
}

/// White space in front of `b` is dropped by `trim_start`.
proof fn lemma_trim_start_ws_prefix(w: Seq<char>, b: Seq<char>)
    requires
        forall|j: int| 0 <= j < w.len() ==> is_ws(#[trigger] w[j]),
    ensures
        trim_start(w + b) == trim_start(b),
    decreases w.len(),
{
    if w.len() > 0 {
        assert((w + b)[0] == w[0]);
        assert((w + b).drop_first() =~= w.drop_first() + b);
        assert forall|j: int| 0 <= j < w.drop_first().len() implies is_ws(
            #[trigger] w.drop_first()[j],
        ) by {
            assert(w.drop_first()[j] == w[j + 1]);
        }
        lemma_trim_start_ws_prefix(w.drop_first(), b);
    } else {
        assert(w + b =~= b);
    }
}

/// An occurrence in a part is an occurrence in the whole.
proof fn lemma_occurs_in_part(x: Seq<char>, p: Seq<char>, lo: int, hi: int, j: int)
    requires
        0 <= lo <= hi <= x.len(),
        occurs_at(x.subrange(lo, hi), p, j),
    ensures
        occurs_at(x, p, lo + j),
{
    assert(x.subrange(lo, hi).subrange(j, j + p.len()) =~= x.subrange(lo + j, lo + j + p.len()));
}

/// `p` occurs nowhere in `x`.
pub open spec fn absent(x: Seq<char>, p: Seq<char>) -> bool {
    forall|j: int| !#[trigger] occurs_at(x, p, j)
}

/// The prefix of `x` before the first occurrence of `p`, or all of `x` when
/// `p` does not occur, holds no occurrence of `p`.
proof fn lemma_absent_before(x: Seq<char>, p: Seq<char>, i: int)
    requires
        p.len() > 0,
        find(x, p) == Some(i) || (find(x, p) is None && i == x.len()),
    ensures
        0 <= i <= x.len(),
        absent(x.subrange(0, i), p),
{
    lemma_find_from_first(x, p, 0);
    lemma_find_from_sound(x, p, 0);
    assert forall|j: int| !#[trigger] occurs_at(x.subrange(0, i), p, j) by {
        if occurs_at(x.subrange(0, i), p, j) {
            lemma_occurs_in_part(x, p, 0, i, j);
        }
    }
}

/// A prefix of a text in which `p` does not occur holds no occurrence either.
proof fn lemma_absent_prefix(x: Seq<char>, p: Seq<char>, i: int)
    requires
        absent(x, p),
        0 <= i <= x.len(),
    ensures
        absent(x.subrange(0, i), p),
{
    assert forall|j: int| !#[trigger] occurs_at(x.subrange(0, i), p, j) by {
        if occurs_at(x.subrange(0, i), p, j) {
            lemma_occurs_in_part(x, p, 0, i, j);
        }
    }
}

/// The trim of a text without `p` holds no `p`.
proof fn lemma_absent_trim(x: Seq<char>, p: Seq<char>)
    requires
        absent(x, p),
    ensures
        absent(trim(x), p),
{
    let (a, b) = lemma_trim_range(x);
    assert forall|j: int| !#[trigger] occurs_at(trim(x), p, j) by {
        if occurs_at(trim(x), p, j) {
            lemma_occurs_in_part(x, p, a, b, j);
        }
    }
}

/// The first marker position is at or before every marker's first
/// occurrence, and within the text.
proof fn lemma_first_marker_bounds(content: Seq<char>, m1: Seq<char>, m2: Seq<char>, m3: Seq<char>)
    ensures
        first_marker(content, m1, m2, m3) matches Some(i) ==> 0 <= i <= content.len() && (find(
            content,
            m1,
        ) matches Some(k) ==> i <= k) && (find(content, m2) matches Some(k) ==> i <= k) && (find(
            content,
            m3,
        ) matches Some(k) ==> i <= k),
        first_marker(content, m1, m2, m3) is None ==> find(content, m1) is None && find(
            content,
            m2,
        ) is None && find(content, m3) is None,
{
    lemma_find_from_sound(content, m1, 0);
    lemma_find_from_sound(content, m2, 0);
    lemma_find_from_sound(content, m3, 0);
}

/// A prefix of `content` that ends at or before the first occurrence of
/// `m` (anywhere, when `m` does not occur) holds no occurrence of `m`.
proof fn lemma_absent_up_to(content: Seq<char>, m: Seq<char>, i: int)
    requires
        m.len() > 0,
        0 <= i <= content.len(),
        find(content, m) matches Some(k) ==> i <= k,
    ensures
        absent(content.subrange(0, i), m),
{
    lemma_find_from_sound(content, m, 0);
    match find(content, m) {
        Some(k) => {
            lemma_absent_before(content, m, k);
            lemma_absent_prefix(content.subrange(0, k), m, i);
            assert(content.subrange(0, k).subrange(0, i) =~= content.subrange(0, i));
        },
        None => {
            lemma_absent_before(content, m, content.len() as int);
            lemma_absent_prefix(content.subrange(0, content.len() as int), m, i);
            assert(content.subrange(0, content.len() as int).subrange(0, i) =~= content.subrange(
                0,
                i,
            ));
        },
    }
}

/// The info part of a manifest holds no occurrence of any marker, and is its
/// own trim.
proof fn lemma_info_facts(content: Seq<char>, m1: Seq<char>, m2: Seq<char>, m3: Seq<char>)
    requires
        m1.len() > 0,
        m2.len() > 0,
        m3.len() > 0,
    ensures
        absent(manifest_info(content, m1, m2, m3), m1),
        absent(manifest_info(content, m1, m2, m3), m2),
        absent(manifest_info(content, m1, m2, m3), m3),
        trim(manifest_info(content, m1, m2, m3)) == manifest_info(content, m1, m2, m3),
{
    lemma_first_marker_bounds(content, m1, m2, m3);
    let i = match first_marker(content, m1, m2, m3) {
        Some(i) => i,
        None => content.len() as int,
    };
    let x = content.subrange(0, i);
    if first_marker(content, m1, m2, m3) is None {
        assert(x =~= content);
    }
    assert(manifest_info(content, m1, m2, m3) == trim(x));
    lemma_absent_up_to(content, m1, i);
    lemma_absent_up_to(content, m2, i);
    lemma_absent_up_to(content, m3, i);
    lemma_absent_trim(x, m1);
    lemma_absent_trim(x, m2);
    lemma_absent_trim(x, m3);
    lemma_trim_idempotent(x);
}

/// The first character of a non-empty text that is its own trim is not
/// white space, nor is its last.
proof fn lemma_trimmed_ends(x: Seq<char>)
    requires
        trim(x) == x,
        x.len() > 0,
    ensures
        !is_ws(x[0]),
        !is_ws(x.last()),
{
    let (a, b) = lemma_trim_range(x);
    assert(x.subrange(a, b).len() == x.len());
    assert(a == 0 && b == x.len());
}

/// What a manifest becomes when rewritten: the info part followed by two
/// line breaks (nothing when the info part is empty), then the sections
/// without trailing white space.
proof fn lemma_rewritten_shape(info: Seq<char>, s: Seq<char>, k: int) -> (lead: Seq<char>)
    requires
        trim(info) == info,
        0 <= k < s.len(),
        !is_ws(s[0]),
        !is_ws(s[k]),
    ensures
        trim(info + "\n\n"@ + s) == lead + trim_end(s),
        lead == (if info.len() > 0 {
            info + "\n\n"@
        } else {
            Seq::<char>::empty()
        }),
{
    reveal_strlit("\n\n");
    let nl = "\n\n"@;
    assert(nl =~= seq!['\n', '\n']);
    let pre = info + nl;
    if info.len() > 0 {
        lemma_trimmed_ends(info);
        assert((pre + s)[0] == info[0]);
        assert(trim_start(pre + s) == pre + s);
        lemma_trim_end_concat(pre, s, k);
        pre
    } else {
        assert(pre + s =~= nl + s);
        assert forall|j: int| 0 <= j < nl.len() implies is_ws(#[trigger] nl[j]) by {}
        lemma_trim_start_ws_prefix(nl, s);
        assert(trim_start(s) == s);
        assert(Seq::<char>::empty() + trim_end(s) =~= trim_end(s));
        Seq::<char>::empty()
    }
}

/// In the rewritten manifest, a marker that the info part does not hold
/// and that has no line break does not occur before the sections.
proof fn lemma_none_before(info: Seq<char>, lead: Seq<char>, se: Seq<char>, m: Seq<char>)
    requires
        absent(info, m),
        m.len() > 0,
        !m.contains('\n'),
        lead == (if info.len() > 0 {
            info + "\n\n"@
        } else {
            Seq::<char>::empty()
        }),
    ensures
        forall|j: int| 0 <= j < lead.len() ==> !#[trigger] occurs_at(lead + se, m, j),
        find(lead + se, m) matches Some(k) ==> lead.len() <= k,
{
    reveal_strlit("\n\n");
    assert("\n\n"@ =~= seq!['\n', '\n']);
    let r = lead + se;
    let at = lead.len() as int;
    assert forall|j: int| 0 <= j < at implies !#[trigger] occurs_at(r, m, j) by {
        if occurs_at(r, m, j) {
            if j + m.len() <= info.len() {
                assert(r.subrange(j, j + m.len()) =~= info.subrange(j, j + m.len()));
                assert(occurs_at(info, m, j));
            } else {
                let pos = if j <= info.len() {
                    info.len() as int
                } else {
                    j
                };
                assert(r[pos] == '\n');
                assert(r.subrange(j, j + m.len())[pos - j] == r[pos]);
                assert(m[pos - j] == '\n');
                assert(m.contains('\n'));
            }
        }
    }
    lemma_find_from_sound(r, m, 0);
}

/// In the rewritten manifest, the first marker occurs first right after the
/// info part and its line breaks.
proof fn lemma_marker_first(info: Seq<char>, lead: Seq<char>, se: Seq<char>, m1: Seq<char>)
    requires
        absent(info, m1),
        m1.len() > 0,
        !m1.contains('\n'),
        lead == (if info.len() > 0 {
            info + "\n\n"@
        } else {
            Seq::<char>::empty()
        }),
        se.len() >= m1.len(),
        se.subrange(0, m1.len() as int) == m1,
    ensures
        find(lead + se, m1) == Some(lead.len() as int),
{
    let r = lead + se;
    let at = lead.len() as int;
    assert(occurs_at(r, m1, at)) by {
        assert(r.subrange(at, at + m1.len()) =~= se.subrange(0, m1.len() as int));
    }
    lemma_none_before(info, lead, se, m1);
    lemma_find_is(r, m1, at);
}

/// The info part found again is the info part: trimming drops the line
/// breaks.
proof fn lemma_lead_trim(info: Seq<char>, lead: Seq<char>)
    requires
        trim(info) == info,
        lead == (if info.len() > 0 {
            info + "\n\n"@
        } else {
            Seq::<char>::empty()
        }),
    ensures
        trim(lead) == info,
{
    reveal_strlit("\n\n");
    assert("\n\n"@ =~= seq!['\n', '\n']);
    if info.len() > 0 {
        lemma_trimmed_ends(info);
        assert(trim_start(lead) == lead);
        assert(lead.last() == '\n');
        assert(lead.drop_last().last() == '\n');
        assert(lead.drop_last().drop_last() =~= info);
        assert(is_ws('\n'));
        assert(trim_end(lead) == trim_end(lead.drop_last()));
        assert(trim_end(lead.drop_last()) == trim_end(lead.drop_last().drop_last()));
        assert(trim_end(lead) == trim_end(info));
    }
}

/// Rewriting a manifest whose sections start with the first marker is stable:
/// the info part is found again, unchanged.
proof fn lemma_manifest_stable(content: Seq<char>, m1: Seq<char>, m2: Seq<char>, m3: Seq<char>, s: Seq<char>)
    requires
        m1.len() > 0,
        m2.len() > 0,
        m3.len() > 0,
        !m2.contains('\n'),
        !m3.contains('\n'),
        !is_ws(m1[0]),
        !is_ws(m1.last()),
        !m1.contains('\n'),
        s.len() >= m1.len(),
        s.subrange(0, m1.len() as int) == m1,
    ensures
        ({
            let info = manifest_info(content, m1, m2, m3);
            let r = trim(info + "\n\n"@ + s);
            manifest_info(r, m1, m2, m3) == info
        }),
{
    let info = manifest_info(content, m1, m2, m3);
    lemma_info_facts(content, m1, m2, m3);
    let k = m1.len() - 1;
    assert(s[0] == m1[0]);
    assert(s[k] == m1.last());
    let lead = lemma_rewritten_shape(info, s, k);
    let bs = lemma_trim_end_index(s);
    assert(bs >= m1.len()) by {
        if bs < m1.len() {
            assert(is_ws(s[k]));
        }
    }
    let se = trim_end(s);
    assert(se.subrange(0, m1.len() as int) =~= m1);
    lemma_marker_first(info, lead, se, m1);
    lemma_none_before(info, lead, se, m2);
    lemma_none_before(info, lead, se, m3);
    let r = lead + se;
    assert(first_marker(r, m1, m2, m3) == Some(lead.len() as int));
    assert(r.subrange(0, lead.len() as int) =~= lead);
    lemma_lead_trim(info, lead);
}

/// The three sections of a manifest, joined as it writes them.
pub open spec fn sections_text(s1: Seq<char>, s2: Seq<char>, s3: Seq<char>) -> Seq<char> {
    s1 + "\n"@ + s2 + "\n"@ + s3
}

proof fn lemma_manifest_text_shape(info: Seq<char>, s1: Seq<char>, s2: Seq<char>, s3: Seq<char>)
    ensures
        manifest_text(info, s1, s2, s3) == trim(info + "\n\n"@ + sections_text(s1, s2, s3)),
{
    assert(info + "\n\n"@ + s1 + "\n"@ + s2 + "\n"@ + s3 =~= info + "\n\n"@ + sections_text(
        s1,
        s2,
        s3,
    ));
}

/// A section starts with its header in brackets.
proof fn lemma_section_starts(header: Seq<char>, lines: Seq<char>, marker: Seq<char>, rest: Seq<char>)
    requires
        marker == "["@ + header + "]"@,
    ensures
        (section_text(header, lines) + rest).len() >= marker.len(),
        (section_text(header, lines) + rest).subrange(0, marker.len() as int) == marker,
{
    reveal_strlit("[");
    reveal_strlit("]");
    reveal_strlit("]\n");
    assert("]\n"@ =~= "]"@ + seq!['\n']);
    assert((section_text(header, lines) + rest).subrange(0, marker.len() as int) =~= marker);
}

/// Writing the Wally dependencies into `wally.toml` twice is writing them
/// once: the text before the dependency sections is kept as it was, and the
/// sections are written again the same.
pub proof fn law_wally_manifest_idempotent(w: Wally, content: Seq<char>)
    ensures
        w.manifest(w.manifest(content)) == w.manifest(content),
{
    let m1 = "[dependencies]"@;
    let m2 = "[server-dependencies]"@;
    let m3 = "[dev-dependencies]"@;
    let s1 = wally_section("dependencies"@, w.shared.pairs());
    let s2 = wally_section("server-dependencies"@, w.server.pairs());
    let s3 = wally_section("dev-dependencies"@, w.dev.pairs());
    let s = sections_text(s1, s2, s3);
    reveal_strlit("[dependencies]");
    reveal_strlit("dependencies");
    reveal_strlit("[");
    reveal_strlit("]");
    assert(m1 =~= "["@ + "dependencies"@ + "]"@);
    lemma_section_starts("dependencies"@, crate::config::wally_lines(w.shared.pairs()), m1, "\n"@ + s2 + "\n"@ + s3);
    assert(s =~= s1 + ("\n"@ + s2 + "\n"@ + s3));
    reveal_strlit("[server-dependencies]");
    reveal_strlit("[dev-dependencies]");
    reveal_strlit("[peer_dependencies]");
    reveal_strlit("[dev_dependencies]");
    assert(!m1.contains('\n')) by {
        assert forall|j: int| 0 <= j < m1.len() implies m1[j] != '\n' by {}
    }
    assert(!m2.contains('\n')) by {
        assert forall|j: int| 0 <= j < m2.len() implies m2[j] != '\n' by {}
    }
    assert(!m3.contains('\n')) by {
        assert forall|j: int| 0 <= j < m3.len() implies m3[j] != '\n' by {}
    }
    lemma_manifest_stable(content, m1, m2, m3, s);
    let info = manifest_info(content, m1, m2, m3);
    lemma_manifest_text_shape(info, s1, s2, s3);
    let r = w.manifest(content);
    lemma_manifest_text_shape(manifest_info(r, m1, m2, m3), s1, s2, s3);
}

/// Writing the pesde dependencies into `pesde.toml` twice is writing them
/// once: the text before the dependency sections is kept as it was, and the
/// sections are written again the same.
pub proof fn law_pesde_manifest_idempotent(p: Pesde, content: Seq<char>)
    ensures
        p.manifest(p.manifest(content)) == p.manifest(content),
{
    let m1 = "[dependencies]"@;
    let m2 = "[peer_dependencies]"@;
    let m3 = "[dev_dependencies]"@;
    let s1 = pesde_section("dependencies"@, p.dependencies.pairs());
    let s2 = pesde_section("peer_dependencies"@, p.peer_dependencies.pairs());
    let s3 = pesde_section("dev_dependencies"@, p.dev_dependencies.pairs());
    let s = sections_text(s1, s2, s3);
    reveal_strlit("[dependencies]");
    reveal_strlit("dependencies");
    reveal_strlit("[");
    reveal_strlit("]");
    assert(m1 =~= "["@ + "dependencies"@ + "]"@);
    lemma_section_starts("dependencies"@, crate::config::pesde_lines(p.dependencies.pairs()), m1, "\n"@ + s2 + "\n"@ + s3);
    assert(s =~= s1 + ("\n"@ + s2 + "\n"@ + s3));
    reveal_strlit("[server-dependencies]");
    reveal_strlit("[dev-dependencies]");
    reveal_strlit("[peer_dependencies]");
    reveal_strlit("[dev_dependencies]");
    assert(!m1.contains('\n')) by {
        assert forall|j: int| 0 <= j < m1.len() implies m1[j] != '\n' by {}
    }
    assert(!m2.contains('\n')) by {
        assert forall|j: int| 0 <= j < m2.len() implies m2[j] != '\n' by {}
    }
    assert(!m3.contains('\n')) by {
        assert forall|j: int| 0 <= j < m3.len() implies m3[j] != '\n' by {}
    }
    lemma_manifest_stable(content, m1, m2, m3, s);
    let info = manifest_info(content, m1, m2, m3);
    lemma_manifest_text_shape(info, s1, s2, s3);
    let r = p.manifest(content);
    lemma_manifest_text_shape(manifest_info(r, m1, m2, m3), s1, s2, s3);
}


// ---------------------------------------------------------------------------
// What single operations give
// ---------------------------------------------------------------------------

/// In `w = owner + "/" + tool` with no `/` in `tool`, the last `/` is the one
/// after `owner`, and the short name is `tool`.
proof fn lemma_after_last_slash(owner: Seq<char>, tool: Seq<char>)
    requires
        !tool.contains('/'),
    ensures
        rfind_char(owner + seq!['/'] + tool, '/') == Some(owner.len() as int),
{
    let w = owner + seq!['/'] + tool;
    let p = owner.len() as int;
    lemma_rfind_char(w, '/');
    assert(w[p] == '/');
    match rfind_char(w, '/') {
        Some(k) => {
            if k > p {
                assert(w[k] == tool[k - p - 1]);
            }
        },
        None => {
            assert(w.contains('/'));
        },
    }
}

/// In `x = w + "@" + version` with no `@` in `w`, the first `@` is the one
/// after `w`.
proof fn lemma_before_first_at(w: Seq<char>, version: Seq<char>)
    requires
        !w.contains('@'),
    ensures
        before_version(w + seq!['@'] + version) == w,
        before_version(w) == w,
{
    let x = w + seq!['@'] + version;
    let p = w.len() as int;
    lemma_find_char(x, '@');
    lemma_find_char(w, '@');
    assert(x[p] == '@');
    match find(x, seq!['@']) {
        Some(k) => {
            if k < p {
                assert(x[k] == w[k]);
            }
            assert(x.subrange(0, p) =~= w);
        },
        None => {
            assert(x.contains('@'));
        },
    }
}

/// The short name of a spec is the tool's name: the text after the last `/`
/// of the part before the first `@`. So `owner/tool`, `owner/tool@version`,
/// `tool@version` and `tool` all have the short name `tool`, where `tool`
/// holds neither `/` nor `@` and `owner` holds no `@`.
pub proof fn law_short_name_is_tool(owner: Seq<char>, tool: Seq<char>, version: Seq<char>)
    requires
        !owner.contains('@'),
        !tool.contains('@'),
        !tool.contains('/'),
    ensures
        short_name_of(owner + seq!['/'] + tool) == tool,
        short_name_of(owner + seq!['/'] + tool + seq!['@'] + version) == tool,
        short_name_of(tool + seq!['@'] + version) == tool,
        short_name_of(tool) == tool,
{
    let w = owner + seq!['/'] + tool;
    assert(!w.contains('@')) by {
        assert forall|j: int| 0 <= j < w.len() implies w[j] != '@' by {
            if j < owner.len() {
                assert(w[j] == owner[j]);
            } else if j > owner.len() {
                assert(w[j] == tool[j - owner.len() - 1]);
            }
        }
    }
    lemma_before_first_at(w, version);
    lemma_before_first_at(tool, version);
    lemma_after_last_slash(owner, tool);
    assert(w.subrange(owner.len() + 1int, w.len() as int) =~= tool);
    lemma_rfind_char(tool, '/');
}


/// The home directory search: it starts with `RBX_PROJECT_HOME` (the
/// directory, then its parent) when that is set, else with the executable's
/// ancestors; whatever the setting, a failed look at the executable's
/// ancestors leads to the working directory's ancestors, a failed look there
/// to the build directory, and only a failed look at the build directory ends
/// the search with nothing found. A candidate that passes is the answer.
pub proof fn law_home_search_order(has_override: bool, c: HomeCandidate)
    ensures
        home_step(has_override, None) == HomeSearchAction::Probe(
            if has_override { HomeCandidate::Override } else { HomeCandidate::ExeAncestors },
        ),
        has_override ==> home_step(has_override, Some((HomeCandidate::Override, false)))
            == HomeSearchAction::Probe(HomeCandidate::OverrideParent),
        home_step(has_override, Some((HomeCandidate::OverrideParent, false)))
            == HomeSearchAction::Probe(HomeCandidate::ExeAncestors),
        home_step(has_override, Some((HomeCandidate::ExeAncestors, false)))
            == HomeSearchAction::Probe(HomeCandidate::CwdAncestors),
        home_step(has_override, Some((HomeCandidate::CwdAncestors, false)))
            == HomeSearchAction::Probe(HomeCandidate::ManifestDir),
        home_step(has_override, Some((HomeCandidate::ManifestDir, false)))
            == HomeSearchAction::NotFound,
        home_step(has_override, Some((c, true))) == HomeSearchAction::Found(c),
        home_step(has_override, Some((c, false))) == HomeSearchAction::NotFound
            <==> c == HomeCandidate::ManifestDir,
{
    let order = home_order(has_override);
    if has_override {
        lemma_index(order, 0);
        lemma_index(order, 1);
        lemma_index(order, 2);
        lemma_index(order, 3);
        lemma_index(order, 4);
    } else {
        lemma_index(order, 0);
        lemma_index(order, 1);
        lemma_index(order, 2);
        lemma_absent(order, HomeCandidate::Override);
        lemma_absent(order, HomeCandidate::OverrideParent);
    }
}


/// An inline dependency table of `pesde.toml` reads back as the dependency it
/// describes: with a `wally` string it is a Wally package of that name, else
/// with a `name` string a pesde package of that name; either way its version
/// is the table's `version` string, or empty where the table has none. A
/// value that is not a table is no dependency.
pub proof fn law_pesde_dep_read_back(
    t: Map<Seq<char>, TomlView>,
    w: Seq<char>,
    n: Seq<char>,
    ver: Seq<char>,
    v: TomlView,
)
    ensures
        t.get("wally"@) == Some(TomlView::Str(w)) && t.get("version"@) == Some(TomlView::Str(ver))
            ==> pesde_dep_of(TomlView::Table(t)) == Some(PesdeDependencyView::WallySource { wally: w, version: ver }),
        t.get("wally"@) == Some(TomlView::Str(w)) && !t.contains_key("version"@)
            ==> pesde_dep_of(TomlView::Table(t)) == Some(PesdeDependencyView::WallySource { wally: w, version: Seq::empty() }),
        !t.contains_key("wally"@) && t.get("name"@) == Some(TomlView::Str(n)) && t.get("version"@) == Some(TomlView::Str(ver))
            ==> pesde_dep_of(TomlView::Table(t)) == Some(PesdeDependencyView::Standard { name: n, version: ver }),
        !t.contains_key("wally"@) && t.get("name"@) == Some(TomlView::Str(n)) && !t.contains_key("version"@)
            ==> pesde_dep_of(TomlView::Table(t)) == Some(PesdeDependencyView::Standard { name: n, version: Seq::empty() }),
        !t.contains_key("wally"@) && !t.contains_key("name"@) ==> pesde_dep_of(TomlView::Table(t)) is None,
        !(v is Table) ==> pesde_dep_of(v) is None,
{
}


/// After syncing, the `[tools]` table holds exactly the configured tools. A
/// tool configured with a spec maps to that spec, whether or not it was there
/// before; one configured without a spec keeps the entry it had, or maps to
/// its own name where it had none. Tools that are not configured are gone.
pub proof fn law_sync_tools_contents(
    old: Map<Seq<char>, TomlView>,
    ours: Map<Seq<char>, Seq<char>>,
    k: Seq<char>,
)
    ensures
        synced_tools(old, ours).dom() == ours.dom(),
        ours.contains_key(k) && ours[k].len() > 0 ==> synced_tools(old, ours)[k] == TomlView::Str(ours[k]),
        ours.contains_key(k) && ours[k].len() == 0 && old.contains_key(k) ==> synced_tools(old, ours)[k] == old[k],
        ours.contains_key(k) && ours[k].len() == 0 && !old.contains_key(k) ==> synced_tools(old, ours)[k] == TomlView::Str(k),
{
    assert(synced_tools(old, ours).dom() =~= ours.dom());
}

/// After syncing `rokit.toml`, its `tools` key holds the synced table, and
/// every other key is as it was.
pub proof fn law_sync_document_contents(
    doc: Map<Seq<char>, TomlView>,
    ours: Map<Seq<char>, Seq<char>>,
    k: Seq<char>,
)
    ensures
        synced_document(doc, ours)["tools"@] == TomlView::Table(synced_tools(section_of(doc, "tools"@), ours)),
        synced_document(doc, ours).dom() == doc.dom().insert("tools"@),
        k != "tools"@ && doc.contains_key(k) ==> synced_document(doc, ours)[k] == doc[k],
{
    assert(synced_document(doc, ours).dom() =~= doc.dom().insert("tools"@));
}


/// An element of a concatenation is an element of one of its parts.
proof fn lemma_concat_contains<T>(a: Seq<T>, b: Seq<T>, x: T)
    ensures
        (a + b).contains(x) <==> a.contains(x) || b.contains(x),
{
    if a.contains(x) {
        let i = choose|i: int| 0 <= i < a.len() && a[i] == x;
        assert((a + b)[i] == x);
    }
    if b.contains(x) {
        let i = choose|i: int| 0 <= i < b.len() && b[i] == x;
        assert((a + b)[a.len() + i] == x);
    }
    if (a + b).contains(x) {
        let i = choose|i: int| 0 <= i < (a + b).len() && (a + b)[i] == x;
        if i < a.len() {
            assert(a[i] == x);
        } else {
            assert(b[i - a.len()] == x);
        }
    }
}

/// Where a step that is not a `rokit add` occurs in the plan.
proof fn lemma_plan_contains(c: Config, x: SetupStepView)
    requires
        !(x is RokitAdd),
        !(x is RokitInit),
        !(x is CopyTemplate),
    ensures
        setup_steps(c).contains(x) <==> {
            let tools = c.rokit.tools.map();
            let rojo = tools.contains_key("rojo"@);
            let wally = tools.contains_key("wally"@);
            let pesde = tools.contains_key("pesde"@);
            let lune = tools.contains_key("lune"@);
            let wally_deps = c.wally matches Some(w) && (w.shared.map().len() > 0
                || w.server.map().len() > 0 || w.dev.map().len() > 0);
            let pesde_deps = c.pesde matches Some(p) && (p.dependencies.map().len() > 0
                || p.peer_dependencies.map().len() > 0 || p.dev_dependencies.map().len() > 0);
            ||| rojo && x == SetupStepView::InitRojo
            ||| wally && x == (SetupStepView::InitWally { write_manifest: c.wally is Some })
            ||| pesde && x == (SetupStepView::InitPesde { write_manifest: c.pesde is Some })
            ||| rojo && wally && wally_deps && x == SetupStepView::WallyTypes
            ||| rojo && wally && !wally_deps && x == SetupStepView::SkipWallyTypes
            ||| pesde && pesde_deps && x == SetupStepView::PesdeInstall
            ||| lune && x == SetupStepView::LuneSetup
        },
{
    let tools = c.rokit.tools.map();
    let rojo = tools.contains_key("rojo"@);
    let wally = tools.contains_key("wally"@);
    let pesde = tools.contains_key("pesde"@);
    let lune = tools.contains_key("lune"@);
    let wally_deps = c.wally matches Some(w) && (w.shared.map().len() > 0
        || w.server.map().len() > 0 || w.dev.map().len() > 0);
    let pesde_deps = c.pesde matches Some(p) && (p.dependencies.map().len() > 0
        || p.peer_dependencies.map().len() > 0 || p.dev_dependencies.map().len() > 0);
    let s0 = seq![SetupStepView::RokitInit];
    let s1 = rokit_add_steps(c.rokit.tools.pairs());
    let s2 = step_if(rojo, SetupStepView::InitRojo);
    let s3 = step_if(wally, SetupStepView::InitWally { write_manifest: c.wally is Some });
    let s4 = step_if(pesde, SetupStepView::InitPesde { write_manifest: c.pesde is Some });
    let s5 = seq![SetupStepView::CopyTemplate];
    let s6 = step_if(rojo && wally && wally_deps, SetupStepView::WallyTypes);
    let s7 = step_if(rojo && wally && !wally_deps, SetupStepView::SkipWallyTypes);
    let s8 = step_if(pesde && pesde_deps, SetupStepView::PesdeInstall);
    let s9 = step_if(lune, SetupStepView::LuneSetup);
    assert(setup_steps(c) == s0 + s1 + s2 + s3 + s4 + s5 + s6 + s7 + s8 + s9);
    lemma_step_if_contains(rojo, SetupStepView::InitRojo, x);
    lemma_step_if_contains(wally, SetupStepView::InitWally { write_manifest: c.wally is Some }, x);
    lemma_step_if_contains(pesde, SetupStepView::InitPesde { write_manifest: c.pesde is Some }, x);
    lemma_step_if_contains(rojo && wally && wally_deps, SetupStepView::WallyTypes, x);
    lemma_step_if_contains(rojo && wally && !wally_deps, SetupStepView::SkipWallyTypes, x);
    lemma_step_if_contains(pesde && pesde_deps, SetupStepView::PesdeInstall, x);
    lemma_step_if_contains(lune, SetupStepView::LuneSetup, x);
    lemma_concat_contains(s0 + s1 + s2 + s3 + s4 + s5 + s6 + s7 + s8, s9, x);
    lemma_concat_contains(s0 + s1 + s2 + s3 + s4 + s5 + s6 + s7, s8, x);
    lemma_concat_contains(s0 + s1 + s2 + s3 + s4 + s5 + s6, s7, x);
    lemma_concat_contains(s0 + s1 + s2 + s3 + s4 + s5, s6, x);
    lemma_concat_contains(s0 + s1 + s2 + s3 + s4, s5, x);
    lemma_concat_contains(s0 + s1 + s2 + s3, s4, x);
    lemma_concat_contains(s0 + s1 + s2, s3, x);
    lemma_concat_contains(s0 + s1, s2, x);
    lemma_concat_contains(s0, s1, x);
    assert(!s0.contains(x)) by {
        assert forall|i: int| 0 <= i < s0.len() implies s0[i] != x by {}
    }
    assert(!s5.contains(x)) by {
        assert forall|i: int| 0 <= i < s5.len() implies s5[i] != x by {}
    }
    assert(!s1.contains(x)) by {
        assert forall|i: int| 0 <= i < s1.len() implies s1[i] != x by {
            assert(s1[i] is RokitAdd);
        }
    }
}

/// `step_if(b, s)` holds `x` exactly when `b` holds and `x` is `s`.
proof fn lemma_step_if_contains(b: bool, s: SetupStepView, x: SetupStepView)
    ensures
        step_if(b, s).contains(x) <==> b && x == s,
{
    if b {
        assert(step_if(b, s)[0] == s);
    }
}

/// Whether a dependency collection of the template holds anything: the
/// length of its map is the number of its names.
proof fn lemma_nonempty<V: View>(d: DepMap<V>)
    requires
        d.wf(),
    ensures
        d.map().len() > 0 <==> exists|k: Seq<char>| d.map().contains_key(k),
{
    d.lemma_len();
    if !(exists|k: Seq<char>| d.map().contains_key(k)) {
        assert(d.map() =~= Map::<Seq<char>, V::V>::empty());
    } else {
        let k = choose|k: Seq<char>| d.map().contains_key(k);
        assert(d.map() != Map::<Seq<char>, V::V>::empty()) by {
            assert(!Map::<Seq<char>, V::V>::empty().contains_key(k));
        }
    }
}

/// Which of the later steps a new project's plan holds: rojo is initialized
/// when it is a tool of the template; with rojo and Wally among the tools,
/// Wally's package types are generated when the template's Wally section has
/// a dependency in any realm (shared, server or dev), and skipped otherwise;
/// pesde packages are installed when pesde is a tool and the template's pesde
/// section has a dependency of any kind; lune is set up when it is a tool.
pub proof fn law_setup_plan_steps(c: Config)
    requires
        c.wf(),
    ensures
        setup_steps(c).contains(SetupStepView::InitRojo) <==> c.rokit.tools.map().contains_key("rojo"@),
        setup_steps(c).contains(SetupStepView::WallyTypes) <==> c.rokit.tools.map().contains_key("rojo"@)
            && c.rokit.tools.map().contains_key("wally"@) && (c.wally matches Some(w) && exists|k: Seq<char>|
            w.shared.map().contains_key(k) || w.server.map().contains_key(k) || w.dev.map().contains_key(k)),
        setup_steps(c).contains(SetupStepView::SkipWallyTypes) <==> c.rokit.tools.map().contains_key("rojo"@)
            && c.rokit.tools.map().contains_key("wally"@) && !(c.wally matches Some(w) && exists|k: Seq<char>|
            w.shared.map().contains_key(k) || w.server.map().contains_key(k) || w.dev.map().contains_key(k)),
        setup_steps(c).contains(SetupStepView::PesdeInstall) <==> c.rokit.tools.map().contains_key("pesde"@)
            && (c.pesde matches Some(p) && exists|k: Seq<char>| p.dependencies.map().contains_key(k)
            || p.peer_dependencies.map().contains_key(k) || p.dev_dependencies.map().contains_key(k)),
        setup_steps(c).contains(SetupStepView::LuneSetup) <==> c.rokit.tools.map().contains_key("lune"@),
{
    if let Some(w) = c.wally {
        lemma_nonempty(w.shared);
        lemma_nonempty(w.server);
        lemma_nonempty(w.dev);
    }
    if let Some(p) = c.pesde {
        lemma_nonempty(p.dependencies);
        lemma_nonempty(p.peer_dependencies);
        lemma_nonempty(p.dev_dependencies);
    }
    lemma_plan_contains(c, SetupStepView::InitRojo);
    lemma_plan_contains(c, SetupStepView::WallyTypes);
    lemma_plan_contains(c, SetupStepView::SkipWallyTypes);
    lemma_plan_contains(c, SetupStepView::PesdeInstall);
    lemma_plan_contains(c, SetupStepView::LuneSetup);
}


/// A step that initializes a tool's project files.
pub open spec fn is_init_step(x: SetupStepView) -> bool {
    x is InitRojo || x is InitWally || x is InitPesde
}

/// A step that comes after the template's files are copied.
pub open spec fn is_late_step(x: SetupStepView) -> bool {
    x is WallyTypes || x is SkipWallyTypes || x is PesdeInstall || x is LuneSetup
}

/// The order of a new project's plan: `rokit init` first, then one
/// `rokit add` per configured tool, in name order, each with the tool's
/// resolved spec; then the tools are initialized; then the template's files
/// are copied, once; and only then come package types, package installs and
/// lune's setup.
pub proof fn law_setup_plan_order(c: Config)
    requires
        c.wf(),
    ensures
        setup_steps(c)[0] == SetupStepView::RokitInit,
        forall|i: int| 0 <= i < c.rokit.tools.pairs().len() ==> setup_steps(c)[i + 1]
            == SetupStepView::RokitAdd(resolved_spec(c.rokit.tools.pairs()[i].0, c.rokit.tools.pairs()[i].1)),
        forall|i: int, j: int| 0 <= i < setup_steps(c).len() && 0 <= j < setup_steps(c).len()
            && (setup_steps(c)[i] is RokitInit || setup_steps(c)[i] is RokitAdd)
            && !(setup_steps(c)[j] is RokitInit || setup_steps(c)[j] is RokitAdd) ==> i < j,
        forall|i: int, j: int| 0 <= i < setup_steps(c).len() && 0 <= j < setup_steps(c).len()
            && is_init_step(setup_steps(c)[i]) && setup_steps(c)[j] is CopyTemplate ==> i < j,
        forall|i: int, j: int| 0 <= i < setup_steps(c).len() && 0 <= j < setup_steps(c).len()
            && setup_steps(c)[i] is CopyTemplate && is_late_step(setup_steps(c)[j]) ==> i < j,
        forall|i: int, j: int| 0 <= i < setup_steps(c).len() && 0 <= j < setup_steps(c).len()
            && setup_steps(c)[i] is CopyTemplate && setup_steps(c)[j] is CopyTemplate ==> i == j,
{
    let tools = c.rokit.tools.map();
    let rojo = tools.contains_key("rojo"@);
    let wally = tools.contains_key("wally"@);
    let pesde = tools.contains_key("pesde"@);
    let lune = tools.contains_key("lune"@);
    let wally_deps = c.wally matches Some(w) && (w.shared.map().len() > 0
        || w.server.map().len() > 0 || w.dev.map().len() > 0);
    let pesde_deps = c.pesde matches Some(p) && (p.dependencies.map().len() > 0
        || p.peer_dependencies.map().len() > 0 || p.dev_dependencies.map().len() > 0);
    let ps = c.rokit.tools.pairs();
    let s0 = seq![SetupStepView::RokitInit];
    let s1 = rokit_add_steps(ps);
    let s2 = step_if(rojo, SetupStepView::InitRojo);
    let s3 = step_if(wally, SetupStepView::InitWally { write_manifest: c.wally is Some });
    let s4 = step_if(pesde, SetupStepView::InitPesde { write_manifest: c.pesde is Some });
    let s5 = seq![SetupStepView::CopyTemplate];
    let s6 = step_if(rojo && wally && wally_deps, SetupStepView::WallyTypes);
    let s7 = step_if(rojo && wally && !wally_deps, SetupStepView::SkipWallyTypes);
    let s8 = step_if(pesde && pesde_deps, SetupStepView::PesdeInstall);
    let s9 = step_if(lune, SetupStepView::LuneSetup);
    let a = s0 + s1;
    let b = s2 + s3 + s4;
    let d = s6 + s7 + s8 + s9;
    let st = setup_steps(c);
    assert(st =~= a + b + s5 + d);
    let la = a.len() as int;
    let lb = la + b.len();
    assert forall|k: int| 0 <= k < b.len() implies is_init_step(#[trigger] b[k]) by {}
    assert forall|k: int| 0 <= k < d.len() implies is_late_step(#[trigger] d[k]) by {}
    assert forall|k: int| 0 <= k < st.len() implies {
        &&& (k == 0 ==> st[k] is RokitInit)
        &&& (1 <= k < la ==> st[k] == s1[k - 1] && st[k] is RokitAdd)
        &&& (la <= k < lb ==> st[k] == b[k - la] && is_init_step(st[k]))
        &&& (k == lb ==> st[k] is CopyTemplate)
        &&& (lb < k ==> st[k] == d[k - lb - 1] && is_late_step(st[k]))
    } by {
        if k < la {
            assert(st[k] == a[k]);
        } else if k < lb {
            assert(st[k] == b[k - la]);
        } else if k > lb {
            assert(st[k] == d[k - lb - 1]);
        }
    }
}


/// The short name of any spec is the text after the last `/` of the part
/// before the first `@`: it is `spec[i..j]`, where `j` is the first `@` (or
/// the end), and `i` follows a `/` (or is the start) with no `/` from `i` to
/// `j`.
pub proof fn law_short_name_exact(spec: Seq<char>)
    ensures
        exists|i: int, j: int|
            0 <= i <= j <= spec.len() && short_name_of(spec) == spec.subrange(i, j) && (j == spec.len()
                || spec[j] == '@') && (forall|m: int| 0 <= m < j ==> spec[m] != '@') && (i == 0
                || spec[i - 1] == '/') && (forall|m: int| i <= m < j ==> spec[m] != '/'),
{
    lemma_find_char(spec, '@');
    let j: int = match find(spec, seq!['@']) {
        Some(k) => k,
        None => spec.len() as int,
    };
    let w = before_version(spec);
    assert(w =~= spec.subrange(0, j));
    lemma_rfind_char(w, '/');
    let i: int = match rfind_char(w, '/') {
        Some(k) => k + 1,
        None => 0,
    };
    assert(short_name_of(spec) =~= spec.subrange(i, j));
    assert forall|m: int| i <= m < j implies spec[m] != '/' by {
        assert(w[m] == spec[m]);
    }
    assert(i == 0 || spec[i - 1] == '/') by {
        if i > 0 {
            assert(w[i - 1] == spec[i - 1]);
        }
    }
}

} // verus!
