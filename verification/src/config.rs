//! The project configuration (`rbx_project.toml`) and what it writes into the
//! tool manifests (`wally.toml`, `pesde.toml`).
use vstd::prelude::*;
use crate::depmap::DepMap;
use crate::text::{
    chars_of, copy_text, find, find_in, push_text, trim, trim_text, string_of_range, rfind_char,
    rfind_in, contains_char, lemma_find_from_sound, lemma_rfind_sound,
};

verus! {

broadcast use vstd::string::group_string_axioms;

/// The name of the configuration file of a project.
pub const CONFIG_NAME: &'static str = "rbx_project.toml";

// ---------------------------------------------------------------------------
// Sections of a manifest
// ---------------------------------------------------------------------------

/// A manifest section: the header in brackets on a line, then its lines.
pub open spec fn section_text(header: Seq<char>, lines: Seq<char>) -> Seq<char> {
    "["@ + header + "]\n"@ + lines
}

/// The earlier of two optional positions.
pub open spec fn earliest(a: Option<int>, b: Option<int>) -> Option<int> {
    match (a, b) {
        (Some(x), Some(y)) => Some(if x <= y {
            x
        } else {
            y
        }),
        (Some(x), None) => Some(x),
        (None, y) => y,
    }
}

/// Where the first of the three markers that occur in `content` begins.
pub open spec fn first_marker(
    content: Seq<char>,
    m1: Seq<char>,
    m2: Seq<char>,
    m3: Seq<char>,
) -> Option<int> {
    earliest(earliest(find(content, m1), find(content, m2)), find(content, m3))
}

/// The part of a manifest before its dependency sections: the text before
/// the earliest occurrence of any of the markers, or the whole text when none
/// occurs, without surrounding white space.
pub open spec fn manifest_info(
    content: Seq<char>,
    m1: Seq<char>,
    m2: Seq<char>,
    m3: Seq<char>,
) -> Seq<char> {
    match first_marker(content, m1, m2, m3) {
        Some(i) => trim(content.subrange(0, i)),
        None => trim(content),
    }
}

/// A manifest rebuilt from its info part and three sections.
pub open spec fn manifest_text(
    info: Seq<char>,
    s1: Seq<char>,
    s2: Seq<char>,
    s3: Seq<char>,
) -> Seq<char> {
    trim(info + "\n\n"@ + s1 + "\n"@ + s2 + "\n"@ + s3)
}

/// The earlier of two optional positions.
fn earliest_of(a: Option<usize>, b: Option<usize>) -> (r: Option<usize>)
    ensures
        match r {
            Some(i) => earliest(
                match a {
                    Some(x) => Some(x as int),
                    None => None,
                },
                match b {
                    Some(x) => Some(x as int),
                    None => None,
                },
            ) == Some(i as int),
            None => a is None && b is None,
        },
{
    match (a, b) {
        (Some(x), Some(y)) => Some(if x <= y {
            x
        } else {
            y
        }),
        (Some(x), None) => Some(x),
        (None, y) => y,
    }
}

/// Where `m` first occurs in `v`.
fn marker_position(v: &Vec<char>, m: &str) -> (r: Option<usize>)
    ensures
        match r {
            Some(i) => find(v@, m@) == Some(i as int) && i <= v@.len(),
            None => find(v@, m@) is None,
        },
{
    let mv = chars_of(m);
    proof {
        lemma_find_from_sound(v@, mv@, 0);
    }
    find_in(v, &mv)
}

/// The text of `content` before the earliest occurrence of any of the three
/// markers, trimmed; the whole text, trimmed, when none occurs.
pub fn extract_manifest_info(content: &str, m1: &str, m2: &str, m3: &str) -> (r: String)
    ensures
        r@ == manifest_info(content@, m1@, m2@, m3@),
{
    let v = chars_of(content);
    let p1 = marker_position(&v, m1);
    let p2 = marker_position(&v, m2);
    let p3 = marker_position(&v, m3);
    let p12 = earliest_of(p1, p2);
    match earliest_of(p12, p3) {
        Some(i) => {
            let head = string_of_range(&v, 0, i);
            trim_text(head.as_str())
        },
        None => trim_text(content),
    }
}

/// Rebuilds a manifest from its info part and three sections.
pub fn assemble_manifest(info: &str, s1: &str, s2: &str, s3: &str) -> (r: String)
    ensures
        r@ == manifest_text(info@, s1@, s2@, s3@),
{
    let mut out = copy_text(info);
    push_text(&mut out, "\n\n");
    push_text(&mut out, s1);
    push_text(&mut out, "\n");
    push_text(&mut out, s2);
    push_text(&mut out, "\n");
    push_text(&mut out, s3);
    trim_text(out.as_str())
}

// ---------------------------------------------------------------------------
// Wally
// ---------------------------------------------------------------------------

/// A `wally.toml` dependency line: `name = "origin"`.
pub open spec fn wally_line(name: Seq<char>, origin: Seq<char>) -> Seq<char> {
    name + " = \""@ + origin + "\"\n"@
}

/// The `wally.toml` dependency lines of the pairs, in order.
pub open spec fn wally_lines(ps: Seq<(Seq<char>, Seq<char>)>) -> Seq<char>
    decreases ps.len(),
{
    if ps.len() == 0 {
        Seq::empty()
    } else {
        wally_line(ps[0].0, ps[0].1) + wally_lines(ps.drop_first())
    }
}

/// A `wally.toml` dependency section.
pub open spec fn wally_section(header: Seq<char>, ps: Seq<(Seq<char>, Seq<char>)>) -> Seq<char> {
    section_text(header, wally_lines(ps))
}

/// The Wally dependencies of a project, by realm: name to origin
/// (`owner/package@version`).
pub struct Wally {
    pub shared: DepMap<String>,
    pub server: DepMap<String>,
    pub dev: DepMap<String>,
}

impl Wally {
    pub open spec fn wf(&self) -> bool {
        self.shared.wf() && self.server.wf() && self.dev.wf()
    }

    /// What `write_to_wally` makes of a manifest whose text is `content`.
    pub open spec fn manifest(&self, content: Seq<char>) -> Seq<char> {
        manifest_text(
            manifest_info(
                content,
                "[dependencies]"@,
                "[server-dependencies]"@,
                "[dev-dependencies]"@,
            ),
            wally_section("dependencies"@, self.shared.pairs()),
            wally_section("server-dependencies"@, self.server.pairs()),
            wally_section("dev-dependencies"@, self.dev.pairs()),
        )
    }

    /// The section `[header]` with one line per dependency, in name order.
    pub fn format_dependency_section(header: &str, deps: &DepMap<String>) -> (r: String)
        requires
            deps.wf(),
        ensures
            r@ == wally_section(header@, deps.pairs()),
    {
        let ghost ps = deps.pairs();
        let mut out = String::new();
        push_text(&mut out, "[");
        push_text(&mut out, header);
        push_text(&mut out, "]\n");
        let ghost start = out@;
        let n = deps.len();
        let mut i: usize = 0;
        assert(ps.skip(0) =~= ps);
        while i < n
            invariant
                n == ps.len(),
                ps == deps.pairs(),
                i <= n,
                out@ + wally_lines(ps.skip(i as int)) == start + wally_lines(ps),
            decreases n - i,
        {
            assert(ps.skip(i as int).drop_first() =~= ps.skip(i + 1));
            let ghost before = out@;
            let k = deps.key_at(i);
            let v = deps.value_at(i);
            push_text(&mut out, k.as_str());
            push_text(&mut out, " = \"");
            push_text(&mut out, v.as_str());
            push_text(&mut out, "\"\n");
            assert(out@ =~= before + wally_line(ps[i as int].0, ps[i as int].1));
            assert(before + wally_lines(ps.skip(i as int)) =~= out@ + wally_lines(ps.skip(i + 1)));
            i = i + 1;
            assert(out@ + wally_lines(ps.skip(i as int)) =~= start + wally_lines(ps));
        }
        assert(ps.skip(n as int) =~= Seq::<(Seq<char>, Seq<char>)>::empty());
        assert(out@ =~= start + wally_lines(ps));
        out
    }

    /// `wally.toml` with its dependency sections replaced by this
    /// configuration's: the text before the first dependency section is kept,
    /// then the three sections follow, and the whole is trimmed. The caller
    /// reads the manifest and writes the result back.
    pub fn write_to_wally(&self, content: &str) -> (r: String)
        requires
            self.wf(),
        ensures
            r@ == self.manifest(content@),
    {
        let info = extract_manifest_info(
            content,
            "[dependencies]",
            "[server-dependencies]",
            "[dev-dependencies]",
        );
        let s1 = Self::format_dependency_section("dependencies", &self.shared);
        let s2 = Self::format_dependency_section("server-dependencies", &self.server);
        let s3 = Self::format_dependency_section("dev-dependencies", &self.dev);
        assemble_manifest(info.as_str(), s1.as_str(), s2.as_str(), s3.as_str())
    }

    /// Whether any realm has a dependency.
    pub fn has_dependencies(&self) -> (r: bool)
        requires
            self.wf(),
        ensures
            r == (self.shared.map() != Map::<Seq<char>, Seq<char>>::empty() || self.server.map()
                != Map::<Seq<char>, Seq<char>>::empty() || self.dev.map() != Map::<
                Seq<char>,
                Seq<char>,
            >::empty()),
    {
        !self.shared.is_empty() || !self.server.is_empty() || !self.dev.is_empty()
    }
}

impl Default for Wally {
    /// No dependency in any realm.
    fn default() -> (r: Self)
        ensures
            r.wf(),
            r.shared.map() == Map::<Seq<char>, Seq<char>>::empty(),
            r.server.map() == Map::<Seq<char>, Seq<char>>::empty(),
            r.dev.map() == Map::<Seq<char>, Seq<char>>::empty(),
            r.shared.pairs().len() == 0,
            r.server.pairs().len() == 0,
            r.dev.pairs().len() == 0,
    {
        Wally { shared: DepMap::new(), server: DepMap::new(), dev: DepMap::new() }
    }
}

// ---------------------------------------------------------------------------
// Pesde
// ---------------------------------------------------------------------------

/// How a pesde dependency is written: by pesde name, or as a Wally package.
#[derive(Clone, Debug, PartialEq, Eq)]
pub enum PesdeDependency {
    Standard { name: String, version: String },
    WallySource { wally: String, version: String },
}

/// The mathematical value of a `PesdeDependency`.
pub enum PesdeDependencyView {
    Standard { name: Seq<char>, version: Seq<char> },
    WallySource { wally: Seq<char>, version: Seq<char> },
}

impl View for PesdeDependency {
    type V = PesdeDependencyView;

    open spec fn view(&self) -> PesdeDependencyView {
        match self {
            PesdeDependency::Standard { name, version } => PesdeDependencyView::Standard {
                name: name@,
                version: version@,
            },
            PesdeDependency::WallySource { wally, version } => PesdeDependencyView::WallySource {
                wally: wally@,
                version: version@,
            },
        }
    }
}

/// The inline table that stands for a pesde dependency.
pub open spec fn pesde_dep_text(d: PesdeDependencyView) -> Seq<char> {
    match d {
        PesdeDependencyView::Standard { name, version } => "{ name = \""@ + name
            + "\", version = \""@ + version + "\" }"@,
        PesdeDependencyView::WallySource { wally, version } => "{ wally = \""@ + wally
            + "\", version = \""@ + version + "\" }"@,
    }
}

/// A `pesde.toml` dependency line: `alias = { ... }`.
pub open spec fn pesde_line(alias: Seq<char>, d: PesdeDependencyView) -> Seq<char> {
    alias + " = "@ + pesde_dep_text(d) + "\n"@
}

/// The `pesde.toml` dependency lines of the pairs, in order.
pub open spec fn pesde_lines(ps: Seq<(Seq<char>, PesdeDependencyView)>) -> Seq<char>
    decreases ps.len(),
{
    if ps.len() == 0 {
        Seq::empty()
    } else {
        pesde_line(ps[0].0, ps[0].1) + pesde_lines(ps.drop_first())
    }
}

/// A `pesde.toml` dependency section.
pub open spec fn pesde_section(
    header: Seq<char>,
    ps: Seq<(Seq<char>, PesdeDependencyView)>,
) -> Seq<char> {
    section_text(header, pesde_lines(ps))
}

/// The pesde dependencies of a project, by kind: alias to dependency.
pub struct Pesde {
    pub dependencies: DepMap<PesdeDependency>,
    pub peer_dependencies: DepMap<PesdeDependency>,
    pub dev_dependencies: DepMap<PesdeDependency>,
}

impl Pesde {
    pub open spec fn wf(&self) -> bool {
        self.dependencies.wf() && self.peer_dependencies.wf() && self.dev_dependencies.wf()
    }

    /// What `write_to_pesde` makes of a manifest whose text is `content`.
    pub open spec fn manifest(&self, content: Seq<char>) -> Seq<char> {
        manifest_text(
            manifest_info(
                content,
                "[dependencies]"@,
                "[peer_dependencies]"@,
                "[dev_dependencies]"@,
            ),
            pesde_section("dependencies"@, self.dependencies.pairs()),
            pesde_section("peer_dependencies"@, self.peer_dependencies.pairs()),
            pesde_section("dev_dependencies"@, self.dev_dependencies.pairs()),
        )
    }

    /// The inline table of one dependency.
    pub fn format_dep(dep: &PesdeDependency) -> (r: String)
        ensures
            r@ == pesde_dep_text(dep@),
    {
        let mut out = String::new();
        match dep {
            PesdeDependency::Standard { name, version } => {
                push_text(&mut out, "{ name = \"");
                push_text(&mut out, name.as_str());
            },
            PesdeDependency::WallySource { wally, version } => {
                push_text(&mut out, "{ wally = \"");
                push_text(&mut out, wally.as_str());
            },
        }
        push_text(&mut out, "\", version = \"");
        match dep {
            PesdeDependency::Standard { name, version } => push_text(&mut out, version.as_str()),
            PesdeDependency::WallySource { wally, version } => push_text(
                &mut out,
                version.as_str(),
            ),
        }
        push_text(&mut out, "\" }");
        assert(out@ =~= pesde_dep_text(dep@));
        out
    }

    /// The section `[header]` with one line per dependency, in alias order.
    pub fn format_dependency_section(header: &str, deps: &DepMap<PesdeDependency>) -> (r: String)
        requires
            deps.wf(),
        ensures
            r@ == pesde_section(header@, deps.pairs()),
    {
        let ghost ps = deps.pairs();
        let mut out = String::new();
        push_text(&mut out, "[");
        push_text(&mut out, header);
        push_text(&mut out, "]\n");
        let ghost start = out@;
        let n = deps.len();
        let mut i: usize = 0;
        assert(ps.skip(0) =~= ps);
        while i < n
            invariant
                n == ps.len(),
                ps == deps.pairs(),
                i <= n,
                out@ + pesde_lines(ps.skip(i as int)) == start + pesde_lines(ps),
            decreases n - i,
        {
            assert(ps.skip(i as int).drop_first() =~= ps.skip(i + 1));
            let ghost before = out@;
            push_text(&mut out, deps.key_at(i).as_str());
            push_text(&mut out, " = ");
            let d = Self::format_dep(deps.value_at(i));
            push_text(&mut out, d.as_str());
            push_text(&mut out, "\n");
            assert(out@ =~= before + pesde_line(ps[i as int].0, ps[i as int].1));
            assert(before + pesde_lines(ps.skip(i as int)) =~= out@ + pesde_lines(ps.skip(i + 1)));
            i = i + 1;
            assert(out@ + pesde_lines(ps.skip(i as int)) =~= start + pesde_lines(ps));
        }
        assert(ps.skip(n as int) =~= Seq::<(Seq<char>, PesdeDependencyView)>::empty());
        assert(out@ =~= start + pesde_lines(ps));
        out
    }

    /// `pesde.toml` with its dependency sections replaced by this
    /// configuration's: the text before the first dependency section is kept,
    /// then the three sections follow, and the whole is trimmed. The caller
    /// reads the manifest and writes the result back.
    pub fn write_to_pesde(&self, content: &str) -> (r: String)
        requires
            self.wf(),
        ensures
            r@ == self.manifest(content@),
    {
        let info = extract_manifest_info(
            content,
            "[dependencies]",
            "[peer_dependencies]",
            "[dev_dependencies]",
        );
        let s1 = Self::format_dependency_section("dependencies", &self.dependencies);
        let s2 = Self::format_dependency_section("peer_dependencies", &self.peer_dependencies);
        let s3 = Self::format_dependency_section("dev_dependencies", &self.dev_dependencies);
        assemble_manifest(info.as_str(), s1.as_str(), s2.as_str(), s3.as_str())
    }

    /// Whether any kind has a dependency.
    pub fn has_dependencies(&self) -> (r: bool)
        requires
            self.wf(),
        ensures
            r == (self.dependencies.map() != Map::<Seq<char>, PesdeDependencyView>::empty()
                || self.peer_dependencies.map() != Map::<Seq<char>, PesdeDependencyView>::empty()
                || self.dev_dependencies.map() != Map::<
                Seq<char>,
                PesdeDependencyView,
            >::empty()),
    {
        !self.dependencies.is_empty() || !self.peer_dependencies.is_empty()
            || !self.dev_dependencies.is_empty()
    }
}

impl Default for Pesde {
    /// No dependency of any kind.
    fn default() -> (r: Self)
        ensures
            r.wf(),
            r.dependencies.map() == Map::<Seq<char>, PesdeDependencyView>::empty(),
            r.peer_dependencies.map() == Map::<Seq<char>, PesdeDependencyView>::empty(),
            r.dev_dependencies.map() == Map::<Seq<char>, PesdeDependencyView>::empty(),
            r.dependencies.pairs().len() == 0,
            r.peer_dependencies.pairs().len() == 0,
            r.dev_dependencies.pairs().len() == 0,
    {
        Pesde {
            dependencies: DepMap::new(),
            peer_dependencies: DepMap::new(),
            dev_dependencies: DepMap::new(),
        }
    }
}

// ---------------------------------------------------------------------------
// Rokit
// ---------------------------------------------------------------------------

/// The text of `spec` before its first `@`, or all of it.
pub open spec fn before_version(spec: Seq<char>) -> Seq<char> {
    match find(spec, seq!['@']) {
        Some(i) => spec.subrange(0, i),
        None => spec,
    }
}

/// The short tool name of a rokit spec: the part without the version, after
/// its last `/`.
pub open spec fn short_name_of(spec: Seq<char>) -> Seq<char> {
    let w = before_version(spec);
    match rfind_char(w, '/') {
        Some(j) => w.subrange(j + 1, w.len() as int),
        None => w,
    }
}

/// The spec of a tool: its own, or its name when that is empty.
pub open spec fn resolved_spec(name: Seq<char>, spec: Seq<char>) -> Seq<char> {
    if spec.len() == 0 {
        name
    } else {
        spec
    }
}

/// The rokit tools of a project: short name to spec (`owner/tool@version`,
/// `owner/tool`, or empty for "the name is the spec").
pub struct Rokit {
    pub tools: DepMap<String>,
}

impl Rokit {
    pub open spec fn wf(&self) -> bool {
        self.tools.wf()
    }

    /// Extracts the short tool name from a rokit spec.
    /// `"1Axen/blink@0.15.3"` -> `"blink"`
    /// `"rojo-rbx/rojo@7.7.0"` -> `"rojo"`
    /// `"rojo"` -> `"rojo"`
    pub fn short_name(spec: &str) -> (r: &str)
        ensures
            r@ == short_name_of(spec@),
    {
        let v = chars_of(spec);
        let mut at: Vec<char> = Vec::new();
        at.push('@');
        assert(at@ =~= seq!['@']);
        proof {
            lemma_find_from_sound(v@, at@, 0);
        }
        let end = match find_in(&v, &at) {
            Some(i) => i,
            None => v.len(),
        };
        assert(end <= v@.len());
        let w = string_of_range(&v, 0, end);
        assert(w@ == before_version(spec@)) by {
            if find(spec@, seq!['@']) is None {
                assert(v@.subrange(0, v@.len() as int) =~= v@);
            }
        }
        let wv = chars_of(w.as_str());
        proof {
            lemma_rfind_sound(wv@, '/');
        }
        let start = match rfind_in(&wv, '/') {
            Some(j) => j + 1,
            None => 0,
        };
        proof {
            if rfind_char(wv@, '/') is None {
                assert(spec@.subrange(0, end as int) =~= w@);
            } else {
                assert(spec@.subrange(start as int, end as int) =~= w@.subrange(
                    start as int,
                    w@.len() as int,
                ));
            }
        }
        spec.substring_char(start, end)
    }

    /// Whether a tool of that short name is configured.
    pub fn has_tool(&self, name: &str) -> (r: bool)
        requires
            self.wf(),
        ensures
            r == self.tools.map().contains_key(name@),
    {
        self.tools.contains_key(name)
    }

    /// Adds a tool from a full spec like `"1Axen/blink@0.18.7"` or `"rojo-rbx/rojo"`.
    /// The short name is derived automatically as the map key; a tool that is
    /// there already keeps its spec.
    pub fn add_tool(&mut self, spec: &str)
        requires
            old(self).wf(),
        ensures
            final(self).wf(),
            old(self).tools.map().contains_key(short_name_of(spec@)) ==> final(self).tools.map()
                == old(self).tools.map(),
            !old(self).tools.map().contains_key(short_name_of(spec@))
                ==> final(self).tools.map() == old(self).tools.map().insert(
                short_name_of(spec@),
                spec@,
            ),
    {
        let short = copy_text(Self::short_name(spec));
        let full = copy_text(spec);
        self.tools.insert_if_absent(short, full);
    }

    /// Removes the tool of that short name, if configured.
    pub fn remove_tool(&mut self, name: &str)
        requires
            old(self).wf(),
        ensures
            final(self).wf(),
            final(self).tools.map() == old(self).tools.map().remove(name@),
    {
        self.tools.remove(name);
    }

    /// Returns true if the spec pins a specific version (contains `@`).
    pub fn has_version(spec: &str) -> (r: bool)
        ensures
            r == spec@.contains('@'),
    {
        contains_char(spec, '@')
    }

    /// Resolves the effective spec for a tool.
    /// If the value is empty, the key (short name) is the spec.
    pub fn resolve_spec<'a>(name: &'a str, spec: &'a str) -> (r: &'a str)
        ensures
            r@ == resolved_spec(name@, spec@),
    {
        if spec.is_empty() {
            name
        } else {
            spec
        }
    }

    /// The resolved specs of the tools, in name order, for passing to `rokit add`.
    pub fn specs(&self) -> (r: Vec<String>)
        requires
            self.wf(),
        ensures
            r@.len() == self.tools.pairs().len(),
            forall|i: int|
                0 <= i < r@.len() ==> #[trigger] r@[i]@ == resolved_spec(
                    self.tools.pairs()[i].0,
                    self.tools.pairs()[i].1,
                ),
    {
        let n = self.tools.len();
        let mut r: Vec<String> = Vec::new();
        let mut i: usize = 0;
        while i < n
            invariant
                n == self.tools.pairs().len(),
                i <= n,
                r@.len() == i,
                forall|k: int|
                    0 <= k < i ==> #[trigger] r@[k]@ == resolved_spec(
                        self.tools.pairs()[k].0,
                        self.tools.pairs()[k].1,
                    ),
            decreases n - i,
        {
            let s = Self::resolve_spec(self.tools.key_at(i).as_str(), self.tools.value_at(i).as_str());
            r.push(copy_text(s));
            i = i + 1;
        }
        r
    }
}

impl Default for Rokit {
    /// No tool.
    fn default() -> (r: Self)
        ensures
            r.wf(),
            r.tools.map() == Map::<Seq<char>, Seq<char>>::empty(),
            r.tools.pairs().len() == 0,
    {
        Rokit { tools: DepMap::new() }
    }
}

// ---------------------------------------------------------------------------
// Config
// ---------------------------------------------------------------------------

/// The contents of `rbx_project.toml`.
pub struct Config {
    pub template_name: String,
    pub rokit: Rokit,
    pub wally: Option<Wally>,
    pub pesde: Option<Pesde>,
}

impl Config {
    pub open spec fn wf(&self) -> bool {
        &&& self.rokit.wf()
        &&& (self.wally matches Some(w) ==> w.wf())
        &&& (self.pesde matches Some(p) ==> p.wf())
    }
}

} // verus!
