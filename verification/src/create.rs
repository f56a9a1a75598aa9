//! Creating a project from a template: the steps it takes, the text it
//! renders, and how it reports the commands it runs.
use vstd::prelude::*;
use crate::config::{Config, resolved_spec};
use crate::text::{
    copy_text, push_text, replace_all, replace_text, text_lt, text_order, trim, trim_text,
    lemma_text_lt_total, lemma_text_lt_transitive,
};

verus! {

broadcast use {vstd::string::group_string_axioms, vstd::seq_lib::group_to_multiset_ensures};

// ---------------------------------------------------------------------------
// Commands
// ---------------------------------------------------------------------------

/// The arguments joined by single spaces.
pub open spec fn joined_words(args: Seq<Seq<char>>) -> Seq<char>
    decreases args.len(),
{
    if args.len() == 0 {
        Seq::empty()
    } else if args.len() == 1 {
        args[0]
    } else {
        joined_words(args.drop_last()) + " "@ + args.last()
    }
}

/// How a command is shown: the program, then its arguments when they show
/// anything.
pub open spec fn command_display_text(command: Seq<char>, args: Seq<Seq<char>>) -> Seq<char> {
    if joined_words(args).len() == 0 {
        command
    } else {
        command + " "@ + joined_words(args)
    }
}

/// The output a failed command is reported with: its trimmed standard error,
/// else its trimmed standard output, else a placeholder.
pub open spec fn failure_details_text(stderr: Seq<char>, stdout: Seq<char>) -> Seq<char> {
    let e = trim(stderr);
    let o = trim(stdout);
    let d = if e.len() > 0 {
        e
    } else {
        o
    };
    if d.len() == 0 {
        "No output provided by command"@
    } else {
        d
    }
}

/// The message of a failed command.
pub open spec fn failure_message_text(display: Seq<char>, stderr: Seq<char>, stdout: Seq<char>) -> Seq<
    char,
> {
    "Command failed: `"@ + display + "`\n"@ + failure_details_text(stderr, stdout)
}

/// The views of a vector of strings.
pub open spec fn views_of(v: Seq<String>) -> Seq<Seq<char>> {
    v.map_values(|s: String| s@)
}

/// How a command is shown in messages: `command arg1 arg2 ...`.
pub fn command_display(command: &str, args: &Vec<String>) -> (r: String)
    ensures
        r@ == command_display_text(command@, views_of(args@)),
{
    let ghost a = views_of(args@);
    let mut joined = String::new();
    let n = args.len();
    let mut i: usize = 0;
    assert(a.take(0) =~= Seq::<Seq<char>>::empty());
    while i < n
        invariant
            n == args@.len(),
            a == views_of(args@),
            i <= n,
            joined@ == joined_words(a.take(i as int)),
        decreases n - i,
    {
        if i > 0 {
            push_text(&mut joined, " ");
        }
        push_text(&mut joined, args[i].as_str());
        proof {
            let t = a.take(i + 1);
            assert(t.drop_last() =~= a.take(i as int));
            assert(t.last() == args@[i as int]@);
            if i == 0 {
                assert(joined@ =~= joined_words(t));
            } else {
                assert(joined@ =~= joined_words(t));
            }
        }
        i = i + 1;
    }
    assert(a.take(n as int) =~= a);
    if joined.as_str().is_empty() {
        copy_text(command)
    } else {
        let mut out = copy_text(command);
        push_text(&mut out, " ");
        push_text(&mut out, joined.as_str());
        out
    }
}

/// The message for a command that failed: `Command failed: \`display\``,
/// then what it printed (see `failure_details_text`).
pub fn failure_message(display: &str, stderr: &str, stdout: &str) -> (r: String)
    ensures
        r@ == failure_message_text(display@, stderr@, stdout@),
{
    let e = trim_text(stderr);
    let o = trim_text(stdout);
    let d = if !e.as_str().is_empty() {
        e
    } else {
        o
    };
    let details = if d.as_str().is_empty() {
        copy_text("No output provided by command")
    } else {
        d
    };
    let mut out = copy_text("Command failed: `");
    push_text(&mut out, display);
    push_text(&mut out, "`\n");
    push_text(&mut out, details.as_str());
    out
}

// ---------------------------------------------------------------------------
// Template files
// ---------------------------------------------------------------------------

/// A template text file with every `{{project_name}}` replaced by the
/// project's name.
pub fn render_template_text(contents: &str, project_name: &str) -> (r: String)
    ensures
        r@ == replace_all(contents@, "{{project_name}}"@, project_name@),
{
    proof {
        reveal_strlit("{{project_name}}");
    }
    replace_text(contents, "{{project_name}}", project_name)
}

// ---------------------------------------------------------------------------
// Setting up a project
// ---------------------------------------------------------------------------

/// One step of setting up a new project.
#[derive(Debug, PartialEq, Eq)]
pub enum SetupStep {
    /// `rokit init`
    RokitInit,
    /// `rokit add <spec>`
    RokitAdd(String),
    /// `rojo init --kind model`, then remove `src/init.luau`
    InitRojo,
    /// `wally init`, then write the template's dependencies into `wally.toml`
    /// when it has a Wally section (`write_manifest`)
    InitWally { write_manifest: bool },
    /// `pesde init`, then write the template's dependencies into `pesde.toml`
    /// when it has a pesde section (`write_manifest`)
    InitPesde { write_manifest: bool },
    /// Copy the template's files, rendering `{{project_name}}`
    CopyTemplate,
    /// `wally install`, rojo sourcemap and Wally package types
    WallyTypes,
    /// Report that package types are skipped for want of Wally dependencies
    SkipWallyTypes,
    /// `pesde install`
    PesdeInstall,
    /// `lune setup`
    LuneSetup,
}

/// The mathematical value of a `SetupStep`.
pub enum SetupStepView {
    RokitInit,
    RokitAdd(Seq<char>),
    InitRojo,
    InitWally { write_manifest: bool },
    InitPesde { write_manifest: bool },
    CopyTemplate,
    WallyTypes,
    SkipWallyTypes,
    PesdeInstall,
    LuneSetup,
}

impl View for SetupStep {
    type V = SetupStepView;

    open spec fn view(&self) -> SetupStepView {
        match self {
            SetupStep::RokitInit => SetupStepView::RokitInit,
            SetupStep::RokitAdd(s) => SetupStepView::RokitAdd(s@),
            SetupStep::InitRojo => SetupStepView::InitRojo,
            SetupStep::InitWally { write_manifest } => SetupStepView::InitWally {
                write_manifest: *write_manifest,
            },
            SetupStep::InitPesde { write_manifest } => SetupStepView::InitPesde {
                write_manifest: *write_manifest,
            },
            SetupStep::CopyTemplate => SetupStepView::CopyTemplate,
            SetupStep::WallyTypes => SetupStepView::WallyTypes,
            SetupStep::SkipWallyTypes => SetupStepView::SkipWallyTypes,
            SetupStep::PesdeInstall => SetupStepView::PesdeInstall,
            SetupStep::LuneSetup => SetupStepView::LuneSetup,
        }
    }
}

/// `s` as a one-step sequence when `c` holds, else no step.
pub open spec fn step_if(c: bool, s: SetupStepView) -> Seq<SetupStepView> {
    if c {
        seq![s]
    } else {
        Seq::empty()
    }
}

/// A `rokit add` step for every configured tool, in name order.
pub open spec fn rokit_add_steps(ps: Seq<(Seq<char>, Seq<char>)>) -> Seq<SetupStepView> {
    ps.map_values(|p: (Seq<char>, Seq<char>)| SetupStepView::RokitAdd(resolved_spec(p.0, p.1)))
}

/// The steps that set up a project from a template with configuration `c`:
/// rokit and its tools first; rojo, Wally and pesde are initialized when they
/// are tools of the template; then the files are copied; then package types
/// are generated (with rojo, Wally and Wally dependencies), pesde packages
/// installed (with pesde and pesde dependencies), and lune set up (with lune).
pub open spec fn setup_steps(c: Config) -> Seq<SetupStepView> {
    let tools = c.rokit.tools.map();
    let rojo = tools.contains_key("rojo"@);
    let wally = tools.contains_key("wally"@);
    let pesde = tools.contains_key("pesde"@);
    let lune = tools.contains_key("lune"@);
    let wally_deps = c.wally matches Some(w) && (w.shared.map().len() > 0
        || w.server.map().len() > 0 || w.dev.map().len() > 0);
    let pesde_deps = c.pesde matches Some(p) && (p.dependencies.map().len() > 0
        || p.peer_dependencies.map().len() > 0 || p.dev_dependencies.map().len() > 0);
    seq![SetupStepView::RokitInit] + rokit_add_steps(c.rokit.tools.pairs()) + step_if(
        rojo,
        SetupStepView::InitRojo,
    ) + step_if(wally, SetupStepView::InitWally { write_manifest: c.wally is Some }) + step_if(
        pesde,
        SetupStepView::InitPesde { write_manifest: c.pesde is Some },
    ) + seq![SetupStepView::CopyTemplate] + step_if(
        rojo && wally && wally_deps,
        SetupStepView::WallyTypes,
    ) + step_if(rojo && wally && !wally_deps, SetupStepView::SkipWallyTypes) + step_if(
        pesde && pesde_deps,
        SetupStepView::PesdeInstall,
    ) + step_if(lune, SetupStepView::LuneSetup)
}

/// The views of a vector of steps.
pub open spec fn step_views(v: Seq<SetupStep>) -> Seq<SetupStepView> {
    v.map_values(|s: SetupStep| s@)
}

fn push_step(steps: &mut Vec<SetupStep>, s: SetupStep)
    ensures
        step_views(final(steps)@) == step_views(old(steps)@).push(s@),
{
    steps.push(s);
    assert(step_views(steps@) =~= step_views(old(steps)@).push(s@));
}

/// The steps that set up a project from a template (see `setup_steps`); the
/// caller carries them out in order and stops at the first that fails.
pub fn setup_plan(template_config: &Config) -> (r: Vec<SetupStep>)
    requires
        template_config.wf(),
    ensures
        step_views(r@) == setup_steps(*template_config),
{
    let c = template_config;
    let mut steps: Vec<SetupStep> = Vec::new();
    assert(step_views(steps@) =~= Seq::<SetupStepView>::empty());
    push_step(&mut steps, SetupStep::RokitInit);
    let specs = c.rokit.specs();
    let ghost base = step_views(steps@);
    let ghost ps = c.rokit.tools.pairs();
    let mut i: usize = 0;
    while i < specs.len()
        invariant
            i <= specs@.len(),
            specs@.len() == ps.len(),
            ps == c.rokit.tools.pairs(),
            forall|k: int|
                0 <= k < specs@.len() ==> #[trigger] specs@[k]@ == resolved_spec(ps[k].0, ps[k].1),
            step_views(steps@) == base + rokit_add_steps(ps).take(i as int),
        decreases specs@.len() - i,
    {
        push_step(&mut steps, SetupStep::RokitAdd(copy_text(specs[i].as_str())));
        assert(rokit_add_steps(ps).take(i + 1) =~= rokit_add_steps(ps).take(i as int).push(
            SetupStepView::RokitAdd(resolved_spec(ps[i as int].0, ps[i as int].1)),
        ));
        i = i + 1;
    }
    assert(rokit_add_steps(ps).take(ps.len() as int) =~= rokit_add_steps(ps));
    let rojo = c.rokit.has_tool("rojo");
    let wally = c.rokit.has_tool("wally");
    let pesde = c.rokit.has_tool("pesde");
    let lune = c.rokit.has_tool("lune");
    let wally_deps = match &c.wally {
        Some(w) => w.has_dependencies(),
        None => false,
    };
    let pesde_deps = match &c.pesde {
        Some(p) => p.has_dependencies(),
        None => false,
    };
    proof {
        if c.wally is Some {
            let w = c.wally.unwrap();
            w.shared.lemma_len();
            w.server.lemma_len();
            w.dev.lemma_len();
        }
        if c.pesde is Some {
            let p = c.pesde.unwrap();
            p.dependencies.lemma_len();
            p.peer_dependencies.lemma_len();
            p.dev_dependencies.lemma_len();
        }
    }
    proof {
        reveal_strlit("rojo");
        reveal_strlit("wally");
        reveal_strlit("pesde");
        reveal_strlit("lune");
    }
    let ghost tools = c.rokit.tools.map();
    let ghost g0 = step_views(steps@);
    assert(g0 == seq![SetupStepView::RokitInit] + rokit_add_steps(ps));
    if rojo {
        push_step(&mut steps, SetupStep::InitRojo);
    }
    let ghost g1 = g0 + step_if(rojo, SetupStepView::InitRojo);
    assert(step_views(steps@) =~= g1);
    if wally {
        push_step(&mut steps, SetupStep::InitWally { write_manifest: c.wally.is_some() });
    }
    let ghost g2 = g1 + step_if(wally, SetupStepView::InitWally { write_manifest: c.wally is Some });
    assert(step_views(steps@) =~= g2);
    if pesde {
        push_step(&mut steps, SetupStep::InitPesde { write_manifest: c.pesde.is_some() });
    }
    let ghost g3 = g2 + step_if(pesde, SetupStepView::InitPesde { write_manifest: c.pesde is Some });
    assert(step_views(steps@) =~= g3);
    push_step(&mut steps, SetupStep::CopyTemplate);
    let ghost g4 = g3 + seq![SetupStepView::CopyTemplate];
    assert(step_views(steps@) =~= g4);
    if rojo && wally && wally_deps {
        push_step(&mut steps, SetupStep::WallyTypes);
    } else if rojo && wally {
        push_step(&mut steps, SetupStep::SkipWallyTypes);
    }
    let ghost g5 = g4 + step_if(rojo && wally && wally_deps, SetupStepView::WallyTypes) + step_if(rojo && wally && !wally_deps, SetupStepView::SkipWallyTypes);
    assert(step_views(steps@) =~= g5);
    if pesde && pesde_deps {
        push_step(&mut steps, SetupStep::PesdeInstall);
    }
    let ghost g6 = g5 + step_if(pesde && pesde_deps, SetupStepView::PesdeInstall);
    assert(step_views(steps@) =~= g6);
    if lune {
        push_step(&mut steps, SetupStep::LuneSetup);
    }
    let ghost g7 = g6 + step_if(lune, SetupStepView::LuneSetup);
    assert(step_views(steps@) =~= g7);
    assert(rojo == tools.contains_key("rojo"@));
    assert(wally == tools.contains_key("wally"@));
    assert(pesde == tools.contains_key("pesde"@));
    assert(lune == tools.contains_key("lune"@));
    assert(wally_deps == (c.wally matches Some(w) && (w.shared.map().len() > 0
        || w.server.map().len() > 0 || w.dev.map().len() > 0)));
    assert(pesde_deps == (c.pesde matches Some(p) && (p.dependencies.map().len() > 0
        || p.peer_dependencies.map().len() > 0 || p.dev_dependencies.map().len() > 0)));
    assert(step_views(steps@) =~= setup_steps(*c));
    steps
}

// ---------------------------------------------------------------------------
// Listing templates
// ---------------------------------------------------------------------------

/// The views of template entries: name, and whether it has a configuration.
pub open spec fn entry_views(v: Seq<(String, bool)>) -> Seq<(Seq<char>, bool)> {
    v.map_values(|e: (String, bool)| (e.0@, e.1))
}

/// The entries are in name order (equal names in any order).
pub open spec fn sorted_by_name(s: Seq<(Seq<char>, bool)>) -> bool {
    forall|i: int, j: int| 0 <= i < j < s.len() ==> !text_lt(#[trigger] s[j].0, #[trigger] s[i].0)
}

/// The line that lists one template, marking one without a configuration.
pub open spec fn listing_line(name: Seq<char>, has_config: bool) -> Seq<char> {
    if has_config {
        "  - "@ + name
    } else {
        "  - "@ + name + " (missing rbx_project.toml)"@
    }
}

/// The lines that list the templates, or a note that there are none.
pub open spec fn listing_lines(s: Seq<(Seq<char>, bool)>) -> Seq<Seq<char>> {
    if s.len() == 0 {
        seq!["  (no templates found)"@]
    } else {
        s.map_values(|e: (Seq<char>, bool)| listing_line(e.0, e.1))
    }
}

proof fn lemma_insert_multiset<A>(s: Seq<A>, i: int, x: A)
    requires
        0 <= i <= s.len(),
    ensures
        s.insert(i, x).to_multiset() == s.to_multiset().insert(x),
{
    let t = s.insert(i, x);
    assert(t.remove(i) =~= s);
    assert(t[i] == x);
    assert(t.to_multiset().count(x) > 0) by {
        assert(t.contains(x));
    }
    assert(t.to_multiset() =~= s.to_multiset().insert(x));
}

/// The templates in name order: the same entries, sorted by name.
pub fn sort_templates(entries: Vec<(String, bool)>) -> (r: Vec<(String, bool)>)
    ensures
        sorted_by_name(entry_views(r@)),
        entry_views(r@).to_multiset() == entry_views(entries@).to_multiset(),
{
    let ghost input = entry_views(entries@);
    let mut out: Vec<(String, bool)> = Vec::new();
    let n = entries.len();
    let mut k: usize = 0;
    assert(entry_views(out@) =~= input.take(0));
    while k < n
        invariant
            n == entries@.len(),
            input == entry_views(entries@),
            k <= n,
            sorted_by_name(entry_views(out@)),
            entry_views(out@).to_multiset() == input.take(k as int).to_multiset(),
        decreases n - k,
    {
        let name = copy_text(entries[k].0.as_str());
        let flag = entries[k].1;
        let ghost ov = entry_views(out@);
        let mut i: usize = 0;
        while i < out.len() && text_order(name.as_str(), out[i].0.as_str()) != -1
            invariant
                i <= out@.len(),
                ov == entry_views(out@),
                forall|j: int| 0 <= j < i ==> !text_lt(name@, #[trigger] ov[j].0),
            decreases out@.len() - i,
        {
            i = i + 1;
        }
        let ghost x = (name@, flag);
        assert(x == input[k as int]);
        out.insert(i, (name, flag));
        let ghost nv = entry_views(out@);
        assert(nv =~= ov.insert(i as int, x));
        assert(sorted_by_name(nv)) by {
            assert forall|a: int, b: int| 0 <= a < b < nv.len() implies !text_lt(
                #[trigger] nv[b].0,
                #[trigger] nv[a].0,
            ) by {
                if b == i {
                    // everything before is not after `x`
                    lemma_text_lt_total(x.0, nv[a].0);
                } else if a == i {
                    // `x` comes before the element at `i` and so before all after it
                    assert(nv[b] == ov[b - 1]);
                    if i < ov.len() {
                        assert(text_lt(x.0, ov[i as int].0));
                        if b - 1 > i {
                            lemma_text_lt_total(ov[b - 1].0, ov[i as int].0);
                            if text_lt(ov[b - 1].0, x.0) {
                                lemma_text_lt_transitive(ov[b - 1].0, x.0, ov[i as int].0);
                            }
                        }
                    }
                } else if a < i && b > i {
                    assert(nv[b] == ov[b - 1]);
                } else if a > i {
                    assert(nv[a] == ov[a - 1]);
                    assert(nv[b] == ov[b - 1]);
                }
            }
        }
        proof {
            lemma_insert_multiset(ov, i as int, x);
            assert(input.take(k + 1) =~= input.take(k as int).push(x));
        }
        k = k + 1;
    }
    assert(input.take(n as int) =~= input);
    out
}

/// The lines that list templates given in name order (see `listing_lines`).
pub fn listing(sorted: &Vec<(String, bool)>) -> (r: Vec<String>)
    ensures
        views_of(r@) == listing_lines(entry_views(sorted@)),
{
    let mut r: Vec<String> = Vec::new();
    if sorted.len() == 0 {
        r.push(copy_text("  (no templates found)"));
        assert(views_of(r@) =~= listing_lines(entry_views(sorted@)));
        return r;
    }
    let mut i: usize = 0;
    while i < sorted.len()
        invariant
            i <= sorted@.len(),
            sorted@.len() > 0,
            views_of(r@) == listing_lines(entry_views(sorted@)).take(i as int),
        decreases sorted@.len() - i,
    {
        let mut line = copy_text("  - ");
        push_text(&mut line, sorted[i].0.as_str());
        if !sorted[i].1 {
            push_text(&mut line, " (missing rbx_project.toml)");
        }
        assert(line@ == listing_line(sorted@[i as int].0@, sorted@[i as int].1));
        assert(entry_views(sorted@)[i as int] == (sorted@[i as int].0@, sorted@[i as int].1));
        assert(listing_lines(entry_views(sorted@))[i as int] == line@);
        let ghost prev = views_of(r@);
        r.push(line);
        assert(views_of(r@) =~= prev.push(listing_lines(entry_views(sorted@))[i as int]));
        assert(views_of(r@) =~= listing_lines(entry_views(sorted@)).take(i + 1));
        i = i + 1;
    }
    assert(listing_lines(entry_views(sorted@)).take(sorted@.len() as int) =~= listing_lines(
        entry_views(sorted@),
    ));
    r
}

} // verus!
