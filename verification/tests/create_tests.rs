use rbx_project::cli::{pesde_add_dependency, wally_add_dependency, Realm};
use rbx_project::config::{Config, Rokit};
use rbx_project::create::{
    command_display, failure_message, listing, render_template_text, setup_plan, sort_templates,
    SetupStep,
};

fn config_with(tools: &[&str]) -> Config {
    let mut rokit = Rokit::default();
    for t in tools {
        rokit.add_tool(t);
    }
    Config { template_name: "Game".to_string(), rokit, wally: None, pesde: None }
}

fn strings(v: &[&str]) -> Vec<String> {
    v.iter().map(|s| s.to_string()).collect()
}

#[test]
fn command_display_joins_arguments() {
    assert_eq!(command_display("rokit", &strings(&["add", "rojo"])), "rokit add rojo");
    assert_eq!(command_display("wally", &strings(&[])), "wally");
    assert_eq!(command_display("x", &strings(&[""])), "x");
    assert_eq!(command_display("x", &strings(&["", "a"])), "x  a");
}

#[test]
fn failure_message_prefers_stderr() {
    assert_eq!(failure_message("wally install", "  err \n", "out"), "Command failed: `wally install`\nerr");
    assert_eq!(failure_message("a", "", " out "), "Command failed: `a`\nout");
    assert_eq!(failure_message("a", " ", "\n"), "Command failed: `a`\nNo output provided by command");
}

#[test]
fn render_template_replaces_project_name() {
    assert_eq!(render_template_text("name = {{project_name}}\n{{project_name}}", "Foo"), "name = Foo\nFoo");
    assert_eq!(render_template_text("{{{project_name}}}", "Foo"), "{Foo}");
    assert_eq!(render_template_text("nothing", "Foo"), "nothing");
}

#[test]
fn setup_plan_with_rojo_wally_and_lune() {
    let mut c = config_with(&["rojo-rbx/rojo@7.4.0", "UpliftGames/wally@0.3.2", "lune-org/lune@0.8.0"]);
    wally_add_dependency(&mut c, "R = r/r@1", &Realm::Shared).unwrap();
    assert_eq!(
        setup_plan(&c),
        vec![
            SetupStep::RokitInit,
            SetupStep::RokitAdd("lune-org/lune@0.8.0".to_string()),
            SetupStep::RokitAdd("rojo-rbx/rojo@7.4.0".to_string()),
            SetupStep::RokitAdd("UpliftGames/wally@0.3.2".to_string()),
            SetupStep::InitRojo,
            SetupStep::InitWally { write_manifest: true },
            SetupStep::CopyTemplate,
            SetupStep::WallyTypes,
            SetupStep::LuneSetup,
        ]
    );
}

#[test]
fn setup_plan_skips_types_without_wally_dependencies() {
    let c = config_with(&["rojo-rbx/rojo@7.4.0", "UpliftGames/wally@0.3.2"]);
    assert_eq!(
        setup_plan(&c),
        vec![
            SetupStep::RokitInit,
            SetupStep::RokitAdd("rojo-rbx/rojo@7.4.0".to_string()),
            SetupStep::RokitAdd("UpliftGames/wally@0.3.2".to_string()),
            SetupStep::InitRojo,
            SetupStep::InitWally { write_manifest: false },
            SetupStep::CopyTemplate,
            SetupStep::SkipWallyTypes,
        ]
    );
}

#[test]
fn setup_plan_with_pesde() {
    let mut c = config_with(&["pesde-pkg/pesde@0.6.0"]);
    assert_eq!(
        setup_plan(&c),
        vec![
            SetupStep::RokitInit,
            SetupStep::RokitAdd("pesde-pkg/pesde@0.6.0".to_string()),
            SetupStep::InitPesde { write_manifest: false },
            SetupStep::CopyTemplate,
        ]
    );
    pesde_add_dependency(&mut c, "a = acme/a@1", &Realm::Shared).unwrap();
    assert_eq!(
        setup_plan(&c),
        vec![
            SetupStep::RokitInit,
            SetupStep::RokitAdd("pesde-pkg/pesde@0.6.0".to_string()),
            SetupStep::InitPesde { write_manifest: true },
            SetupStep::CopyTemplate,
            SetupStep::PesdeInstall,
        ]
    );
}

#[test]
fn setup_plan_of_bare_template() {
    assert_eq!(setup_plan(&config_with(&[])), vec![SetupStep::RokitInit, SetupStep::CopyTemplate]);
}

#[test]
fn listing_sorts_and_marks_templates() {
    let entries = vec![
        ("Game".to_string(), true),
        ("Empty".to_string(), false),
        ("Alpha".to_string(), true),
        ("b".to_string(), true),
        ("B".to_string(), true),
    ];
    let sorted = sort_templates(entries);
    assert_eq!(
        listing(&sorted),
        strings(&["  - Alpha", "  - B", "  - Empty (missing rbx_project.toml)", "  - Game", "  - b"])
    );
    assert_eq!(listing(&sort_templates(vec![])), strings(&["  (no templates found)"]));
}
