use rbx_project::cli::{wally_add_dependency, Realm};
use rbx_project::config::{Config, PesdeDependency, Rokit};
use rbx_project::reconcile::{read_pesde, read_rokit, read_wally, run, ReconcileError};

fn config() -> Config {
    let mut rokit = Rokit::default();
    rokit.add_tool("lune-org/lune@0.8.0");
    let mut c = Config { template_name: "Game".to_string(), rokit, wally: None, pesde: None };
    wally_add_dependency(&mut c, "A = a/a@1", &Realm::Shared).unwrap();
    c
}

#[test]
fn read_rokit_keeps_string_tools() {
    let r = read_rokit("[tools]\nrojo = \"rojo-rbx/rojo@7.4.0\"\nnum = 1\n[other]\nx = \"y\"\n").unwrap();
    assert_eq!(r.specs(), vec!["rojo-rbx/rojo@7.4.0".to_string()]);
    let empty = read_rokit("tools = 3\n").unwrap();
    assert!(empty.specs().is_empty());
    assert!(read_rokit("= nope").is_err());
}

#[test]
fn read_wally_reads_three_sections() {
    let w = read_wally(
        "[package]\nname = \"a/b\"\n[dependencies]\nR = \"r/r@1\"\n[server-dependencies]\nS = \"s/s@2\"\nN = 5\n[dev-dependencies]\nT = \"t/t@3\"\n",
    )
    .unwrap();
    assert_eq!(w.shared.get("R").map(|s| s.as_str()), Some("r/r@1"));
    assert_eq!(w.server.len(), 1);
    assert_eq!(w.server.get("S").map(|s| s.as_str()), Some("s/s@2"));
    assert_eq!(w.dev.get("T").map(|s| s.as_str()), Some("t/t@3"));
    let none = read_wally("[package]\nname = \"a/b\"\n").unwrap();
    assert!(!none.has_dependencies());
}

#[test]
fn read_pesde_reads_inline_tables() {
    let p = read_pesde(
        "[dependencies]\nA = { name = \"acme/a\", version = \"1\" }\nB = { wally = \"o/b\" }\nC = 3\nD = { wally = 1, name = \"n/d\", version = \"2\" }\n[peer_dependencies]\nE = { foo = \"x\" }\n",
    )
    .unwrap();
    assert_eq!(p.dependencies.len(), 3);
    assert_eq!(
        p.dependencies.get("A"),
        Some(&PesdeDependency::Standard { name: "acme/a".to_string(), version: "1".to_string() })
    );
    assert_eq!(
        p.dependencies.get("B"),
        Some(&PesdeDependency::WallySource { wally: "o/b".to_string(), version: String::new() })
    );
    assert_eq!(
        p.dependencies.get("D"),
        Some(&PesdeDependency::Standard { name: "n/d".to_string(), version: "2".to_string() })
    );
    assert!(p.peer_dependencies.is_empty());
    assert!(p.dev_dependencies.is_empty());
}

#[test]
fn run_replaces_and_removes_sections() {
    let mut c = config();
    let r = run(
        &mut c,
        Some("[tools]\nrojo = \"rojo-rbx/rojo@7.4.0\"\n"),
        None,
        Some("[dependencies]\nA = { name = \"acme/a\", version = \"1\" }\n"),
    );
    assert_eq!(r, Ok(()));
    assert_eq!(c.template_name, "Game");
    assert_eq!(c.rokit.specs(), vec!["rojo-rbx/rojo@7.4.0".to_string()]);
    assert!(c.wally.is_none());
    assert!(c.pesde.as_ref().unwrap().dependencies.contains_key("A"));
}

#[test]
fn run_keeps_tools_without_rokit_toml_and_keeps_empty_wally() {
    let mut c = config();
    assert_eq!(run(&mut c, None, Some("[package]\nname = \"a/b\"\n"), None), Ok(()));
    assert_eq!(c.rokit.specs(), vec!["lune-org/lune@0.8.0".to_string()]);
    assert!(c.wally.is_some());
    assert!(!c.wally.as_ref().unwrap().has_dependencies());
    assert!(c.pesde.is_none());
}

#[test]
fn run_reports_the_first_manifest_that_does_not_parse() {
    let mut c = config();
    assert!(matches!(run(&mut c, Some("= x"), Some("= y"), None), Err(ReconcileError::Rokit(_))));
    let mut d = config();
    assert!(matches!(run(&mut d, Some("[tools]\n"), Some("= y"), Some("= z")), Err(ReconcileError::Wally(_))));
    let mut e = config();
    assert!(matches!(run(&mut e, None, None, Some("= z")), Err(ReconcileError::Pesde(_))));
}
