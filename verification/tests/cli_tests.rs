use rbx_project::cli::{
    pesde_add_dependency, pesde_remove_dependency, wally_add_dependency, wally_remove_dependency,
    ConfigAction, DependencyError, Realm, RokitAction,
};
use rbx_project::config::{Config, PesdeDependency, Rokit};
use rbx_project::depmap::DepMap;

fn empty_config() -> Config {
    Config { template_name: "Game".to_string(), rokit: Rokit::default(), wally: None, pesde: None }
}

fn entries(m: &DepMap<String>) -> Vec<(String, String)> {
    (0..m.len()).map(|i| (m.key_at(i).clone(), m.value_at(i).clone())).collect()
}

fn pair(a: &str, b: &str) -> (String, String) {
    (a.to_string(), b.to_string())
}

#[test]
fn realm_defaults_to_shared() {
    assert_eq!(Realm::default(), Realm::Shared);
}

#[test]
fn wally_add_creates_section_and_strips_quotes() {
    let mut c = empty_config();
    assert_eq!(wally_add_dependency(&mut c, " React = \"jsdotlua/react@17.0.2\" ", &Realm::Shared), Ok(()));
    let w = c.wally.as_ref().unwrap();
    assert_eq!(entries(&w.shared), vec![pair("React", "jsdotlua/react@17.0.2")]);
    assert!(w.server.is_empty());
    assert!(w.dev.is_empty());
}

#[test]
fn wally_add_keeps_existing_origin_and_uses_realm() {
    let mut c = empty_config();
    wally_add_dependency(&mut c, "A = a/a@1", &Realm::Server).unwrap();
    wally_add_dependency(&mut c, "A = a/a@2", &Realm::Server).unwrap();
    wally_add_dependency(&mut c, "T = t/t@0.1", &Realm::Dev).unwrap();
    let w = c.wally.as_ref().unwrap();
    assert!(w.shared.is_empty());
    assert_eq!(entries(&w.server), vec![pair("A", "a/a@1")]);
    assert_eq!(entries(&w.dev), vec![pair("T", "t/t@0.1")]);
}

#[test]
fn wally_add_without_equals_is_an_error() {
    let mut c = empty_config();
    let e = wally_add_dependency(&mut c, "React", &Realm::Shared).unwrap_err();
    assert_eq!(e, DependencyError::WallyEntryFormat);
    assert_eq!(e.message(), "Dependency must be in the form `Name = \"owner/package@version\"`");
    assert!(c.wally.is_none());
}

#[test]
fn wally_remove_undoes_add() {
    let mut c = empty_config();
    wally_add_dependency(&mut c, "A = a/a@1", &Realm::Shared).unwrap();
    wally_remove_dependency(&mut c, "A", &Realm::Shared);
    assert!(c.wally.as_ref().unwrap().shared.is_empty());
    let mut d = empty_config();
    wally_remove_dependency(&mut d, "A", &Realm::Shared);
    assert!(d.wally.is_none());
}

#[test]
fn wally_remove_only_touches_its_realm() {
    let mut c = empty_config();
    wally_add_dependency(&mut c, "A = a/a@1", &Realm::Shared).unwrap();
    wally_add_dependency(&mut c, "A = a/a@1", &Realm::Dev).unwrap();
    wally_remove_dependency(&mut c, "A", &Realm::Dev);
    let w = c.wally.as_ref().unwrap();
    assert_eq!(entries(&w.shared), vec![pair("A", "a/a@1")]);
    assert!(w.dev.is_empty());
}

#[test]
fn pesde_add_parses_standard_and_wally_specs() {
    let mut c = empty_config();
    pesde_add_dependency(&mut c, "lib = \"acme/lib@1.2.3\"", &Realm::Shared).unwrap();
    pesde_add_dependency(&mut c, "React = wally:jsdotlua/react@17.0.2", &Realm::Server).unwrap();
    pesde_add_dependency(&mut c, "x = a@b@c", &Realm::Dev).unwrap();
    let p = c.pesde.as_ref().unwrap();
    assert_eq!(
        p.dependencies.get("lib"),
        Some(&PesdeDependency::Standard { name: "acme/lib".to_string(), version: "1.2.3".to_string() })
    );
    assert_eq!(
        p.peer_dependencies.get("React"),
        Some(&PesdeDependency::WallySource { wally: "jsdotlua/react".to_string(), version: "17.0.2".to_string() })
    );
    assert_eq!(
        p.dev_dependencies.get("x"),
        Some(&PesdeDependency::Standard { name: "a@b".to_string(), version: "c".to_string() })
    );
}

#[test]
fn pesde_add_errors() {
    let mut c = empty_config();
    let e1 = pesde_add_dependency(&mut c, "nothing", &Realm::Shared).unwrap_err();
    assert_eq!(e1, DependencyError::PesdeEntryFormat);
    assert_eq!(
        e1.message(),
        "Dependency must be in the form `Alias = scope/name@version` or `Alias = wally:owner/package@version`"
    );
    let e2 = pesde_add_dependency(&mut c, "a = wally:owner/pkg", &Realm::Shared).unwrap_err();
    assert_eq!(e2, DependencyError::WallySourceFormat);
    assert_eq!(e2.message(), "Expected format: wally:owner/package@version");
    let e3 = pesde_add_dependency(&mut c, "a = scope/name", &Realm::Shared).unwrap_err();
    assert_eq!(e3, DependencyError::PesdeSourceFormat);
    assert_eq!(e3.message(), "Expected format: scope/name@version");
    assert!(c.pesde.is_none());
}

#[test]
fn pesde_add_keeps_existing_and_remove_undoes() {
    let mut c = empty_config();
    pesde_add_dependency(&mut c, "lib = acme/lib@1", &Realm::Shared).unwrap();
    pesde_add_dependency(&mut c, "lib = acme/lib@2", &Realm::Shared).unwrap();
    assert_eq!(
        c.pesde.as_ref().unwrap().dependencies.get("lib"),
        Some(&PesdeDependency::Standard { name: "acme/lib".to_string(), version: "1".to_string() })
    );
    pesde_remove_dependency(&mut c, "lib", &Realm::Shared);
    assert!(c.pesde.as_ref().unwrap().dependencies.is_empty());
    let mut d = empty_config();
    pesde_remove_dependency(&mut d, "lib", &Realm::Dev);
    assert!(d.pesde.is_none());
}

#[test]
fn apply_actions() {
    let mut c = empty_config();
    let add = ConfigAction::Add { name: "A = a/a@1".to_string(), global: false, realm: Realm::Dev };
    assert_eq!(c.apply_wally_action(&add), Ok(()));
    assert_eq!(entries(&c.wally.as_ref().unwrap().dev), vec![pair("A", "a/a@1")]);
    assert_eq!(c.apply_wally_action(&ConfigAction::Reload), Ok(()));
    let rm = ConfigAction::Remove { name: "A".to_string(), global: true, realm: Realm::Dev };
    assert_eq!(c.apply_wally_action(&rm), Ok(()));
    assert!(c.wally.as_ref().unwrap().dev.is_empty());

    let bad = ConfigAction::Add { name: "a = b".to_string(), global: false, realm: Realm::Shared };
    assert_eq!(c.apply_pesde_action(&bad), Err(DependencyError::PesdeSourceFormat));
    let good = ConfigAction::Add { name: "a = b@1".to_string(), global: false, realm: Realm::Shared };
    assert_eq!(c.apply_pesde_action(&good), Ok(()));
    assert!(c.pesde.as_ref().unwrap().dependencies.contains_key("a"));

    c.rokit.apply_action(&RokitAction::Add { name: "rojo-rbx/rojo@7.4.0".to_string(), global: false });
    assert!(c.rokit.has_tool("rojo"));
    c.rokit.apply_action(&RokitAction::Remove { name: "rojo".to_string(), global: false });
    assert!(!c.rokit.has_tool("rojo"));
}
