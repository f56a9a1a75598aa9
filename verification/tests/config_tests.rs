use rbx_project::config::{Pesde, PesdeDependency, Wally};
use rbx_project::depmap::DepMap;

fn strings(entries: &[(&str, &str)]) -> DepMap<String> {
    let mut m = DepMap::new();
    for (k, v) in entries {
        m.insert_if_absent(k.to_string(), v.to_string());
    }
    m
}

fn wally_of(shared: &[(&str, &str)], server: &[(&str, &str)], dev: &[(&str, &str)]) -> Wally {
    Wally { shared: strings(shared), server: strings(server), dev: strings(dev) }
}

fn std_dep(name: &str, version: &str) -> PesdeDependency {
    PesdeDependency::Standard { name: name.to_string(), version: version.to_string() }
}

fn wally_dep(wally: &str, version: &str) -> PesdeDependency {
    PesdeDependency::WallySource { wally: wally.to_string(), version: version.to_string() }
}

#[test]
fn wally_section_lists_dependencies_in_name_order() {
    let deps = strings(&[("b", "x/b@1"), ("a", "y/a@2")]);
    assert_eq!(
        Wally::format_dependency_section("dependencies", &deps),
        "[dependencies]\na = \"y/a@2\"\nb = \"x/b@1\"\n"
    );
    assert_eq!(Wally::format_dependency_section("dev-dependencies", &DepMap::new()), "[dev-dependencies]\n");
}

#[test]
fn write_to_wally_keeps_package_info_and_replaces_sections() {
    let w = wally_of(&[("React", "jsdotlua/react@17.0.2")], &[], &[("TestEZ", "roblox/testez@0.4.1")]);
    let content = "[package]\nname = \"me/proj\"\nversion = \"0.1.0\"\n\n[dependencies]\nOld = \"o/old@1\"\n";
    assert_eq!(
        w.write_to_wally(content),
        "[package]\nname = \"me/proj\"\nversion = \"0.1.0\"\n\n[dependencies]\nReact = \"jsdotlua/react@17.0.2\"\n\n[server-dependencies]\n\n[dev-dependencies]\nTestEZ = \"roblox/testez@0.4.1\""
    );
}

#[test]
fn write_to_wally_without_dependencies_section() {
    let w = wally_of(&[], &[], &[]);
    // No [dependencies]: the info ends before [server-dependencies].
    let content = "  info\n[server-dependencies]\nA = \"a/a@1\"\n";
    assert_eq!(
        w.write_to_wally(content),
        "info\n\n[dependencies]\n\n[server-dependencies]\n\n[dev-dependencies]"
    );
    // No marker at all: everything is info.
    assert_eq!(
        w.write_to_wally("[package]\n"),
        "[package]\n\n[dependencies]\n\n[server-dependencies]\n\n[dev-dependencies]"
    );
    // Empty manifest: only the sections.
    assert_eq!(w.write_to_wally(""), "[dependencies]\n\n[server-dependencies]\n\n[dev-dependencies]");
}

#[test]
fn write_to_wally_cuts_at_the_earliest_section() {
    let w = wally_of(&[("R", "r/r@1")], &[], &[]);
    let content = "[package]\nname = \"a/b\"\n\n[dev-dependencies]\nT = \"t/t@1\"\n\n[dependencies]\nOld = \"o/o@1\"\n";
    assert_eq!(
        w.write_to_wally(content),
        "[package]\nname = \"a/b\"\n\n[dependencies]\nR = \"r/r@1\"\n\n[server-dependencies]\n\n[dev-dependencies]"
    );
    let content = "[package]\n[server-dependencies]\nS = \"s\"\n[dev-dependencies]\n[dependencies]\n";
    assert_eq!(
        w.write_to_wally(content),
        "[package]\n\n[dependencies]\nR = \"r/r@1\"\n\n[server-dependencies]\n\n[dev-dependencies]"
    );
}

#[test]
fn write_to_pesde_cuts_at_the_earliest_section() {
    let p = Pesde::default();
    let content = "name = \"me/proj\"\n[dev_dependencies]\nt = { name = \"t/t\", version = \"1\" }\n[dependencies]\n";
    assert_eq!(
        p.write_to_pesde(content),
        "name = \"me/proj\"\n\n[dependencies]\n\n[peer_dependencies]\n\n[dev_dependencies]"
    );
}

#[test]
fn write_to_wally_twice_is_write_once() {
    let w = wally_of(&[("A", "a/a@1")], &[("B", "b/b@2")], &[]);
    for content in ["", "[package]\nname = \"x\"\n\n[dev-dependencies]\nQ = \"q\"\n", "  \n", "p [dependencies] q", "a\n[dev-dependencies]\n[dependencies]\n"] {
        let once = w.write_to_wally(content);
        assert_eq!(w.write_to_wally(&once), once);
    }
}

#[test]
fn has_dependencies_checks_every_realm() {
    assert!(!wally_of(&[], &[], &[]).has_dependencies());
    assert!(wally_of(&[], &[], &[("a", "b")]).has_dependencies());
    assert!(wally_of(&[], &[("a", "b")], &[]).has_dependencies());
    assert!(!Wally::default().has_dependencies());
}

#[test]
fn format_dep_writes_inline_tables() {
    assert_eq!(Pesde::format_dep(&std_dep("acme/lib", "^1.0.0")), "{ name = \"acme/lib\", version = \"^1.0.0\" }");
    assert_eq!(Pesde::format_dep(&wally_dep("owner/pkg", "0.1.0")), "{ wally = \"owner/pkg\", version = \"0.1.0\" }");
}

#[test]
fn write_to_pesde_replaces_sections() {
    let mut deps = DepMap::new();
    deps.insert_if_absent("lib".to_string(), std_dep("acme/lib", "^1.0.0"));
    deps.insert_if_absent("React".to_string(), wally_dep("jsdotlua/react", "17.0.2"));
    let p = Pesde { dependencies: deps, peer_dependencies: DepMap::new(), dev_dependencies: DepMap::new() };
    assert!(p.has_dependencies());
    let content = "name = \"me/proj\"\nversion = \"0.1.0\"\n\n[peer_dependencies]\nx = 1\n";
    assert_eq!(
        p.write_to_pesde(content),
        "name = \"me/proj\"\nversion = \"0.1.0\"\n\n[dependencies]\nReact = { wally = \"jsdotlua/react\", version = \"17.0.2\" }\nlib = { name = \"acme/lib\", version = \"^1.0.0\" }\n\n[peer_dependencies]\n\n[dev_dependencies]"
    );
    let once = p.write_to_pesde(content);
    assert_eq!(p.write_to_pesde(&once), once);
    assert!(!Pesde::default().has_dependencies());
}

#[test]
fn depmap_keeps_name_order_and_first_value() {
    let mut m = DepMap::new();
    assert!(m.is_empty());
    assert!(m.insert_if_absent("b".to_string(), "1".to_string()));
    assert!(m.insert_if_absent("a".to_string(), "2".to_string()));
    assert!(m.insert_if_absent("B".to_string(), "3".to_string()));
    assert!(!m.insert_if_absent("a".to_string(), "4".to_string()));
    assert_eq!(m.len(), 3);
    let keys: Vec<&str> = (0..m.len()).map(|i| m.key_at(i).as_str()).collect();
    assert_eq!(keys, vec!["B", "a", "b"]);
    assert_eq!(m.get("a").map(|s| s.as_str()), Some("2"));
    assert!(m.contains_key("B"));
    m.remove("B");
    assert!(!m.contains_key("B"));
    assert_eq!(m.get("B"), None);
    m.remove("zzz");
    assert_eq!(m.len(), 2);
}

#[test]
fn depmap_orders_by_code_point_like_btreemap() {
    let names = ["é", "z", "", "ab", "a", "Z", "\u{1F600}", "aa"];
    let mut m = DepMap::new();
    let mut b = std::collections::BTreeMap::new();
    for n in names {
        m.insert_if_absent(n.to_string(), n.to_string());
        b.insert(n.to_string(), ());
    }
    let ours: Vec<String> = (0..m.len()).map(|i| m.key_at(i).clone()).collect();
    let theirs: Vec<String> = b.into_keys().collect();
    assert_eq!(ours, theirs);
}
