use rbx_project::config::Rokit;
use rbx_project::depmap::DepMap;
use rbx_project::rokit_sync::RokitSyncError;

fn rokit_of(entries: &[(&str, &str)]) -> Rokit {
    let mut tools = DepMap::new();
    for (k, v) in entries {
        tools.insert_if_absent(k.to_string(), v.to_string());
    }
    Rokit { tools }
}

#[test]
fn short_name_examples_from_the_docs() {
    assert_eq!(Rokit::short_name("1Axen/blink@0.15.3"), "blink");
    assert_eq!(Rokit::short_name("rojo-rbx/rojo@7.7.0"), "rojo");
    assert_eq!(Rokit::short_name("rojo"), "rojo");
}

#[test]
fn short_name_edge_cases() {
    assert_eq!(Rokit::short_name(""), "");
    assert_eq!(Rokit::short_name("a/b/c@1/2"), "c");
    assert_eq!(Rokit::short_name("tool@1.0"), "tool");
    assert_eq!(Rokit::short_name("owner/"), "");
    assert_eq!(Rokit::short_name("@1.0"), "");
    assert_eq!(Rokit::short_name("x/ü@é"), "ü");
}

#[test]
fn short_name_is_idempotent_on_examples() {
    for s in ["1Axen/blink@0.15.3", "a/b@c/d", "plain", "x@y@z"] {
        let once = Rokit::short_name(s);
        assert_eq!(Rokit::short_name(once), once);
    }
}

#[test]
fn has_version_checks_for_at() {
    assert!(Rokit::has_version("rojo-rbx/rojo@7.7.0"));
    assert!(!Rokit::has_version("rojo-rbx/rojo"));
    assert!(!Rokit::has_version(""));
}

#[test]
fn resolve_spec_uses_name_when_spec_is_empty() {
    assert_eq!(Rokit::resolve_spec("rojo", ""), "rojo");
    assert_eq!(Rokit::resolve_spec("rojo", "rojo-rbx/rojo@7.7.0"), "rojo-rbx/rojo@7.7.0");
}

#[test]
fn add_tool_keys_by_short_name_and_keeps_existing() {
    let mut r = Rokit::default();
    r.add_tool("1Axen/blink@0.18.7");
    assert!(r.has_tool("blink"));
    assert!(!r.has_tool("1Axen/blink@0.18.7"));
    r.add_tool("1Axen/blink@0.19.0");
    assert_eq!(r.specs(), vec!["1Axen/blink@0.18.7".to_string()]);
}

#[test]
fn remove_tool_undoes_add_tool() {
    let mut r = Rokit::default();
    r.add_tool("rojo-rbx/rojo@7.7.0");
    r.remove_tool("rojo");
    assert!(!r.has_tool("rojo"));
    assert!(r.specs().is_empty());
    r.remove_tool("absent");
    assert!(r.specs().is_empty());
}

#[test]
fn specs_are_resolved_in_name_order() {
    let r = rokit_of(&[("wally", ""), ("rojo", "rojo-rbx/rojo@7.7.0"), ("lune", "lune-org/lune")]);
    assert_eq!(
        r.specs(),
        vec!["lune-org/lune".to_string(), "rojo-rbx/rojo@7.7.0".to_string(), "wally".to_string()]
    );
}

#[test]
fn write_to_rokit_syncs_the_tools_table() {
    let r = rokit_of(&[("rojo", "rojo-rbx/rojo@7.7.0"), ("wally", ""), ("lune", "")]);
    let content = "[tools]\nrojo = \"rojo-rbx/rojo@7.0.0\"\nwally = \"UpliftGames/wally@0.3.2\"\nold = \"x/old@1\"\n";
    let out = r.write_to_rokit(content).ok().unwrap();
    let table: toml::Table = toml::from_str(&out).unwrap();
    let tools = table.get("tools").unwrap().as_table().unwrap();
    assert_eq!(tools.len(), 3);
    assert_eq!(tools.get("rojo").unwrap().as_str(), Some("rojo-rbx/rojo@7.7.0"));
    assert_eq!(tools.get("wally").unwrap().as_str(), Some("UpliftGames/wally@0.3.2"));
    assert_eq!(tools.get("lune").unwrap().as_str(), Some("lune"));
    assert!(tools.get("old").is_none());
}

#[test]
fn write_to_rokit_keeps_other_keys_and_creates_tools() {
    let r = rokit_of(&[("rojo", "")]);
    let out = r.write_to_rokit("title = 3\n").ok().unwrap();
    let table: toml::Table = toml::from_str(&out).unwrap();
    assert_eq!(table.get("title").unwrap().as_integer(), Some(3));
    let tools = table.get("tools").unwrap().as_table().unwrap();
    assert_eq!(tools.get("rojo").unwrap().as_str(), Some("rojo"));
}

#[test]
fn write_to_rokit_keeps_non_string_entry_for_empty_spec() {
    let r = rokit_of(&[("rojo", "")]);
    let out = r.write_to_rokit("[tools]\nrojo = 5\n").ok().unwrap();
    let table: toml::Table = toml::from_str(&out).unwrap();
    let tools = table.get("tools").unwrap().as_table().unwrap();
    assert_eq!(tools.get("rojo").unwrap().as_integer(), Some(5));
}

#[test]
fn write_to_rokit_errors() {
    let r = rokit_of(&[("rojo", "")]);
    assert!(matches!(r.write_to_rokit("not = = toml"), Err(RokitSyncError::Parse(_))));
    assert!(matches!(r.write_to_rokit("tools = 1\n"), Err(RokitSyncError::ToolsNotTable)));
}

#[test]
fn write_to_rokit_twice_is_write_once() {
    let r = rokit_of(&[("rojo", "rojo-rbx/rojo@7.7.0"), ("wally", "")]);
    let once = r.write_to_rokit("[tools]\nwally = \"a/wally@1\"\nx = \"y\"\n").ok().unwrap();
    let twice = r.write_to_rokit(&once).ok().unwrap();
    assert_eq!(once, twice);
}

#[test]
fn write_to_rokit_keeps_other_values_unchanged() {
    let r = rokit_of(&[("rojo", "rojo-rbx/rojo@7.7.0")]);
    let content = "ratio = 1.5\nlist = [1, 2]\nwhen = 1979-05-27\n[meta]\nflag = true\n[tools]\nrojo = \"x\"\n";
    let out = r.write_to_rokit(content).ok().unwrap();
    let before: toml::Table = toml::from_str(content).unwrap();
    let after: toml::Table = toml::from_str(&out).unwrap();
    for key in ["ratio", "list", "when", "meta"] {
        assert_eq!(before.get(key), after.get(key));
    }
}
