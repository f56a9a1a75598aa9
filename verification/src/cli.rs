//! The commands of the tool, and the changes they make to a configuration.
use vstd::prelude::*;
use crate::config::{Config, Pesde, PesdeDependency, PesdeDependencyView, Rokit, Wally, short_name_of};
use crate::depmap::DepMap;
use crate::text::{
    replace_all, replace_text, rsplit_once_at, rsplit_once_char, split_once_at, split_once_char,
    strip_prefix, strip_prefix_text, trim, trim_text, copy_text,
};

verus! {

broadcast use vstd::string::group_string_axioms;

/// Where a dependency is used.
#[derive(Clone, Copy, Debug, PartialEq, Eq, Structural)]
pub enum Realm {
    Shared,
    Server,
    Dev,
}

impl Default for Realm {
    fn default() -> (r: Self)
        ensures
            r == Realm::Shared,
    {
        Realm::Shared
    }
}

/// The command line.
pub struct Cli {
    pub command: Command,
}

/// What the tool is asked to do.
pub enum Command {
    /// Create a new Roblox project
    New(ProjectArgs),
    /// List available templates
    List,
    /// Manage Wally
    Wally(ConfigArgs),
    /// Manage Rokit
    Rokit(RokitArgs),
    /// Manage pesde
    Pesde(ConfigArgs),
    /// Sync rbx_project.toml to tool config files (rokit.toml, wally.toml, pesde.toml)
    Sync,
    /// Reconcile project state with rbx_project.toml
    Reconcile,
}

/// The arguments of `new`.
pub struct ProjectArgs {
    /// Template name (folder name inside structure_templates).
    pub kind: String,
    /// Do not open the project in Visual Studio Code
    pub no_open_in_code: bool,
    /// Output path
    pub path: String,
}

/// The arguments of `wally` and `pesde`.
pub struct ConfigArgs {
    pub action: ConfigAction,
}

/// A change to the Wally or pesde dependencies.
pub enum ConfigAction {
    Add { name: String, global: bool, realm: Realm },
    Remove { name: String, global: bool, realm: Realm },
    /// Reinstall packages and regenerate types/sourcemap
    Reload,
}

/// The arguments of `rokit`.
pub struct RokitArgs {
    pub action: RokitAction,
}

/// A change to the rokit tools.
pub enum RokitAction {
    Add { name: String, global: bool },
    Remove { name: String, global: bool },
}

/// Why a dependency could not be added.
#[derive(Clone, Copy, Debug, PartialEq, Eq, Structural)]
pub enum DependencyError {
    /// A Wally entry without `=`.
    WallyEntryFormat,
    /// A pesde entry without `=`.
    PesdeEntryFormat,
    /// A `wally:` pesde spec without `@`.
    WallySourceFormat,
    /// A pesde spec without `@`.
    PesdeSourceFormat,
}

impl DependencyError {
    pub open spec fn message_text(self) -> Seq<char> {
        match self {
            DependencyError::WallyEntryFormat => "Dependency must be in the form `Name = \"owner/package@version\"`"@,
            DependencyError::PesdeEntryFormat => "Dependency must be in the form `Alias = scope/name@version` or `Alias = wally:owner/package@version`"@,
            DependencyError::WallySourceFormat => "Expected format: wally:owner/package@version"@,
            DependencyError::PesdeSourceFormat => "Expected format: scope/name@version"@,
        }
    }

    /// The message shown for the error.
    pub fn message(&self) -> (r: String)
        ensures
            r@ == self.message_text(),
    {
        match self {
            DependencyError::WallyEntryFormat => copy_text(
                "Dependency must be in the form `Name = \"owner/package@version\"`",
            ),
            DependencyError::PesdeEntryFormat => copy_text(
                "Dependency must be in the form `Alias = scope/name@version` or `Alias = wally:owner/package@version`",
            ),
            DependencyError::WallySourceFormat => copy_text(
                "Expected format: wally:owner/package@version",
            ),
            DependencyError::PesdeSourceFormat => copy_text("Expected format: scope/name@version"),
        }
    }
}

/// `m` with `k` set to `v`, unless `k` is there already.
pub open spec fn insert_if_absent<V>(m: Map<Seq<char>, V>, k: Seq<char>, v: V) -> Map<Seq<char>, V> {
    if m.contains_key(k) {
        m
    } else {
        m.insert(k, v)
    }
}

/// An entry `name = value` of the command line: the name and the value,
/// trimmed, the value without its quotes.
pub open spec fn parsed_entry(entry: Seq<char>) -> Option<(Seq<char>, Seq<char>)> {
    match split_once_char(entry, '=') {
        Some((n, v)) => Some((trim(n), replace_all(trim(v), seq!['"'], Seq::empty()))),
        None => None,
    }
}

/// Splits `name = value` as `parsed_entry` says.
fn parse_entry(entry: &str) -> (r: Option<(String, String)>)
    ensures
        match r {
            Some((n, v)) => parsed_entry(entry@) == Some((n@, v@)),
            None => parsed_entry(entry@) is None,
        },
{
    match split_once_at(entry, '=') {
        Some((n, v)) => {
            let name = trim_text(n.as_str());
            let tv = trim_text(v.as_str());
            proof {
                reveal_strlit("\"");
                reveal_strlit("");
                assert("\""@ =~= seq!['"']);
                assert(""@ =~= Seq::<char>::empty());
            }
            let value = replace_text(tv.as_str(), "\"", "");
            Some((name, value))
        },
        None => None,
    }
}

impl Wally {
    /// The dependencies of one realm.
    pub open spec fn realm_map(self, realm: Realm) -> Map<Seq<char>, Seq<char>> {
        match realm {
            Realm::Shared => self.shared.map(),
            Realm::Server => self.server.map(),
            Realm::Dev => self.dev.map(),
        }
    }
}

/// The dependencies of one realm of an optional Wally section (none without one).
pub open spec fn wally_realm(w: Option<Wally>, realm: Realm) -> Map<Seq<char>, Seq<char>> {
    match w {
        Some(w) => w.realm_map(realm),
        None => Map::empty(),
    }
}

impl Pesde {
    /// The dependencies of one realm: shared are `dependencies`, server are
    /// `peer_dependencies`, dev are `dev_dependencies`.
    pub open spec fn realm_map(self, realm: Realm) -> Map<Seq<char>, PesdeDependencyView> {
        match realm {
            Realm::Shared => self.dependencies.map(),
            Realm::Server => self.peer_dependencies.map(),
            Realm::Dev => self.dev_dependencies.map(),
        }
    }
}

/// The dependencies of one realm of an optional pesde section (none without one).
pub open spec fn pesde_realm(p: Option<Pesde>, realm: Realm) -> Map<Seq<char>, PesdeDependencyView> {
    match p {
        Some(p) => p.realm_map(realm),
        None => Map::empty(),
    }
}

/// The dependency map of a realm.
fn get_realm_map<'a>(wally: &'a mut Wally, realm: &Realm) -> (r: &'a mut DepMap<String>)
    ensures
        *r == match *realm {
            Realm::Shared => old(wally).shared,
            Realm::Server => old(wally).server,
            Realm::Dev => old(wally).dev,
        },
        *final(wally) == match *realm {
            Realm::Shared => Wally { shared: *final(r), ..*old(wally) },
            Realm::Server => Wally { server: *final(r), ..*old(wally) },
            Realm::Dev => Wally { dev: *final(r), ..*old(wally) },
        },
{
    match realm {
        Realm::Shared => &mut wally.shared,
        Realm::Server => &mut wally.server,
        Realm::Dev => &mut wally.dev,
    }
}

/// Adds `Name = "owner/package@version"` to the Wally dependencies of a
/// realm, creating the Wally section if needed; a name that is there already
/// keeps its origin.
pub fn wally_add_dependency(config: &mut Config, entry: &str, realm: &Realm) -> (r: Result<
    (),
    DependencyError,
>)
    requires
        old(config).wf(),
    ensures
        final(config).wf(),
        r is Err <==> parsed_entry(entry@) is None,
        r is Err ==> r == Err::<(), DependencyError>(DependencyError::WallyEntryFormat)
            && *final(config) == *old(config),
        r is Ok ==> {
            let (name, origin) = parsed_entry(entry@).unwrap();
            &&& final(config).template_name == old(config).template_name
            &&& final(config).rokit == old(config).rokit
            &&& final(config).pesde == old(config).pesde
            &&& final(config).wally is Some
            &&& forall|x: Realm|
                #![trigger wally_realm(final(config).wally, x)]
                wally_realm(final(config).wally, x) == if x == *realm {
                    insert_if_absent(wally_realm(old(config).wally, x), name, origin)
                } else {
                    wally_realm(old(config).wally, x)
                }
        },
{
    let (name, origin) = match parse_entry(entry) {
        Some(p) => p,
        None => return Err(DependencyError::WallyEntryFormat),
    };
    let mut wally = match config.wally.take() {
        Some(w) => w,
        None => Wally::default(),
    };
    let map = get_realm_map(&mut wally, realm);
    map.insert_if_absent(name, origin);
    config.wally = Some(wally);
    Ok(())
}

/// Removes a dependency from the Wally dependencies of a realm; nothing
/// changes without a Wally section.
pub fn wally_remove_dependency(config: &mut Config, name: &str, realm: &Realm)
    requires
        old(config).wf(),
    ensures
        final(config).wf(),
        final(config).template_name == old(config).template_name,
        final(config).rokit == old(config).rokit,
        final(config).pesde == old(config).pesde,
        final(config).wally is Some == old(config).wally is Some,
        forall|x: Realm|
            #![trigger wally_realm(final(config).wally, x)]
            wally_realm(final(config).wally, x) == if x == *realm {
                wally_realm(old(config).wally, x).remove(name@)
            } else {
                wally_realm(old(config).wally, x)
            },
{
    let mut wally = match config.wally.take() {
        Some(w) => w,
        None => {
            assert(Map::<Seq<char>, Seq<char>>::empty().remove(name@) =~= Map::empty());
            return ;
        },
    };
    let map = get_realm_map(&mut wally, realm);
    map.remove(name);
    config.wally = Some(wally);
}

/// The pesde dependency that a spec stands for: `wally:owner/package@version`
/// is a Wally package, `scope/name@version` a pesde package; the version is
/// after the last `@`.
pub open spec fn pesde_dep_from_spec(spec: Seq<char>) -> Result<PesdeDependencyView, DependencyError> {
    match strip_prefix(spec, "wally:"@) {
        Some(w) => match rsplit_once_char(w, '@') {
            Some((pkg, version)) => Ok(PesdeDependencyView::WallySource { wally: pkg, version }),
            None => Err(DependencyError::WallySourceFormat),
        },
        None => match rsplit_once_char(spec, '@') {
            Some((pkg, version)) => Ok(PesdeDependencyView::Standard { name: pkg, version }),
            None => Err(DependencyError::PesdeSourceFormat),
        },
    }
}

/// What adding a pesde entry yields: its alias and dependency, or the error.
pub open spec fn pesde_entry(entry: Seq<char>) -> Result<(Seq<char>, PesdeDependencyView), DependencyError> {
    match parsed_entry(entry) {
        None => Err(DependencyError::PesdeEntryFormat),
        Some((alias, spec)) => match pesde_dep_from_spec(spec) {
            Ok(d) => Ok((alias, d)),
            Err(e) => Err(e),
        },
    }
}

/// The dependency that `spec` stands for, as `pesde_dep_from_spec` says.
fn parse_pesde_spec(spec: &str) -> (r: Result<PesdeDependency, DependencyError>)
    ensures
        match r {
            Ok(d) => pesde_dep_from_spec(spec@) == Ok::<PesdeDependencyView, DependencyError>(d@),
            Err(e) => pesde_dep_from_spec(spec@) == Err::<PesdeDependencyView, DependencyError>(e),
        },
{
    match strip_prefix_text(spec, "wally:") {
        Some(wally_spec) => match rsplit_once_at(wally_spec.as_str(), '@') {
            Some((pkg, version)) => Ok(PesdeDependency::WallySource { wally: pkg, version }),
            None => Err(DependencyError::WallySourceFormat),
        },
        None => match rsplit_once_at(spec, '@') {
            Some((pkg, version)) => Ok(PesdeDependency::Standard { name: pkg, version }),
            None => Err(DependencyError::PesdeSourceFormat),
        },
    }
}

/// Adds `Alias = scope/name@version` or `Alias = wally:owner/package@version`
/// to the pesde dependencies of a realm, creating the pesde section if
/// needed; an alias that is there already keeps its dependency.
pub fn pesde_add_dependency(config: &mut Config, entry: &str, realm: &Realm) -> (r: Result<
    (),
    DependencyError,
>)
    requires
        old(config).wf(),
    ensures
        final(config).wf(),
        r is Err <==> pesde_entry(entry@) is Err,
        r matches Err(e) ==> pesde_entry(entry@) == Err::<
            (Seq<char>, PesdeDependencyView),
            DependencyError,
        >(e) && *final(config) == *old(config),
        r is Ok ==> {
            let (alias, dep) = pesde_entry(entry@)->Ok_0;
            &&& final(config).template_name == old(config).template_name
            &&& final(config).rokit == old(config).rokit
            &&& final(config).wally == old(config).wally
            &&& final(config).pesde is Some
            &&& forall|x: Realm|
                #![trigger pesde_realm(final(config).pesde, x)]
                pesde_realm(final(config).pesde, x) == if x == *realm {
                    insert_if_absent(pesde_realm(old(config).pesde, x), alias, dep)
                } else {
                    pesde_realm(old(config).pesde, x)
                }
        },
{
    let (alias, spec) = match parse_entry(entry) {
        Some(p) => p,
        None => return Err(DependencyError::PesdeEntryFormat),
    };
    let dep = match parse_pesde_spec(spec.as_str()) {
        Ok(d) => d,
        Err(e) => return Err(e),
    };
    let mut pesde = match config.pesde.take() {
        Some(p) => p,
        None => Pesde::default(),
    };
    match realm {
        Realm::Shared => {
            pesde.dependencies.insert_if_absent(alias, dep);
        },
        Realm::Server => {
            pesde.peer_dependencies.insert_if_absent(alias, dep);
        },
        Realm::Dev => {
            pesde.dev_dependencies.insert_if_absent(alias, dep);
        },
    }
    config.pesde = Some(pesde);
    Ok(())
}

/// Removes a dependency from the pesde dependencies of a realm; nothing
/// changes without a pesde section.
pub fn pesde_remove_dependency(config: &mut Config, name: &str, realm: &Realm)
    requires
        old(config).wf(),
    ensures
        final(config).wf(),
        final(config).template_name == old(config).template_name,
        final(config).rokit == old(config).rokit,
        final(config).wally == old(config).wally,
        final(config).pesde is Some == old(config).pesde is Some,
        forall|x: Realm|
            #![trigger pesde_realm(final(config).pesde, x)]
            pesde_realm(final(config).pesde, x) == if x == *realm {
                pesde_realm(old(config).pesde, x).remove(name@)
            } else {
                pesde_realm(old(config).pesde, x)
            },
{
    let mut pesde = match config.pesde.take() {
        Some(p) => p,
        None => {
            assert(Map::<Seq<char>, PesdeDependencyView>::empty().remove(name@) =~= Map::empty());
            return ;
        },
    };
    match realm {
        Realm::Shared => pesde.dependencies.remove(name),
        Realm::Server => pesde.peer_dependencies.remove(name),
        Realm::Dev => pesde.dev_dependencies.remove(name),
    }
    config.pesde = Some(pesde);
}

impl Config {
    /// Applies a `wally` action to the configuration: `Add` adds the entry
    /// (see `wally_add_dependency`), `Remove` removes the name (see
    /// `wally_remove_dependency`), `Reload` changes nothing.
    pub fn apply_wally_action(&mut self, action: &ConfigAction) -> (r: Result<(), DependencyError>)
        requires
            old(self).wf(),
        ensures
            final(self).wf(),
            final(self).template_name == old(self).template_name,
            final(self).rokit == old(self).rokit,
            final(self).pesde == old(self).pesde,
            match *action {
                ConfigAction::Add { name, global: _, realm } => {
                    &&& (r is Err <==> parsed_entry(name@) is None)
                    &&& (r is Err ==> r == Err::<(), DependencyError>(
                        DependencyError::WallyEntryFormat,
                    ) && *final(self) == *old(self))
                    &&& (r is Ok ==> final(self).wally is Some && forall|x: Realm|
                        #![trigger wally_realm(final(self).wally, x)]
                        wally_realm(final(self).wally, x) == if x == realm {
                            insert_if_absent(
                                wally_realm(old(self).wally, x),
                                parsed_entry(name@).unwrap().0,
                                parsed_entry(name@).unwrap().1,
                            )
                        } else {
                            wally_realm(old(self).wally, x)
                        })
                },
                ConfigAction::Remove { name, global: _, realm } => {
                    &&& r is Ok
                    &&& final(self).wally is Some == old(self).wally is Some
                    &&& forall|x: Realm|
                        #![trigger wally_realm(final(self).wally, x)]
                        wally_realm(final(self).wally, x) == if x == realm {
                            wally_realm(old(self).wally, x).remove(name@)
                        } else {
                            wally_realm(old(self).wally, x)
                        }
                },
                ConfigAction::Reload => r is Ok && *final(self) == *old(self),
            },
    {
        match action {
            ConfigAction::Add { name, global: _, realm } => wally_add_dependency(
                self,
                name.as_str(),
                realm,
            ),
            ConfigAction::Remove { name, global: _, realm } => {
                wally_remove_dependency(self, name.as_str(), realm);
                Ok(())
            },
            ConfigAction::Reload => Ok(()),
        }
    }

    /// Applies a `pesde` action to the configuration: `Add` adds the entry
    /// (see `pesde_add_dependency`), `Remove` removes the alias (see
    /// `pesde_remove_dependency`), `Reload` changes nothing.
    pub fn apply_pesde_action(&mut self, action: &ConfigAction) -> (r: Result<(), DependencyError>)
        requires
            old(self).wf(),
        ensures
            final(self).wf(),
            final(self).template_name == old(self).template_name,
            final(self).rokit == old(self).rokit,
            final(self).wally == old(self).wally,
            match *action {
                ConfigAction::Add { name, global: _, realm } => {
                    &&& (r is Err <==> pesde_entry(name@) is Err)
                    &&& (r matches Err(e) ==> pesde_entry(name@) == Err::<
                        (Seq<char>, PesdeDependencyView),
                        DependencyError,
                    >(e) && *final(self) == *old(self))
                    &&& (r is Ok ==> final(self).pesde is Some && forall|x: Realm|
                        #![trigger pesde_realm(final(self).pesde, x)]
                        pesde_realm(final(self).pesde, x) == if x == realm {
                            insert_if_absent(
                                pesde_realm(old(self).pesde, x),
                                pesde_entry(name@)->Ok_0.0,
                                pesde_entry(name@)->Ok_0.1,
                            )
                        } else {
                            pesde_realm(old(self).pesde, x)
                        })
                },
                ConfigAction::Remove { name, global: _, realm } => {
                    &&& r is Ok
                    &&& final(self).pesde is Some == old(self).pesde is Some
                    &&& forall|x: Realm|
                        #![trigger pesde_realm(final(self).pesde, x)]
                        pesde_realm(final(self).pesde, x) == if x == realm {
                            pesde_realm(old(self).pesde, x).remove(name@)
                        } else {
                            pesde_realm(old(self).pesde, x)
                        }
                },
                ConfigAction::Reload => r is Ok && *final(self) == *old(self),
            },
    {
        match action {
            ConfigAction::Add { name, global: _, realm } => pesde_add_dependency(
                self,
                name.as_str(),
                realm,
            ),
            ConfigAction::Remove { name, global: _, realm } => {
                pesde_remove_dependency(self, name.as_str(), realm);
                Ok(())
            },
            ConfigAction::Reload => Ok(()),
        }
    }
}

impl Rokit {
    /// Applies a `rokit` action: `Add` adds the tool of that spec (see
    /// `add_tool`), `Remove` removes the tool of that name.
    pub fn apply_action(&mut self, action: &RokitAction)
        requires
            old(self).wf(),
        ensures
            final(self).wf(),
            match *action {
                RokitAction::Add { name, global: _ } => final(self).tools.map() == insert_if_absent(
                    old(self).tools.map(),
                    short_name_of(name@),
                    name@,
                ),
                RokitAction::Remove { name, global: _ } => final(self).tools.map()
                    == old(self).tools.map().remove(name@),
            },
    {
        match action {
            RokitAction::Add { name, global: _ } => self.add_tool(name.as_str()),
            RokitAction::Remove { name, global: _ } => self.remove_tool(name.as_str()),
        }
    }
}

} // verus!
