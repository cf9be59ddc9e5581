//! The configuration of a repository: its packages, profiles and variables.

use vstd::prelude::*;
use crate::codec::{parse_table, toml_document, toml_text, write_table};
use crate::context::Context;
use crate::error::{DotrError, ErrorView};
use crate::fields::{
    flag_of, map_fault, map_of, read_flag, read_records, read_text_map, records_of, records_view,
    section, text_map_table, text_table, write_records,
};
use crate::package::{package_fault, package_of, package_table, put_if, Package, PackageView};
use crate::profile::{profile_fault, profile_of, profile_table, Profile, ProfileView};
use crate::resolve::{base_names, resolution, resolve, selection_order};
use crate::value::{
    lemma_text_map_empty, strings_view, text_map_view, StrMap, Table, TomlValue, TomlView,
};

verus! {

/// Name of the configuration file in the repository.
pub const CONFIG_FILE: &'static str = "config.toml";

/// Name of the file that holds the user's own variables. It is not checked
/// in.
pub const USER_VARIABLES_FILE: &'static str = ".uservariables.toml";

/// Directory of the repository that holds the stored copies.
pub const STORE_DIR: &'static str = "dotfiles";

/// What `init` writes into `.gitignore`.
pub const GITIGNORE_CONTENT: &'static str = ".uservariables.toml\n";

/// Name of the variable that names the profile where the command line names
/// none.
pub const PROFILE_VARIABLE: &'static str = "DOTR_PROFILE";

/// The configuration of a repository.
#[derive(Debug)]
pub struct Config {
    /// Whether the banner is printed.
    pub banner: bool,
    /// The packages, by name.
    pub packages: StrMap<Package>,
    /// The profiles, by name.
    pub profiles: StrMap<Profile>,
    pub variables: Table,
    /// Messages to ask for variables with, by variable name.
    pub prompts: StrMap<String>,
}

/// The contents of the packages of a map.
pub open spec fn packages_view(m: &StrMap<Package>) -> Map<Seq<char>, PackageView> {
    m@.map_values(|p: Package| p@)
}

/// The contents of the profiles of a map.
pub open spec fn profiles_view(m: &StrMap<Profile>) -> Map<Seq<char>, ProfileView> {
    m@.map_values(|p: Profile| p@)
}

/// Whether every entry of the `packages` section describes a package.
pub open spec fn packages_ok(t: Map<Seq<char>, TomlView>) -> bool {
    forall|k: Seq<char>| #[trigger]
        section(t, "packages"@).dom().contains(k) ==> section(t, "packages"@)[k] is Table
            && package_fault(section(t, "packages"@)[k]->Table_0) is None
}

/// Whether every entry of the `profiles` section describes a profile.
pub open spec fn profiles_ok(t: Map<Seq<char>, TomlView>) -> bool {
    forall|k: Seq<char>| #[trigger]
        section(t, "profiles"@).dom().contains(k) ==> section(t, "profiles"@)[k] is Table
            && profile_fault(k, section(t, "profiles"@)[k]->Table_0) is None
}

/// What is wrong with the prompts of the configuration.
pub open spec fn prompts_fault(t: Map<Seq<char>, TomlView>) -> Option<Seq<char>> {
    map_fault(
        t,
        "prompts"@,
        "The 'prompts' field must be a table"@,
        "Prompt message must be a string"@,
    )
}

/// Whether a table describes a configuration.
pub open spec fn config_ok(t: Map<Seq<char>, TomlView>) -> bool {
    packages_ok(t) && profiles_ok(t) && prompts_fault(t) is None
}

/// The packages that a faultless `packages` section describes, each under
/// its key, which is its name.
pub open spec fn packages_of(t: Map<Seq<char>, TomlView>) -> Map<Seq<char>, PackageView> {
    Map::new(
        |k: Seq<char>| section(t, "packages"@).dom().contains(k),
        |k: Seq<char>| package_of(k, section(t, "packages"@)[k]->Table_0),
    )
}

/// The profiles that a faultless `profiles` section describes.
pub open spec fn profiles_of(t: Map<Seq<char>, TomlView>) -> Map<Seq<char>, ProfileView> {
    Map::new(
        |k: Seq<char>| section(t, "profiles"@).dom().contains(k),
        |k: Seq<char>| profile_of(k, section(t, "profiles"@)[k]->Table_0),
    )
}

/// The tables that store the packages, each under its name.
pub open spec fn package_tables(m: Map<Seq<char>, PackageView>) -> Map<Seq<char>, TomlView> {
    m.map_values(|p: PackageView| TomlView::Table(package_table(p)))
}

/// The tables that store the profiles, each under its name.
pub open spec fn profile_tables(m: Map<Seq<char>, ProfileView>) -> Map<Seq<char>, TomlView> {
    m.map_values(|p: ProfileView| TomlView::Table(profile_table(p)))
}

/// The name of the profile in effect: the one that the command line names,
/// else the one that the variable `DOTR_PROFILE` names where it holds a
/// string.
pub open spec fn profile_choice(given: Option<Seq<char>>, vars: Map<Seq<char>, TomlView>) -> Option<
    Seq<char>,
> {
    match given {
        Some(name) => Some(name),
        None => if vars.dom().contains(PROFILE_VARIABLE@) && vars[PROFILE_VARIABLE@] is String {
            Some(vars[PROFILE_VARIABLE@]->String_0)
        } else {
            None
        },
    }
}

/// The view of an optional name.
pub open spec fn name_view(name: Option<String>) -> Option<Seq<char>> {
    match name {
        Some(s) => Some(s@),
        None => None,
    }
}

impl Config {
    /// The table that stores the configuration: `banner` always, the other
    /// fields where they are not empty.
    pub open spec fn spec_table(&self) -> Map<Seq<char>, TomlView> {
        let t0 = Map::<Seq<char>, TomlView>::empty().insert(
            "banner"@,
            TomlView::Boolean(self.banner),
        );
        let t1 = put_if(
            t0,
            self.variables@ != Map::<Seq<char>, TomlView>::empty(),
            "variables"@,
            TomlView::Table(self.variables@),
        );
        let t2 = put_if(
            t1,
            self.packages@ != Map::<Seq<char>, Package>::empty(),
            "packages"@,
            TomlView::Table(package_tables(packages_view(&self.packages))),
        );
        let t3 = put_if(
            t2,
            self.profiles@ != Map::<Seq<char>, Profile>::empty(),
            "profiles"@,
            TomlView::Table(profile_tables(profiles_view(&self.profiles))),
        );
        put_if(
            t3,
            text_map_view(&self.prompts) != Map::<Seq<char>, Seq<char>>::empty(),
            "prompts"@,
            TomlView::Table(text_table(text_map_view(&self.prompts))),
        )
    }

    /// A configuration that shows the banner and holds nothing else.
    pub fn new() -> (r: Self)
        ensures
            r.banner,
            r.packages.entries() == Seq::<(Seq<char>, Package)>::empty(),
            r.packages@ == Map::<Seq<char>, Package>::empty(),
            r.profiles@ == Map::<Seq<char>, Profile>::empty(),
            r.variables@ == Map::<Seq<char>, TomlView>::empty(),
            r.prompts@ == Map::<Seq<char>, String>::empty(),
    {
        Config {
            banner: true,
            packages: StrMap::new(),
            profiles: StrMap::new(),
            variables: Table::new(),
            prompts: StrMap::new(),
        }
    }

    /// Reads the packages of the `packages` section.
    fn read_packages(table: &Table) -> (r: Result<StrMap<Package>, DotrError>)
        ensures
            match r {
                Ok(m) => packages_ok(table@) && packages_view(&m) == packages_of(table@),
                Err(e) => !packages_ok(table@) && e@ is ConfigParseError,
            },
    {
        let r = read_records::<Package>(table, "packages", "Failed to parse package");
        proof {
            if r is Ok {
                assert(packages_view(&r->Ok_0) =~= records_view(&r->Ok_0));
                assert(packages_of(table@) =~= records_of::<Package>(section(table@, "packages"@)));
            }
        }
        r
    }

    /// Reads the profiles of the `profiles` section.
    fn read_profiles(table: &Table) -> (r: Result<StrMap<Profile>, DotrError>)
        ensures
            match r {
                Ok(m) => profiles_ok(table@) && profiles_view(&m) == profiles_of(table@),
                Err(e) => !profiles_ok(table@) && e@ is ConfigParseError,
            },
    {
        let r = read_records::<Profile>(table, "profiles", "Failed to parse profile");
        proof {
            if r is Ok {
                assert(profiles_view(&r->Ok_0) =~= records_view(&r->Ok_0));
                assert(profiles_of(table@) =~= records_of::<Profile>(section(table@, "profiles"@)));
            }
        }
        r
    }

    /// Reads a configuration from the table of its file. Sections that the
    /// table lacks are empty; the banner is off unless the table sets it.
    /// A package or a profile that is not well formed is a parse error.
    pub fn from_table(table: &Table) -> (r: Result<Config, DotrError>)
        ensures
            match r {
                Ok(c) => {
                    &&& config_ok(table@)
                    &&& c.banner == flag_of(table@, "banner"@, false)
                    &&& c.variables@ == section(table@, "variables"@)
                    &&& packages_view(&c.packages) == packages_of(table@)
                    &&& profiles_view(&c.profiles) == profiles_of(table@)
                    &&& text_map_view(&c.prompts) == map_of(table@, "prompts"@)
                },
                Err(e) => !config_ok(table@) && e@ is ConfigParseError,
            },
    {
        let packages = match Config::read_packages(table) {
            Ok(m) => m,
            Err(e) => {
                return Err(e);
            },
        };
        let profiles = match Config::read_profiles(table) {
            Ok(m) => m,
            Err(e) => {
                return Err(e);
            },
        };
        let prompts = match read_text_map(
            table,
            "prompts",
            "The 'prompts' field must be a table",
            "Prompt message must be a string",
        ) {
            Ok(m) => m,
            Err(e) => {
                return Err(e);
            },
        };
        let variables = match table.get("variables") {
            Some(v) => match v.as_table() {
                Some(t) => t.clone(),
                None => Table::new(),
            },
            None => Table::new(),
        };
        let banner = read_flag(table, "banner", false);
        Ok(Config { banner, packages, profiles, variables, prompts })
    }

    /// The tables of the packages, each under its name.
    fn packages_table(&self) -> (r: Table)
        ensures
            r@ == package_tables(packages_view(&self.packages)),
    {
        let r = write_records::<Package>(&self.packages);
        proof {
            assert(packages_view(&self.packages) =~= records_view(&self.packages));
            assert(r@ =~= package_tables(packages_view(&self.packages)));
        }
        r
    }

    /// The tables of the profiles, each under its name.
    fn profiles_table(&self) -> (r: Table)
        ensures
            r@ == profile_tables(profiles_view(&self.profiles)),
    {
        let r = write_records::<Profile>(&self.profiles);
        proof {
            assert(profiles_view(&self.profiles) =~= records_view(&self.profiles));
            assert(r@ =~= profile_tables(profiles_view(&self.profiles)));
        }
        r
    }

    /// The table that stores the configuration.
    pub fn to_table(&self) -> (r: Table)
        ensures
            r@ == self.spec_table(),
    {
        proof {
            lemma_text_map_empty(&self.prompts);
        }
        let mut t = Table::new();
        t.insert("banner".to_owned(), TomlValue::Boolean(self.banner));
        if !self.variables.is_empty() {
            t.insert("variables".to_owned(), TomlValue::Table(self.variables.clone()));
        }
        if !self.packages.is_empty() {
            t.insert("packages".to_owned(), TomlValue::Table(self.packages_table()));
        }
        if !self.profiles.is_empty() {
            t.insert("profiles".to_owned(), TomlValue::Table(self.profiles_table()));
        }
        if !self.prompts.is_empty() {
            t.insert("prompts".to_owned(), TomlValue::Table(text_map_table(&self.prompts)));
        }
        t
    }

    /// Reads a configuration from the text of its file.
    pub fn from_toml(text: &str) -> (r: Result<Config, DotrError>)
        ensures
            match r {
                Ok(c) => toml_document(text@) is Some && config_ok(toml_document(text@)->0)
                    && packages_view(&c.packages) == packages_of(toml_document(text@)->0)
                    && profiles_view(&c.profiles) == profiles_of(toml_document(text@)->0)
                    && c.variables@ == section(toml_document(text@)->0, "variables"@) && c.banner
                    == flag_of(toml_document(text@)->0, "banner"@, false) && text_map_view(
                    &c.prompts,
                ) == map_of(toml_document(text@)->0, "prompts"@),
                Err(e) => e@ is ConfigParseError && (toml_document(text@) is None || !config_ok(
                    toml_document(text@)->0,
                )),
            },
    {
        match parse_table(text) {
            Ok(table) => Config::from_table(&table),
            Err(e) => Err(e),
        }
    }

    /// Reads the configuration from what the caller found of its file: a
    /// repository without the file (`None`) has no configuration.
    pub fn load(content: Option<&str>) -> (r: Result<Config, DotrError>)
        ensures
            match content {
                None => r is Err && r->Err_0@ == ErrorView::ConfigNotFound,
                Some(text) => match r {
                    Ok(c) => toml_document(text@) is Some && config_ok(toml_document(text@)->0)
                        && packages_view(&c.packages) == packages_of(toml_document(text@)->0)
                        && profiles_view(&c.profiles) == profiles_of(toml_document(text@)->0)
                        && c.variables@ == section(toml_document(text@)->0, "variables"@)
                        && c.banner == flag_of(toml_document(text@)->0, "banner"@, false)
                        && text_map_view(&c.prompts) == map_of(
                        toml_document(text@)->0,
                        "prompts"@,
                    ),
                    Err(e) => e@ is ConfigParseError && (toml_document(text@) is None || !config_ok(
                        toml_document(text@)->0,
                    )),
                },
            },
    {
        match content {
            None => Err(DotrError::ConfigNotFound),
            Some(text) => Config::from_toml(text),
        }
    }

    /// The text of the configuration file.
    pub fn to_toml(&self) -> (r: Result<String, DotrError>)
        ensures
            match r {
                Ok(s) => toml_text(self.spec_table()) == Some(s@),
                Err(e) => toml_text(self.spec_table()) is None && e@ is ConfigParseError,
            },
    {
        let table = self.to_table();
        write_table(&table)
    }

    /// The packages that an operation works on: those named explicitly,
    /// else those of the active profile, else all that are not marked
    /// `skip`; and their dependencies, one level deep.
    pub fn filter_packages(&self, ctx: &Context, names: &Option<Vec<String>>) -> (r: Result<
        StrMap<Package>,
        DotrError,
    >)
        ensures
            match r {
                Ok(selected) => resolution(
                    self.packages@,
                    base_names(&self.packages, option_names(*names), profile_names(ctx.profile)),
                ) == Ok::<Set<Seq<char>>, ErrorView>(selected@.dom()) && selected.key_seq()
                    == selection_order(
                    self.packages@,
                    base_names(&self.packages, option_names(*names), profile_names(ctx.profile)),
                ) && forall|k: Seq<char>| #[trigger]
                    selected@.dom().contains(k) ==> self.packages@.dom().contains(k)
                        && selected@[k]@ == self.packages@[k]@,
                Err(e) => resolution(
                    self.packages@,
                    base_names(&self.packages, option_names(*names), profile_names(ctx.profile)),
                ) == Err::<Set<Seq<char>>, ErrorView>(e@),
            },
    {
        let explicit: Option<&Vec<String>> = match names {
            Some(v) => Some(v),
            None => None,
        };
        let of_profile: Option<&Vec<String>> = match &ctx.profile {
            Some(p) => Some(&p.dependencies),
            None => None,
        };
        resolve(&self.packages, explicit, of_profile)
    }

    /// The name of the profile in effect and the profile itself, where it
    /// is configured.
    pub fn get_profile_details(&self, profile: &Option<String>, vars: &Table) -> (r: (
        Option<String>,
        Option<Profile>,
    ))
        ensures
            name_view(r.0) == profile_choice(name_view(*profile), vars@),
            match r.1 {
                Some(p) => r.0 is Some && self.profiles@.dom().contains(r.0->0@) && p@
                    == self.profiles@[r.0->0@]@,
                None => r.0 is None || !self.profiles@.dom().contains(r.0->0@),
            },
    {
        let name: Option<String> = match profile {
            Some(n) => Some(n.clone()),
            None => match vars.get(PROFILE_VARIABLE) {
                Some(v) => match v.as_str() {
                    Some(s) => Some(s.to_owned()),
                    None => None,
                },
                None => None,
            },
        };
        let found: Option<Profile> = match &name {
            Some(n) => match self.profiles.get(n.as_str()) {
                Some(p) => Some(p.clone()),
                None => None,
            },
            None => None,
        };
        (name, found)
    }
}

/// The view of an optional list of names.
pub open spec fn option_names(names: Option<Vec<String>>) -> Option<Seq<Seq<char>>> {
    match names {
        Some(v) => Some(strings_view(v@)),
        None => None,
    }
}

/// The packages of a profile, if there is one.
pub open spec fn profile_names(profile: Option<Profile>) -> Option<Seq<Seq<char>>> {
    match profile {
        Some(p) => Some(strings_view(p.dependencies@)),
        None => None,
    }
}

impl Default for Config {
    fn default() -> (r: Self)
        ensures
            r.banner,
            r.packages.entries() == Seq::<(Seq<char>, Package)>::empty(),
            r.packages@ == Map::<Seq<char>, Package>::empty(),
            r.profiles@ == Map::<Seq<char>, Profile>::empty(),
            r.variables@ == Map::<Seq<char>, TomlView>::empty(),
            r.prompts@ == Map::<Seq<char>, String>::empty(),
    {
        Config::new()
    }
}

/// The package as it is stored when imported under a profile: left out of
/// the default selection, with its destination as the target of the
/// profile.
pub open spec fn under_profile(p: PackageView, profile: Seq<char>) -> PackageView {
    PackageView { skip: true, targets: p.targets.insert(profile, p.dest), ..p }
}

/// The profile with one more package; a new profile where there was none.
pub open spec fn with_dependency(
    profiles: Map<Seq<char>, ProfileView>,
    profile: Seq<char>,
    package: Seq<char>,
) -> ProfileView {
    if profiles.dom().contains(profile) {
        ProfileView {
            dependencies: profiles[profile].dependencies.push(package),
            ..profiles[profile]
        }
    } else {
        ProfileView {
            name: profile,
            variables: Map::empty(),
            dependencies: seq![package],
            prompts: Map::empty(),
        }
    }
}

impl Config {
    /// Registers an imported package under its name. Imported under a
    /// profile, the package is left out of the default selection, gets its
    /// destination as the target of that profile, and is added to the
    /// packages of the profile, which is created where it is missing.
    pub fn import_package(&mut self, package: Package, profile_name: &Option<String>)
        ensures
            final(self).banner == old(self).banner,
            final(self).variables == old(self).variables,
            final(self).prompts == old(self).prompts,
            match *profile_name {
                None => packages_view(&final(self).packages) == packages_view(
                    &old(self).packages,
                ).insert(package.name@, package@) && final(self).profiles == old(self).profiles,
                Some(name) => packages_view(&final(self).packages) == packages_view(
                    &old(self).packages,
                ).insert(package.name@, under_profile(package@, name@)) && profiles_view(
                    &final(self).profiles,
                ) == profiles_view(&old(self).profiles).insert(
                    name@,
                    with_dependency(profiles_view(&old(self).profiles), name@, package.name@),
                ),
            },
    {
        let mut package = package;
        let ghost given = package@;
        let ghost old_packages = packages_view(&self.packages);
        let ghost old_profiles = profiles_view(&self.profiles);
        match profile_name {
            Some(name) => {
                let mut profile = match self.profiles.remove(name.as_str()) {
                    Some(p) => p,
                    None => Profile::new(name.as_str()),
                };
                let ghost before = profile@;
                let ghost deps = profile.dependencies@;
                profile.dependencies.push(package.name.clone());
                proof {
                    assert(strings_view(profile.dependencies@) =~= strings_view(deps).push(
                        package.name@,
                    ));
                    assert(profile@ == with_dependency(old_profiles, name@, package.name@));
                }
                self.profiles.insert(name.clone(), profile);
                package.skip = true;
                let dest = package.dest.clone();
                let ghost targets = package.targets@;
                package.targets.insert(name.clone(), dest);
                proof {
                    assert(text_map_view(&package.targets) =~= given.targets.insert(name@, given.dest));
                    assert(package@ == under_profile(given, name@));
                    assert(profiles_view(&self.profiles) =~= old_profiles.insert(
                        name@,
                        with_dependency(old_profiles, name@, given.name),
                    ));
                }
            },
            None => {},
        }
        let ghost stored = package@;
        self.packages.insert(package.name.clone(), package);
        proof {
            assert(packages_view(&self.packages) =~= old_packages.insert(given.name, stored));
        }
    }
}

} // verus!
