//! Profiles: named bundles of packages with their own variables.

use vstd::prelude::*;
use crate::error::{DotrError, ErrorView};
use crate::fields::{
    Record,
    either, list_fault, map_fault, map_of, read_list, read_table, read_text_map, strings_value,
    table_fault, table_of, text_items, text_map_table, text_table,
};
use crate::package::{list_or_empty, put_if};
use crate::text::concat3;
use crate::value::{
    clone_strings, clone_text_map, lemma_text_map_empty, strings_view, text_map_view, StrMap,
    Table, TomlValue, TomlView,
};

verus! {

/// A profile: the packages that are always included while it is active, and
/// the variables that it sets.
#[derive(Debug, PartialEq)]
pub struct Profile {
    pub name: String,
    pub variables: Table,
    /// Names of the packages that the profile includes.
    pub dependencies: Vec<String>,
    /// Messages to ask for variables with, by variable name.
    pub prompts: StrMap<String>,
}

/// The content of a profile.
pub ghost struct ProfileView {
    pub name: Seq<char>,
    pub variables: Map<Seq<char>, TomlView>,
    pub dependencies: Seq<Seq<char>>,
    pub prompts: Map<Seq<char>, Seq<char>>,
}

impl View for Profile {
    type V = ProfileView;

    open spec fn view(&self) -> ProfileView {
        ProfileView {
            name: self.name@,
            variables: self.variables@,
            dependencies: strings_view(self.dependencies@),
            prompts: text_map_view(&self.prompts),
        }
    }
}

impl Clone for Profile {
    fn clone(&self) -> (r: Self)
        ensures
            r@ == self@,
    {
        Profile {
            name: self.name.clone(),
            variables: self.variables.clone(),
            dependencies: clone_strings(&self.dependencies),
            prompts: clone_text_map(&self.prompts),
        }
    }
}

/// The message that blames a field of the named profile.
pub open spec fn profile_message(name: Seq<char>, what: Seq<char>) -> Seq<char> {
    "Profile '"@ + name + what
}

/// The first thing wrong with the table of a profile, as the message that
/// reports it.
pub open spec fn profile_fault(name: Seq<char>, t: Map<Seq<char>, TomlView>) -> Option<Seq<char>> {
    either(
        table_fault(t, "variables"@, profile_message(name, "' variables must be a table"@)),
        either(
            list_fault(
                t,
                "dependencies"@,
                profile_message(name, "' dependencies must be an array"@),
                profile_message(name, "' dependency must be a string"@),
            ),
            map_fault(
                t,
                "prompts"@,
                profile_message(name, "' prompts must be a table"@),
                profile_message(name, "' prompt message must be a string"@),
            ),
        ),
    )
}

/// The profile that a faultless table describes.
pub open spec fn profile_of(name: Seq<char>, t: Map<Seq<char>, TomlView>) -> ProfileView {
    ProfileView {
        name,
        variables: table_of(t, "variables"@),
        dependencies: list_or_empty(t, "dependencies"@),
        prompts: map_of(t, "prompts"@),
    }
}

/// The table that stores a profile: `variables` and `dependencies` always,
/// `prompts` where there are any.
pub open spec fn profile_table(p: ProfileView) -> Map<Seq<char>, TomlView> {
    put_if(
        Map::<Seq<char>, TomlView>::empty().insert("variables"@, TomlView::Table(p.variables)).insert(
            "dependencies"@,
            TomlView::Array(text_items(p.dependencies)),
        ),
        p.prompts != Map::<Seq<char>, Seq<char>>::empty(),
        "prompts"@,
        TomlView::Table(text_table(p.prompts)),
    )
}

impl Profile {
    /// A profile without variables, packages or prompts.
    pub fn new(name: &str) -> (r: Self)
        ensures
            r@ == (ProfileView {
                name: name@,
                variables: Map::empty(),
                dependencies: Seq::empty(),
                prompts: Map::empty(),
            }),
    {
        let r = Profile {
            name: name.to_owned(),
            variables: Table::new(),
            dependencies: Vec::new(),
            prompts: StrMap::new(),
        };
        proof {
            assert(strings_view(r.dependencies@) =~= Seq::<Seq<char>>::empty());
            lemma_text_map_empty(&r.prompts);
        }
        r
    }

    /// Reads a profile from its table in the configuration. Fields that the
    /// table lacks are empty. The first fault found, in the order of
    /// `profile_fault`, is reported.
    pub fn from_table(name: &str, table: &Table) -> (r: Result<Profile, DotrError>)
        ensures
            match r {
                Ok(p) => profile_fault(name@, table@) is None && p@ == profile_of(name@, table@),
                Err(e) => profile_fault(name@, table@) is Some && e@ == ErrorView::ConfigParseError(
                    profile_fault(name@, table@)->0,
                ),
            },
    {
        let not_table = concat3("Profile '", name, "' variables must be a table");
        let variables = match read_table(table, "variables", not_table.as_str()) {
            Ok(v) => v,
            Err(e) => {
                return Err(e);
            },
        };
        let not_list = concat3("Profile '", name, "' dependencies must be an array");
        let not_text = concat3("Profile '", name, "' dependency must be a string");
        let dependencies = match read_list(
            table,
            "dependencies",
            not_list.as_str(),
            not_text.as_str(),
        ) {
            Ok(Some(v)) => v,
            Ok(None) => {
                let v: Vec<String> = Vec::new();
                assert(strings_view(v@) =~= Seq::<Seq<char>>::empty());
                v
            },
            Err(e) => {
                return Err(e);
            },
        };
        let no_prompts = concat3("Profile '", name, "' prompts must be a table");
        let no_message = concat3("Profile '", name, "' prompt message must be a string");
        let prompts = match read_text_map(
            table,
            "prompts",
            no_prompts.as_str(),
            no_message.as_str(),
        ) {
            Ok(v) => v,
            Err(e) => {
                return Err(e);
            },
        };
        Ok(Profile { name: name.to_owned(), variables, dependencies, prompts })
    }

    /// The table that stores the profile in the configuration.
    pub fn to_table(&self) -> (r: Table)
        ensures
            r@ == profile_table(self@),
    {
        proof {
            lemma_text_map_empty(&self.prompts);
        }
        let mut t = Table::new();
        t.insert("variables".to_owned(), TomlValue::Table(self.variables.clone()));
        t.insert("dependencies".to_owned(), strings_value(&self.dependencies));
        if !self.prompts.is_empty() {
            t.insert("prompts".to_owned(), TomlValue::Table(text_map_table(&self.prompts)));
        }
        t
    }
}

/// A stored profile reads back as it was: the table that stores a profile
/// has no fault, and describes that profile under its name.
pub proof fn lemma_profile_round_trip(p: ProfileView)
    ensures
        profile_fault(p.name, profile_table(p)) is None,
        profile_of(p.name, profile_table(p)) == p,
{
    reveal_strlit("variables");
    reveal_strlit("dependencies");
    reveal_strlit("prompts");
    assert("variables"@.len() == 9 && "dependencies"@.len() == 12 && "prompts"@.len() == 7);
    let t = profile_table(p);
    let back = profile_of(p.name, t);
    assert(t["variables"@] == TomlView::Table(p.variables));
    assert(t["dependencies"@] == TomlView::Array(text_items(p.dependencies)));
    assert(crate::fields::strings_of(text_items(p.dependencies)) =~= p.dependencies);
    assert(t.dom().contains("prompts"@) == (p.prompts != Map::<Seq<char>, Seq<char>>::empty()));
    if p.prompts != Map::<Seq<char>, Seq<char>>::empty() {
        assert(t["prompts"@] == TomlView::Table(text_table(p.prompts)));
        assert(crate::fields::texts_of(text_table(p.prompts)) =~= p.prompts);
    }
    assert(back.dependencies == p.dependencies);
    assert(back.prompts == p.prompts);
}

impl Record for Profile {
    open spec fn fault(name: Seq<char>, t: Map<Seq<char>, TomlView>) -> Option<Seq<char>> {
        profile_fault(name, t)
    }

    open spec fn described(name: Seq<char>, t: Map<Seq<char>, TomlView>) -> ProfileView {
        profile_of(name, t)
    }

    open spec fn stored(v: ProfileView) -> Map<Seq<char>, TomlView> {
        profile_table(v)
    }

    fn read(name: &str, t: &Table) -> (r: Result<Self, DotrError>) {
        Profile::from_table(name, t)
    }

    fn write(&self) -> (r: Table) {
        self.to_table()
    }
}

} // verus!
