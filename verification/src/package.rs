//! Packages: a stored source, its live destination and how to deploy it.

use vstd::prelude::*;
use crate::error::{DotrError, ErrorView};
use crate::fields::{
    Record,
    either, flag_of, list_fault, list_of, map_fault, map_of, option_strings_view, read_flag,
    read_list, read_table, read_text, read_text_map, strings_value, table_fault, table_of,
    text_fault, text_items, text_map_table, text_table, text_value,
};
use crate::context::{lemma_merged4, merged, profile_layer, Context};
use crate::text::{
    append_underscored, chars_of, concat3, count_leading, count_trailing, last_index_of,
    leading_count, rfind_char, trailing_count, underscored,
};
use crate::text::{concat2, starts_with_char};
use crate::utils::{
    normalize_home_path, normalized_home_path, resolve_path, resolved_path, BACKUP_EXT,
};
use crate::value::{
    clone_strings, clone_text_map, lemma_text_map_empty, strings_view, text_map_view, StrMap,
    Table, TomlValue, TomlView,
};

pub use crate::template::{compile_string, is_templated_str};
use crate::template::{compiled, renderable, NOT_RENDERABLE};

verus! {

/// A dotfile package: where its stored copy lies, where it is deployed and
/// what it depends on.
#[derive(Debug, PartialEq)]
pub struct Package {
    pub name: String,
    /// Path of the stored copy, relative to the repository.
    pub src: String,
    /// Live path, absolute or starting with `~`.
    pub dest: String,
    pub dependencies: Option<Vec<String>>,
    pub variables: Table,
    pub pre_actions: Vec<String>,
    pub post_actions: Vec<String>,
    /// Destination overrides, by profile name.
    pub targets: StrMap<String>,
    /// Left out of the default selection.
    pub skip: bool,
    /// Glob patterns of relative paths that deploy and update pass over.
    pub ignore: Vec<String>,
    /// Messages to ask for variables with, by variable name.
    pub prompts: StrMap<String>,
}

/// The content of a package.
pub ghost struct PackageView {
    pub name: Seq<char>,
    pub src: Seq<char>,
    pub dest: Seq<char>,
    pub dependencies: Option<Seq<Seq<char>>>,
    pub variables: Map<Seq<char>, TomlView>,
    pub pre_actions: Seq<Seq<char>>,
    pub post_actions: Seq<Seq<char>>,
    pub targets: Map<Seq<char>, Seq<char>>,
    pub skip: bool,
    pub ignore: Seq<Seq<char>>,
    pub prompts: Map<Seq<char>, Seq<char>>,
}

impl View for Package {
    type V = PackageView;

    open spec fn view(&self) -> PackageView {
        PackageView {
            name: self.name@,
            src: self.src@,
            dest: self.dest@,
            dependencies: option_strings_view(self.dependencies),
            variables: self.variables@,
            pre_actions: strings_view(self.pre_actions@),
            post_actions: strings_view(self.post_actions@),
            targets: text_map_view(&self.targets),
            skip: self.skip,
            ignore: strings_view(self.ignore@),
            prompts: text_map_view(&self.prompts),
        }
    }
}

impl Clone for Package {
    fn clone(&self) -> (r: Self)
        ensures
            r@ == self@,
    {
        let dependencies = match &self.dependencies {
            Some(d) => Some(clone_strings(d)),
            None => None,
        };
        Package {
            name: self.name.clone(),
            src: self.src.clone(),
            dest: self.dest.clone(),
            dependencies,
            variables: self.variables.clone(),
            pre_actions: clone_strings(&self.pre_actions),
            post_actions: clone_strings(&self.post_actions),
            targets: clone_text_map(&self.targets),
            skip: self.skip,
            ignore: clone_strings(&self.ignore),
            prompts: clone_text_map(&self.prompts),
        }
    }
}

/// The list under `key`; empty where the key is missing.
pub open spec fn list_or_empty(t: Map<Seq<char>, TomlView>, key: Seq<char>) -> Seq<Seq<char>> {
    match list_of(t, key) {
        Some(l) => l,
        None => Seq::empty(),
    }
}

/// The first thing wrong with the table of a package, as the message that
/// reports it. The fields are checked in a fixed order.
pub open spec fn package_fault(t: Map<Seq<char>, TomlView>) -> Option<Seq<char>> {
    either(
        list_fault(t, "dependencies"@, "Dependencies should be an array"@, "Dependency must be a string"@),
        either(
            table_fault(t, "variables"@, "The 'variables' field must be a table"@),
            either(
                list_fault(
                    t,
                    "pre_actions"@,
                    "The 'pre_actions' field must be an array"@,
                    "Pre-action must be a string"@,
                ),
                either(
                    list_fault(
                        t,
                        "post_actions"@,
                        "The 'post_actions' field must be an array"@,
                        "Post-action must be a string"@,
                    ),
                    either(
                        map_fault(
                            t,
                            "targets"@,
                            "The 'targets' field must be a table"@,
                            "Target dest must be a string"@,
                        ),
                        either(
                            list_fault(
                                t,
                                "ignore"@,
                                "The 'ignore' field must be an array"@,
                                "Ignore pattern must be a string"@,
                            ),
                            either(
                                map_fault(
                                    t,
                                    "prompts"@,
                                    "The 'prompts' field must be a table"@,
                                    "Prompt message must be a string"@,
                                ),
                                either(
                                    text_fault(
                                        t,
                                        "src"@,
                                        "Package src is required"@,
                                        "Package src must be a string"@,
                                    ),
                                    text_fault(
                                        t,
                                        "dest"@,
                                        "Package dest is required"@,
                                        "Package dest must be a string"@,
                                    ),
                                ),
                            ),
                        ),
                    ),
                ),
            ),
        ),
    )
}

/// The package that a faultless table describes.
pub open spec fn package_of(name: Seq<char>, t: Map<Seq<char>, TomlView>) -> PackageView {
    PackageView {
        name,
        src: t["src"@]->String_0,
        dest: t["dest"@]->String_0,
        dependencies: list_of(t, "dependencies"@),
        variables: table_of(t, "variables"@),
        pre_actions: list_or_empty(t, "pre_actions"@),
        post_actions: list_or_empty(t, "post_actions"@),
        targets: map_of(t, "targets"@),
        skip: flag_of(t, "skip"@, false),
        ignore: list_or_empty(t, "ignore"@),
        prompts: map_of(t, "prompts"@),
    }
}

/// The list read, or an empty one.
fn list_or_new(l: Option<Vec<String>>) -> (r: Vec<String>)
    ensures
        strings_view(r@) == match option_strings_view(l) {
            Some(s) => s,
            None => Seq::empty(),
        },
{
    match l {
        Some(v) => v,
        None => {
            let v: Vec<String> = Vec::new();
            assert(strings_view(v@) =~= Seq::<Seq<char>>::empty());
            v
        },
    }
}

impl Package {
    /// Reads a package from its table in the configuration. Lists and tables
    /// that the table lacks are empty, `skip` is false unless the table holds
    /// a boolean there, `src` and `dest` are required. The first fault found,
    /// in the order of `package_fault`, is reported.
    pub fn from_table(pkg_name: &str, pkg_val: &Table) -> (r: Result<Package, DotrError>)
        ensures
            match r {
                Ok(p) => package_fault(pkg_val@) is None && p@ == package_of(pkg_name@, pkg_val@),
                Err(e) => package_fault(pkg_val@) is Some && e@ == ErrorView::ConfigParseError(
                    package_fault(pkg_val@)->0,
                ),
            },
    {
        let dependencies = match read_list(
            pkg_val,
            "dependencies",
            "Dependencies should be an array",
            "Dependency must be a string",
        ) {
            Ok(v) => v,
            Err(e) => {
                return Err(e);
            },
        };
        let variables = match read_table(
            pkg_val,
            "variables",
            "The 'variables' field must be a table",
        ) {
            Ok(v) => v,
            Err(e) => {
                return Err(e);
            },
        };
        let pre_actions = match read_list(
            pkg_val,
            "pre_actions",
            "The 'pre_actions' field must be an array",
            "Pre-action must be a string",
        ) {
            Ok(v) => list_or_new(v),
            Err(e) => {
                return Err(e);
            },
        };
        let post_actions = match read_list(
            pkg_val,
            "post_actions",
            "The 'post_actions' field must be an array",
            "Post-action must be a string",
        ) {
            Ok(v) => list_or_new(v),
            Err(e) => {
                return Err(e);
            },
        };
        let targets = match read_text_map(
            pkg_val,
            "targets",
            "The 'targets' field must be a table",
            "Target dest must be a string",
        ) {
            Ok(v) => v,
            Err(e) => {
                return Err(e);
            },
        };
        let ignore = match read_list(
            pkg_val,
            "ignore",
            "The 'ignore' field must be an array",
            "Ignore pattern must be a string",
        ) {
            Ok(v) => list_or_new(v),
            Err(e) => {
                return Err(e);
            },
        };
        let prompts = match read_text_map(
            pkg_val,
            "prompts",
            "The 'prompts' field must be a table",
            "Prompt message must be a string",
        ) {
            Ok(v) => v,
            Err(e) => {
                return Err(e);
            },
        };
        let src = match read_text(
            pkg_val,
            "src",
            "Package src is required",
            "Package src must be a string",
        ) {
            Ok(v) => v,
            Err(e) => {
                return Err(e);
            },
        };
        let dest = match read_text(
            pkg_val,
            "dest",
            "Package dest is required",
            "Package dest must be a string",
        ) {
            Ok(v) => v,
            Err(e) => {
                return Err(e);
            },
        };
        let skip = read_flag(pkg_val, "skip", false);
        Ok(
            Package {
                name: pkg_name.to_owned(),
                src,
                dest,
                dependencies,
                variables,
                pre_actions,
                post_actions,
                targets,
                skip,
                ignore,
                prompts,
            },
        )
    }
}

/// The table with `value` under `key` where `cond` holds, the table itself
/// where it does not.
pub open spec fn put_if(
    m: Map<Seq<char>, TomlView>,
    cond: bool,
    key: Seq<char>,
    value: TomlView,
) -> Map<Seq<char>, TomlView> {
    if cond {
        m.insert(key, value)
    } else {
        m
    }
}

/// The table that stores a package: `src` and `dest` always, `dependencies`
/// where there is a list, the other fields where they are not empty, `skip`
/// where it is set. The name is the key the table is stored under.
pub open spec fn package_table(p: PackageView) -> Map<Seq<char>, TomlView> {
    let t0 = Map::<Seq<char>, TomlView>::empty().insert("src"@, TomlView::String(p.src)).insert(
        "dest"@,
        TomlView::String(p.dest),
    );
    let t1 = put_if(
        t0,
        p.dependencies is Some,
        "dependencies"@,
        TomlView::Array(text_items(p.dependencies->0)),
    );
    let t2 = put_if(
        t1,
        p.variables != Map::<Seq<char>, TomlView>::empty(),
        "variables"@,
        TomlView::Table(p.variables),
    );
    let t3 = put_if(
        t2,
        p.pre_actions.len() > 0,
        "pre_actions"@,
        TomlView::Array(text_items(p.pre_actions)),
    );
    let t4 = put_if(
        t3,
        p.post_actions.len() > 0,
        "post_actions"@,
        TomlView::Array(text_items(p.post_actions)),
    );
    let t5 = put_if(
        t4,
        p.targets != Map::<Seq<char>, Seq<char>>::empty(),
        "targets"@,
        TomlView::Table(text_table(p.targets)),
    );
    let t6 = put_if(t5, p.skip, "skip"@, TomlView::Boolean(true));
    let t7 = put_if(t6, p.ignore.len() > 0, "ignore"@, TomlView::Array(text_items(p.ignore)));
    put_if(
        t7,
        p.prompts != Map::<Seq<char>, Seq<char>>::empty(),
        "prompts"@,
        TomlView::Table(text_table(p.prompts)),
    )
}

impl Package {
    /// The table that stores the package in the configuration.
    pub fn to_table(&self) -> (r: Table)
        ensures
            r@ == package_table(self@),
    {
        proof {
            lemma_text_map_empty(&self.targets);
            lemma_text_map_empty(&self.prompts);
        }
        let mut t = Table::new();
        t.insert("src".to_owned(), text_value(self.src.as_str()));
        t.insert("dest".to_owned(), text_value(self.dest.as_str()));
        match &self.dependencies {
            Some(deps) => {
                t.insert("dependencies".to_owned(), strings_value(deps));
            },
            None => {},
        }
        if !self.variables.is_empty() {
            t.insert("variables".to_owned(), TomlValue::Table(self.variables.clone()));
        }
        if self.pre_actions.len() > 0 {
            t.insert("pre_actions".to_owned(), strings_value(&self.pre_actions));
        }
        if self.post_actions.len() > 0 {
            t.insert("post_actions".to_owned(), strings_value(&self.post_actions));
        }
        if !self.targets.is_empty() {
            t.insert("targets".to_owned(), TomlValue::Table(text_map_table(&self.targets)));
        }
        if self.skip {
            t.insert("skip".to_owned(), TomlValue::Boolean(true));
        }
        if self.ignore.len() > 0 {
            t.insert("ignore".to_owned(), strings_value(&self.ignore));
        }
        if !self.prompts.is_empty() {
            t.insert("prompts".to_owned(), TomlValue::Table(text_map_table(&self.prompts)));
        }
        t
    }
}

/// The last component of a path: what follows the last `/`, trailing `/`
/// set aside.
pub open spec fn file_name(path: Seq<char>) -> Seq<char> {
    let stem = path.take(path.len() - trailing_count(path, '/'));
    stem.skip(last_index_of(stem, '/') + 1)
}

/// Whether a character is a decimal digit.
pub open spec fn is_digit(c: char) -> bool {
    c == '0' || c == '1' || c == '2' || c == '3' || c == '4' || c == '5' || c == '6' || c == '7'
        || c == '8' || c == '9'
}

/// Whether a text is a version: a digit, then digits and dots.
pub open spec fn is_version(s: Seq<char>) -> bool {
    s.len() > 0 && is_digit(s[0]) && forall|i: int|
        0 <= i < s.len() ==> is_digit(#[trigger] s[i]) || s[i] == '.'
}

/// A file name without its leading dots and without a trailing version:
/// where what follows its last `-` is a version, that `-` and the version
/// are left out.
pub open spec fn package_stem(file_name: Seq<char>) -> Seq<char> {
    let bare = file_name.skip(leading_count(file_name, '.'));
    let dash = last_index_of(bare, '-');
    if dash >= 0 && is_version(bare.skip(dash + 1)) {
        bare.take(dash)
    } else {
        bare
    }
}

/// Whether a character is a decimal digit.
fn digit(c: char) -> (r: bool)
    ensures
        r == is_digit(c),
{
    c == '0' || c == '1' || c == '2' || c == '3' || c == '4' || c == '5' || c == '6' || c == '7'
        || c == '8' || c == '9'
}

/// Whether the characters from `from` on are a version.
fn version_from(cs: &Vec<char>, from: usize) -> (r: bool)
    requires
        from <= cs.len(),
    ensures
        r == is_version(cs@.skip(from as int)),
{
    let ghost tail = cs@.skip(from as int);
    if from == cs.len() || !digit(cs[from]) {
        assert(from < cs.len() ==> tail[0] == cs[from as int]);
        return false;
    }
    let mut i: usize = from;
    while i < cs.len()
        invariant
            from <= i <= cs.len(),
            tail == cs@.skip(from as int),
            forall|j: int| 0 <= j < i - from ==> is_digit(#[trigger] tail[j]) || tail[j] == '.',
        decreases cs.len() - i,
    {
        if !digit(cs[i]) && cs[i] != '.' {
            assert(tail[i - from] == cs[i as int]);
            return false;
        }
        assert(tail[i - from] == cs[i as int]);
        i += 1;
    }
    assert(tail[0] == cs[from as int]);
    true
}

/// The name of the package for a path: `d_` for a directory or `f_` for a
/// file, then the stem of its last component with `_` for `-` and `.`.
/// So `/tmp/my-config` gives `f_my_config`, and `/opt/my-app-1.0` gives
/// `f_my_app`.
pub open spec fn package_name(path: Seq<char>, is_dir: bool) -> Seq<char> {
    (if is_dir {
        "d_"@
    } else {
        "f_"@
    }) + underscored(package_stem(file_name(path)))
}

/// The path of the backup of a live path: the path, a dot and the backup
/// extension.
pub open spec fn backup_path(path: Seq<char>) -> Seq<char> {
    path + "."@ + BACKUP_EXT@
}

/// The destination in effect: the target that the package has for the
/// active profile, else its own.
pub open spec fn effective_dest(p: PackageView, profile: Option<Seq<char>>) -> Seq<char> {
    match profile {
        Some(name) => if p.targets.dom().contains(name) {
            p.targets[name]
        } else {
            p.dest
        },
        None => p.dest,
    }
}

/// The name of the profile, if there is one.
pub open spec fn profile_name(profile: Option<crate::profile::Profile>) -> Option<Seq<char>> {
    match profile {
        Some(p) => Some(p.name@),
        None => None,
    }
}

/// The last component of a path.
pub fn file_name_of(path: &str) -> (r: String)
    ensures
        r@ == file_name(path@),
{
    let cs = chars_of(path);
    let end: usize = cs.len() - count_trailing(&cs, '/');
    let start: usize = match rfind_char(&cs, end, '/') {
        Some(i) => i + 1,
        None => 0,
    };
    let name = path.substring_char(start, end);
    assert(name@ =~= file_name(path@));
    name.to_owned()
}

/// Derives the name of a package from the path it is imported from, which
/// is resolved against the repository and home directories first. `is_dir`
/// says whether the path is a directory.
pub fn get_package_name(pathstr: &str, cwd: &str, home: &str, is_dir: bool) -> (r: String)
    ensures
        r@ == package_name(resolved_path(pathstr@, cwd@, home@), is_dir),
{
    let path = resolve_path(pathstr, cwd, home);
    let cs = chars_of(path.as_str());
    let end: usize = cs.len() - count_trailing(&cs, '/');
    let start: usize = match rfind_char(&cs, end, '/') {
        Some(i) => i + 1,
        None => 0,
    };
    let name = path.as_str().substring_char(start, end);
    let ns = chars_of(name);
    assert(ns@ =~= file_name(path@));
    let dots: usize = count_leading(&ns, '.');
    let bare = name.substring_char(dots, ns.len());
    let bs = chars_of(bare);
    assert(bs@ =~= ns@.skip(dots as int));
    proof {
        assert(bs@.take(bs.len() as int) =~= bs@);
    }
    let stop: usize = match rfind_char(&bs, bs.len(), '-') {
        Some(i) => if version_from(&bs, i + 1) {
            i
        } else {
            bs.len()
        },
        None => bs.len(),
    };
    proof {
        assert(bs@.subrange(0, stop as int) =~= package_stem(ns@));
    }
    let mut out = if is_dir {
        "d_".to_owned()
    } else {
        "f_".to_owned()
    };
    append_underscored(&mut out, bare, &bs, 0, stop);
    out
}

/// The path of the backup of a live path.
pub fn create_backup_path(path: &str) -> (r: String)
    ensures
        r@ == backup_path(path@),
{
    concat3(path, ".", BACKUP_EXT)
}

impl Package {
    /// Whether the package stores a directory: its name says so.
    pub fn is_dir(&self) -> (r: bool)
        ensures
            r == "d_"@.is_prefix_of(self.name@),
    {
        let cs = chars_of(self.name.as_str());
        proof {
            reveal_strlit("d_");
        }
        let r = cs.len() >= 2 && cs[0] == 'd' && cs[1] == '_';
        proof {
            if r {
                assert("d_"@ =~= self.name@.subrange(0, 2));
            } else if "d_"@.is_prefix_of(self.name@) {
                assert(self.name@[0] == "d_"@[0]);
                assert(self.name@[1] == "d_"@[1]);
            }
        }
        r
    }

    /// The variables that the package is processed with: those of the
    /// environment and the configuration, overridden by the package's, then
    /// by the active profile's, then by the user's.
    pub fn get_context_variables(&self, ctx: &Context) -> (r: Table)
        ensures
            r@ == merged(
                seq![
                    ctx.variables@,
                    self.variables@,
                    profile_layer(ctx.profile),
                    ctx.user_variables@,
                ],
            ),
    {
        proof {
            lemma_merged4(
                ctx.variables@,
                self.variables@,
                profile_layer(ctx.profile),
                ctx.user_variables@,
            );
        }
        let mut vars = ctx.get_variables().clone();
        vars.extend(self.variables.clone());
        match &ctx.profile {
            Some(profile) => {
                vars.extend(profile.variables.clone());
            },
            None => {
                assert(vars@.union_prefer_right(Map::<Seq<char>, TomlView>::empty()) =~= vars@);
            },
        }
        vars.extend(ctx.get_user_variables().clone());
        vars
    }

    /// The destination in effect, as it is configured.
    pub fn configured_dest(&self, ctx: &Context) -> (r: &String)
        ensures
            r@ == effective_dest(self@, profile_name(ctx.profile)),
    {
        match &ctx.profile {
            Some(profile) => match self.targets.get(profile.name.as_str()) {
                Some(target) => target,
                None => &self.dest,
            },
            None => &self.dest,
        }
    }

    /// The absolute live path of the package: its destination in effect,
    /// resolved against the repository and home directories.
    pub fn resolve_dest(&self, ctx: &Context, home: &str) -> (r: String)
        ensures
            r@ == resolved_path(
                effective_dest(self@, profile_name(ctx.profile)),
                ctx.working_dir@,
                home@,
            ),
    {
        resolve_path(self.configured_dest(ctx).as_str(), ctx.working_dir.as_str(), home)
    }

    /// The absolute path of the stored copy of the package.
    pub fn resolve_src(&self, ctx: &Context, home: &str) -> (r: String)
        ensures
            r@ == resolved_path(self.src@, ctx.working_dir@, home@),
    {
        resolve_path(self.src.as_str(), ctx.working_dir.as_str(), home)
    }
}

/// The package that importing a path creates: named after the path, stored
/// under `dotfiles/` and its name, deployed to the path itself where it
/// starts with `~`, else to the resolved path with `~` for the home
/// directory.
pub open spec fn imported_package(
    path: Seq<char>,
    cwd: Seq<char>,
    home: Seq<char>,
    is_dir: bool,
) -> PackageView {
    let name = package_name(resolved_path(path, cwd, home), is_dir);
    PackageView {
        name,
        src: "dotfiles/"@ + name,
        dest: if path.len() > 0 && path[0] == '~' {
            path
        } else {
            normalized_home_path(resolved_path(path, cwd, home), Some(home))
        },
        dependencies: None,
        variables: Map::empty(),
        pre_actions: Seq::empty(),
        post_actions: Seq::empty(),
        targets: Map::empty(),
        skip: false,
        ignore: Seq::empty(),
        prompts: Map::empty(),
    }
}

/// The message that reports a path that does not exist.
pub open spec fn missing_path_message(path: Seq<char>) -> Seq<char> {
    "Path '"@ + path + "' does not exist"@
}

/// What the exit of an action means: it succeeded exactly when it exited
/// with status zero.
pub fn action_result(action: &str, exit_code: Option<i32>) -> (r: Result<(), DotrError>)
    ensures
        match r {
            Ok(_) => exit_code == Some(0i32),
            Err(e) => exit_code != Some(0i32) && e@ == (ErrorView::ActionFailed {
                command: action@,
                exit_code,
            }),
        },
{
    match exit_code {
        Some(0) => Ok(()),
        _ => Err(DotrError::ActionFailed { command: action.to_owned(), exit_code }),
    }
}

/// The variables that a package is deployed with: those of the environment
/// and the configuration, overridden by the package's, then by the active
/// profile's, then by the user's.
pub open spec fn deploy_variables(p: &Package, ctx: &Context) -> Map<Seq<char>, TomlView> {
    merged(seq![ctx.variables@, p.variables@, profile_layer(ctx.profile), ctx.user_variables@])
}

/// What the command of an action is, against given variables: the action
/// rendered, or a render error where it is not handed to the templating
/// engine or the engine fails on it.
pub open spec fn command_of(
    action: Seq<char>,
    variables: &Table,
    r: Result<Option<String>, DotrError>,
) -> bool {
    match r {
        Ok(c) => c is Some && compiled(action, variables) == Some(c->0@),
        Err(e) => compiled(action, variables) is None && e is RenderError && (!renderable(
            action,
            variables,
        ) ==> e@ == ErrorView::RenderError(NOT_RENDERABLE@)),
    }
}

/// The command to run for the action at `index`, rendered against the
/// variables; `None` past the last action.
pub fn action_command(actions: &Vec<String>, index: usize, variables: &Table) -> (r: Result<
    Option<String>,
    DotrError,
>)
    ensures
        index >= actions.len() ==> r == Ok::<Option<String>, DotrError>(None),
        index < actions.len() ==> command_of(actions[index as int]@, variables, r),
{
    if index >= actions.len() {
        Ok(None)
    } else {
        match compile_string(actions[index].as_str(), variables) {
            Ok(command) => Ok(Some(command)),
            Err(e) => Err(e),
        }
    }
}

impl Package {
    /// The package for a path that is imported. `exists` and `is_dir` say
    /// what the caller found at the resolved path; a path that does not
    /// exist cannot be imported.
    pub fn from_path(path: &str, cwd: &str, home: &str, exists: bool, is_dir: bool) -> (r: Result<
        Package,
        DotrError,
    >)
        ensures
            match r {
                Ok(p) => exists && p@ == imported_package(path@, cwd@, home@, is_dir),
                Err(e) => !exists && e@ == ErrorView::IoError(
                    missing_path_message(resolved_path(path@, cwd@, home@)),
                ),
            },
    {
        let resolved = resolve_path(path, cwd, home);
        if !exists {
            return Err(
                DotrError::IoError(concat3("Path '", resolved.as_str(), "' does not exist")),
            );
        }
        let name = get_package_name(path, cwd, home, is_dir);
        let src = concat2("dotfiles/", name.as_str());
        let dest = if starts_with_char(path, '~') {
            path.to_owned()
        } else {
            normalize_home_path(resolved.as_str(), Some(home))
        };
        let p = Package {
            name,
            src,
            dest,
            dependencies: None,
            variables: Table::new(),
            pre_actions: Vec::new(),
            post_actions: Vec::new(),
            targets: StrMap::new(),
            skip: false,
            ignore: Vec::new(),
            prompts: StrMap::new(),
        };
        proof {
            lemma_text_map_empty(&p.targets);
            lemma_text_map_empty(&p.prompts);
            assert(strings_view(p.pre_actions@) =~= Seq::<Seq<char>>::empty());
            assert(strings_view(p.post_actions@) =~= Seq::<Seq<char>>::empty());
            assert(strings_view(p.ignore@) =~= Seq::<Seq<char>>::empty());
        }
        Ok(p)
    }

    /// The command of the pre-action at `index`; `None` past the last.
    pub fn pre_action_command(&self, ctx: &Context, index: usize) -> (r: Result<
        Option<String>,
        DotrError,
    >)
        ensures
            index >= self.pre_actions.len() ==> r == Ok::<Option<String>, DotrError>(None),
            index < self.pre_actions.len() ==> exists|v: Table|
                v@ == deploy_variables(self, ctx) && #[trigger] command_of(
                    self.pre_actions[index as int]@,
                    &v,
                    r,
                ),
    {
        let variables = self.get_context_variables(ctx);
        let r = action_command(&self.pre_actions, index, &variables);
        proof {
            if index < self.pre_actions.len() {
                assert(command_of(self.pre_actions[index as int]@, &variables, r));
            }
        }
        r
    }

    /// The command of the post-action at `index`; `None` past the last.
    pub fn post_action_command(&self, ctx: &Context, index: usize) -> (r: Result<
        Option<String>,
        DotrError,
    >)
        ensures
            index >= self.post_actions.len() ==> r == Ok::<Option<String>, DotrError>(None),
            index < self.post_actions.len() ==> exists|v: Table|
                v@ == deploy_variables(self, ctx) && #[trigger] command_of(
                    self.post_actions[index as int]@,
                    &v,
                    r,
                ),
    {
        let variables = self.get_context_variables(ctx);
        let r = action_command(&self.post_actions, index, &variables);
        proof {
            if index < self.post_actions.len() {
                assert(command_of(self.post_actions[index as int]@, &variables, r));
            }
        }
        r
    }
}

/// The keys of a package table differ from one another.
proof fn lemma_package_keys()
    ensures
        "src"@.len() == 3,
        "dest"@.len() == 4 && "dest"@[0] == 'd',
        "dependencies"@.len() == 12 && "dependencies"@[0] == 'd',
        "variables"@.len() == 9,
        "pre_actions"@.len() == 11,
        "post_actions"@.len() == 12 && "post_actions"@[0] == 'p',
        "targets"@.len() == 7 && "targets"@[0] == 't',
        "skip"@.len() == 4 && "skip"@[0] == 's',
        "ignore"@.len() == 6,
        "prompts"@.len() == 7 && "prompts"@[0] == 'p',
{
    reveal_strlit("src");
    reveal_strlit("dest");
    reveal_strlit("dependencies");
    reveal_strlit("variables");
    reveal_strlit("pre_actions");
    reveal_strlit("post_actions");
    reveal_strlit("targets");
    reveal_strlit("skip");
    reveal_strlit("ignore");
    reveal_strlit("prompts");
}

/// A stored package reads back as it was: the table that stores a package
/// has no fault, and describes that package under its name.
pub proof fn lemma_package_round_trip(p: PackageView)
    ensures
        package_fault(package_table(p)) is None,
        package_of(p.name, package_table(p)) == p,
{
    lemma_package_keys();
    let t = package_table(p);
    let back = package_of(p.name, t);
    assert(t.dom().contains("src"@) && t["src"@] == TomlView::String(p.src));
    assert(t.dom().contains("dest"@) && t["dest"@] == TomlView::String(p.dest));
    assert(t.dom().contains("dependencies"@) == (p.dependencies is Some));
    assert(t.dom().contains("variables"@) == (p.variables != Map::<Seq<char>, TomlView>::empty()));
    assert(t.dom().contains("pre_actions"@) == (p.pre_actions.len() > 0));
    assert(t.dom().contains("post_actions"@) == (p.post_actions.len() > 0));
    assert(t.dom().contains("targets"@) == (p.targets != Map::<Seq<char>, Seq<char>>::empty()));
    assert(t.dom().contains("skip"@) == p.skip);
    assert(t.dom().contains("ignore"@) == (p.ignore.len() > 0));
    assert(t.dom().contains("prompts"@) == (p.prompts != Map::<Seq<char>, Seq<char>>::empty()));
    if p.dependencies is Some {
        assert(t["dependencies"@] == TomlView::Array(text_items(p.dependencies->0)));
        assert(crate::fields::strings_of(text_items(p.dependencies->0)) =~= p.dependencies->0);
    }
    if p.pre_actions.len() > 0 {
        assert(t["pre_actions"@] == TomlView::Array(text_items(p.pre_actions)));
        assert(crate::fields::strings_of(text_items(p.pre_actions)) =~= p.pre_actions);
    } else {
        assert(p.pre_actions =~= Seq::<Seq<char>>::empty());
    }
    if p.post_actions.len() > 0 {
        assert(t["post_actions"@] == TomlView::Array(text_items(p.post_actions)));
        assert(crate::fields::strings_of(text_items(p.post_actions)) =~= p.post_actions);
    } else {
        assert(p.post_actions =~= Seq::<Seq<char>>::empty());
    }
    if p.ignore.len() > 0 {
        assert(t["ignore"@] == TomlView::Array(text_items(p.ignore)));
        assert(crate::fields::strings_of(text_items(p.ignore)) =~= p.ignore);
    } else {
        assert(p.ignore =~= Seq::<Seq<char>>::empty());
    }
    if p.targets != Map::<Seq<char>, Seq<char>>::empty() {
        assert(t["targets"@] == TomlView::Table(text_table(p.targets)));
        assert(crate::fields::texts_of(text_table(p.targets)) =~= p.targets);
    }
    if p.prompts != Map::<Seq<char>, Seq<char>>::empty() {
        assert(t["prompts"@] == TomlView::Table(text_table(p.prompts)));
        assert(crate::fields::texts_of(text_table(p.prompts)) =~= p.prompts);
    }
    if p.variables != Map::<Seq<char>, TomlView>::empty() {
        assert(t["variables"@] == TomlView::Table(p.variables));
    }
    if p.skip {
        assert(t["skip"@] == TomlView::Boolean(true));
    }
    assert(back.dependencies == p.dependencies);
    assert(back.variables == p.variables);
    assert(back.pre_actions == p.pre_actions);
    assert(back.post_actions == p.post_actions);
    assert(back.targets == p.targets);
    assert(back.skip == p.skip);
    assert(back.ignore == p.ignore);
    assert(back.prompts == p.prompts);
}

/// Where the deploy of a package stands: before the pre-action at an
/// index, before the files are put in place, before the post-action at an
/// index, or at its end. The pre-actions run in the order of their list,
/// then the files are put in place, then the post-actions run in the order
/// of theirs; the first action that fails ends the deploy.
#[derive(Debug, Clone, Copy, PartialEq, Eq, Structural)]
pub enum Phase {
    Pre(usize),
    Copy,
    Post(usize),
    Done,
}

/// The phase before the pre-action at `index`: the files where the list of
/// pre-actions ends there.
pub open spec fn pre_phase(p: PackageView, index: int) -> Phase {
    if 0 <= index < p.pre_actions.len() {
        Phase::Pre(index as usize)
    } else {
        Phase::Copy
    }
}

/// The phase before the post-action at `index`: the end where the list of
/// post-actions ends there.
pub open spec fn post_phase(p: PackageView, index: int) -> Phase {
    if 0 <= index < p.post_actions.len() {
        Phase::Post(index as usize)
    } else {
        Phase::Done
    }
}

/// The action that a phase runs, if it runs one.
pub open spec fn phase_action(p: PackageView, phase: Phase) -> Option<Seq<char>> {
    match phase {
        Phase::Pre(i) => if i < p.pre_actions.len() {
            Some(p.pre_actions[i as int])
        } else {
            None
        },
        Phase::Post(i) => if i < p.post_actions.len() {
            Some(p.post_actions[i as int])
        } else {
            None
        },
        _ => None,
    }
}

/// The phase that follows a phase: after an action that exited with status
/// zero, the next action of its list, or what follows the list; after the
/// files, the first post-action. An action that exited otherwise ends the
/// deploy with an error that names it and its exit code. The end is
/// followed by the end.
pub open spec fn next_phase(p: PackageView, phase: Phase, exit_code: Option<i32>) -> Result<
    Phase,
    ErrorView,
> {
    match phase_action(p, phase) {
        Some(action) => if exit_code != Some(0i32) {
            Err(ErrorView::ActionFailed { command: action, exit_code })
        } else {
            match phase {
                Phase::Pre(i) => Ok(pre_phase(p, i + 1)),
                Phase::Post(i) => Ok(post_phase(p, i + 1)),
                _ => Ok(phase),
            }
        },
        None => match phase {
            Phase::Pre(_) => Ok(Phase::Copy),
            Phase::Copy => Ok(post_phase(p, 0)),
            _ => Ok(Phase::Done),
        },
    }
}

/// The phases from a phase on, where every action exits with status zero:
/// `steps` phases further.
pub open spec fn phase_after(p: PackageView, phase: Phase, steps: nat) -> Phase
    decreases steps,
{
    if steps == 0 {
        phase
    } else {
        match next_phase(p, phase_after(p, phase, (steps - 1) as nat), Some(0i32)) {
            Ok(next) => next,
            Err(_) => phase,
        }
    }
}

/// Order of a deploy: where every action succeeds, the pre-actions come in
/// the order of their list, then the files, then the post-actions in the
/// order of theirs, then the end.
pub proof fn lemma_deploy_order(p: PackageView, steps: nat)
    requires
        p.pre_actions.len() <= usize::MAX,
        p.post_actions.len() <= usize::MAX,
    ensures
        phase_after(p, pre_phase(p, 0), steps) == (if steps < p.pre_actions.len() {
            Phase::Pre(steps as usize)
        } else if steps == p.pre_actions.len() {
            Phase::Copy
        } else if steps <= p.pre_actions.len() + p.post_actions.len() {
            Phase::Post((steps - p.pre_actions.len() - 1) as usize)
        } else {
            Phase::Done
        }),
    decreases steps,
{
    if steps > 0 {
        lemma_deploy_order(p, (steps - 1) as nat);
    }
}

/// A failed action ends the deploy: no phase follows it.
pub proof fn lemma_failed_action_stops(p: PackageView, phase: Phase, exit_code: Option<i32>)
    requires
        phase_action(p, phase) is Some,
        exit_code != Some(0i32),
    ensures
        next_phase(p, phase, exit_code) == Err::<Phase, ErrorView>(
            ErrorView::ActionFailed { command: phase_action(p, phase)->0, exit_code },
        ),
{
}

impl Package {
    /// The phase that a deploy starts in.
    pub fn first_phase(&self) -> (r: Phase)
        ensures
            r == pre_phase(self@, 0),
    {
        if self.pre_actions.len() > 0 {
            Phase::Pre(0)
        } else {
            Phase::Copy
        }
    }

    /// The phase that follows `phase`. `exit_code` is what the action of
    /// the phase exited with; it is not looked at after a phase that runs
    /// no action.
    pub fn after_phase(&self, phase: Phase, exit_code: Option<i32>) -> (r: Result<Phase, DotrError>)
        ensures
            match r {
                Ok(next) => next_phase(self@, phase, exit_code) == Ok::<Phase, ErrorView>(next),
                Err(e) => next_phase(self@, phase, exit_code) == Err::<Phase, ErrorView>(e@),
            },
    {
        match phase {
            Phase::Pre(i) => {
                if i < self.pre_actions.len() {
                    match action_result(self.pre_actions[i].as_str(), exit_code) {
                        Ok(_) => Ok(
                            if i + 1 < self.pre_actions.len() {
                                Phase::Pre(i + 1)
                            } else {
                                Phase::Copy
                            },
                        ),
                        Err(e) => Err(e),
                    }
                } else {
                    Ok(Phase::Copy)
                }
            },
            Phase::Copy => Ok(
                if self.post_actions.len() > 0 {
                    Phase::Post(0)
                } else {
                    Phase::Done
                },
            ),
            Phase::Post(i) => {
                if i < self.post_actions.len() {
                    match action_result(self.post_actions[i].as_str(), exit_code) {
                        Ok(_) => Ok(
                            if i + 1 < self.post_actions.len() {
                                Phase::Post(i + 1)
                            } else {
                                Phase::Done
                            },
                        ),
                        Err(e) => Err(e),
                    }
                } else {
                    Ok(Phase::Done)
                }
            },
            Phase::Done => Ok(Phase::Done),
        }
    }

    /// The command that a phase runs, rendered against the variables of the
    /// package; `None` for a phase that runs no action.
    pub fn phase_command(&self, ctx: &Context, phase: Phase) -> (r: Result<Option<String>, DotrError>)
        ensures
            phase_action(self@, phase) is None ==> r == Ok::<Option<String>, DotrError>(None),
            phase_action(self@, phase) is Some ==> exists|v: Table|
                v@ == deploy_variables(self, ctx) && #[trigger] command_of(
                    phase_action(self@, phase)->0,
                    &v,
                    r,
                ),
    {
        match phase {
            Phase::Pre(i) => {
                let r = self.pre_action_command(ctx, i);
                proof {
                    if i < self.pre_actions.len() {
                        let v = choose|v: Table|
                            v@ == deploy_variables(self, ctx) && #[trigger] command_of(
                                self.pre_actions[i as int]@,
                                &v,
                                r,
                            );
                        assert(command_of(phase_action(self@, phase)->0, &v, r));
                    }
                }
                r
            },
            Phase::Post(i) => {
                let r = self.post_action_command(ctx, i);
                proof {
                    if i < self.post_actions.len() {
                        let v = choose|v: Table|
                            v@ == deploy_variables(self, ctx) && #[trigger] command_of(
                                self.post_actions[i as int]@,
                                &v,
                                r,
                            );
                        assert(command_of(phase_action(self@, phase)->0, &v, r));
                    }
                }
                r
            },
            _ => Ok(None),
        }
    }
}

impl Record for Package {
    open spec fn fault(name: Seq<char>, t: Map<Seq<char>, TomlView>) -> Option<Seq<char>> {
        package_fault(t)
    }

    open spec fn described(name: Seq<char>, t: Map<Seq<char>, TomlView>) -> PackageView {
        package_of(name, t)
    }

    open spec fn stored(v: PackageView) -> Map<Seq<char>, TomlView> {
        package_table(v)
    }

    fn read(name: &str, t: &Table) -> (r: Result<Self, DotrError>) {
        Package::from_table(name, t)
    }

    fn write(&self) -> (r: Table) {
        self.to_table()
    }
}

} // verus!
