//! The variables of one invocation, in layers.

use vstd::prelude::*;
use crate::codec::{parse_table, toml_document};
use crate::error::DotrError;
use crate::profile::Profile;
use crate::value::{
    strings_view, table_lines, table_lines_of, value_lines, variable_lines, StrMap, Table,
    TomlValue, TomlView,
};

verus! {

/// The layers merged into one table. A later layer overrides an earlier one
/// key by key; a value is replaced whole, also where it is a table.
pub open spec fn merged(layers: Seq<Map<Seq<char>, TomlView>>) -> Map<Seq<char>, TomlView>
    decreases layers.len(),
{
    if layers.len() == 0 {
        Map::empty()
    } else {
        merged(layers.drop_last()).union_prefer_right(layers.last())
    }
}

/// Precedence: a key has in the merged table the value of the last layer
/// that holds it.
pub proof fn lemma_merged_precedence(layers: Seq<Map<Seq<char>, TomlView>>, key: Seq<char>, i: int)
    requires
        0 <= i < layers.len(),
        layers[i].dom().contains(key),
        forall|j: int| i < j < layers.len() ==> !layers[j].dom().contains(key),
    ensures
        merged(layers).dom().contains(key),
        merged(layers)[key] == layers[i][key],
    decreases layers.len(),
{
    if i < layers.len() - 1 {
        let rest = layers.drop_last();
        assert forall|j: int| i < j < rest.len() implies !rest[j].dom().contains(key) by {
            assert(rest[j] == layers[j]);
        }
        assert(rest[i] == layers[i]);
        lemma_merged_precedence(rest, key, i);
        assert(!layers[layers.len() - 1].dom().contains(key));
    }
}

/// A key that no layer holds is not in the merged table.
pub proof fn lemma_merged_absent(layers: Seq<Map<Seq<char>, TomlView>>, key: Seq<char>)
    requires
        forall|j: int| 0 <= j < layers.len() ==> !layers[j].dom().contains(key),
    ensures
        !merged(layers).dom().contains(key),
    decreases layers.len(),
{
    if layers.len() > 0 {
        let rest = layers.drop_last();
        assert forall|j: int| 0 <= j < rest.len() implies !rest[j].dom().contains(key) by {
            assert(rest[j] == layers[j]);
        }
        lemma_merged_absent(rest, key);
        assert(!layers[layers.len() - 1].dom().contains(key));
    }
}

/// The contents of a list of tables.
pub open spec fn layer_views(layers: Seq<Table>) -> Seq<Map<Seq<char>, TomlView>> {
    Seq::new(layers.len(), |i: int| layers[i]@)
}

/// Merges the layers, lowest precedence first, into one table.
pub fn merge(layers: &Vec<Table>) -> (r: Table)
    ensures
        r@ == merged(layer_views(layers@)),
{
    let mut out = Table::new();
    let mut i: usize = 0;
    proof {
        assert(layer_views(layers@).take(0) =~= Seq::<Map<Seq<char>, TomlView>>::empty());
    }
    while i < layers.len()
        invariant
            i <= layers.len(),
            out@ == merged(layer_views(layers@).take(i as int)),
        decreases layers.len() - i,
    {
        proof {
            let next = layer_views(layers@).take(i + 1);
            assert(next.drop_last() =~= layer_views(layers@).take(i as int));
            assert(next.last() == layers[i as int]@);
        }
        out.extend(layers[i].clone());
        i += 1;
    }
    proof {
        assert(layer_views(layers@).take(layers.len() as int) =~= layer_views(layers@));
    }
    out
}

/// What an invocation knows: where the repository is, the variables of the
/// environment and of the configuration, the user's own overrides and the
/// active profile.
#[derive(Debug)]
pub struct Context {
    pub working_dir: String,
    /// The variables of the environment, overridden by the configuration's.
    pub variables: Table,
    /// The user's own overrides.
    pub user_variables: Table,
    pub profile: Option<Profile>,
}

impl Clone for Context {
    fn clone(&self) -> (r: Self)
        ensures
            r.working_dir@ == self.working_dir@,
            r.variables@ == self.variables@,
            r.user_variables@ == self.user_variables@,
            profile_layer(r.profile) == profile_layer(self.profile),
            r.profile is Some == self.profile is Some,
            r.profile is Some ==> r.profile->0@ == self.profile->0@,
    {
        let profile = match &self.profile {
            Some(p) => Some(p.clone()),
            None => None,
        };
        Context {
            working_dir: self.working_dir.clone(),
            variables: self.variables.clone(),
            user_variables: self.user_variables.clone(),
            profile,
        }
    }
}

/// The variables of the active profile; none without a profile.
pub open spec fn profile_layer(profile: Option<Profile>) -> Map<Seq<char>, TomlView> {
    match profile {
        Some(p) => p.variables@,
        None => Map::empty(),
    }
}

/// A table with each name of the environment as a string value. Where a name
/// occurs twice the last value stands.
pub open spec fn env_table(env: Seq<(String, String)>) -> Map<Seq<char>, TomlView>
    decreases env.len(),
{
    if env.len() == 0 {
        Map::empty()
    } else {
        env_table(env.drop_last()).insert(env.last().0@, TomlView::String(env.last().1@))
    }
}

impl Context {
    /// The view of the context without a package: environment and
    /// configuration, then the profile, then the user's overrides.
    pub open spec fn spec_context_variables(&self) -> Map<Seq<char>, TomlView> {
        merged(
            seq![self.variables@, profile_layer(self.profile), self.user_variables@],
        )
    }

    /// A context for the repository at `working_dir`, with the variables of
    /// the environment as its lowest layer, the user's overrides as its
    /// highest, and no profile.
    pub fn new(working_dir: &str, env: Vec<(String, String)>, user_variables: Table) -> (r: Self)
        ensures
            r.working_dir@ == working_dir@,
            r.variables@ == env_table(env@),
            r.user_variables@ == user_variables@,
            r.profile is None,
    {
        let mut variables = Table::new();
        let ghost all = env@;
        proof {
            assert(all.take(0) =~= Seq::<(String, String)>::empty());
        }
        for pair in it: env
            invariant
                it.seq() == all,
                variables@ == env_table(all.take(it.index() as int)),
        {
            proof {
                assert(all.take(it.index() + 1).drop_last() =~= all.take(it.index() as int));
            }
            let (key, value) = pair;
            variables.insert(key, TomlValue::String(value));
        }
        proof {
            assert(all.take(all.len() as int) =~= all);
        }
        Context { working_dir: working_dir.to_owned(), variables, user_variables, profile: None }
    }

    /// The value of a variable of the environment or the configuration.
    pub fn get_variable(&self, key: &str) -> (r: Option<&TomlValue>)
        ensures
            match r {
                Some(v) => self.variables@.dom().contains(key@) && v@
                    == self.variables@[key@],
                None => !self.variables@.dom().contains(key@),
            },
    {
        self.variables.get(key)
    }

    /// The value of one of the user's overrides.
    pub fn get_user_variable(&self, key: &str) -> (r: Option<&TomlValue>)
        ensures
            match r {
                Some(v) => self.user_variables@.dom().contains(key@) && v@
                    == self.user_variables@[key@],
                None => !self.user_variables@.dom().contains(key@),
            },
    {
        self.user_variables.get(key)
    }

    /// The value of a variable of the active profile.
    pub fn get_profile_variable(&self, key: &str) -> (r: Option<&TomlValue>)
        ensures
            match r {
                Some(v) => profile_layer(self.profile).dom().contains(key@) && v@ == profile_layer(
                    self.profile,
                )[key@],
                None => !profile_layer(self.profile).dom().contains(key@),
            },
    {
        match &self.profile {
            Some(profile) => profile.variables.get(key),
            None => None,
        }
    }

    /// The value of a variable in the view of the context: the user's
    /// override, else the profile's value, else that of the environment and
    /// the configuration.
    pub fn get_context_variable(&self, key: &str) -> (r: Option<&TomlValue>)
        ensures
            match r {
                Some(v) => self.spec_context_variables().dom().contains(key@) && v@
                    == self.spec_context_variables()[key@],
                None => !self.spec_context_variables().dom().contains(key@),
            },
    {
        proof {
            lemma_merged3(self.variables@, profile_layer(self.profile), self.user_variables@);
        }
        match self.get_user_variable(key) {
            Some(v) => Some(v),
            None => match self.get_profile_variable(key) {
                Some(v) => Some(v),
                None => self.get_variable(key),
            },
        }
    }

    /// Makes a profile the active one, or none.
    pub fn set_profile(&mut self, profile: Option<Profile>)
        ensures
            final(self).profile == profile,
            final(self).working_dir == old(self).working_dir,
            final(self).variables@ == old(self).variables@,
            final(self).user_variables@ == old(self).user_variables@,
    {
        self.profile = profile;
    }

    /// The environment and configuration layer.
    pub fn get_variables(&self) -> (r: &Table)
        ensures
            r@ == self.variables@,
    {
        &self.variables
    }

    /// The user's overrides.
    pub fn get_user_variables(&self) -> (r: &Table)
        ensures
            r@ == self.user_variables@,
    {
        &self.user_variables
    }

    /// The merged view of the context without a package.
    pub fn get_context_variables(&self) -> (r: Table)
        ensures
            r@ == self.spec_context_variables(),
    {
        proof {
            lemma_merged3(self.variables@, profile_layer(self.profile), self.user_variables@);
        }
        let mut out = self.variables.clone();
        match &self.profile {
            Some(profile) => {
                out.extend(profile.variables.clone());
            },
            None => {
                assert(out@.union_prefer_right(Map::<Seq<char>, TomlView>::empty()) =~= out@);
            },
        }
        out.extend(self.user_variables.clone());
        out
    }

    /// Lays the given variables over the environment and configuration layer.
    pub fn extend_variables(&mut self, new_vars: Table)
        ensures
            final(self).variables@ == old(self).variables@.union_prefer_right(new_vars@),
            final(self).user_variables@ == old(self).user_variables@,
            final(self).profile == old(self).profile,
            final(self).working_dir == old(self).working_dir,
    {
        self.variables.extend(new_vars);
    }

    /// Records a variable among the user's overrides.
    pub fn set_user_variable(&mut self, key: String, value: TomlValue)
        ensures
            final(self).user_variables@ == old(self).user_variables@.insert(
                key@,
                value@,
            ),
            final(self).variables@ == old(self).variables@,
            final(self).profile == old(self).profile,
            final(self).working_dir == old(self).working_dir,
    {
        self.user_variables.insert(key, value);
    }
}

/// Three layers merged are the first overridden by the second, then by the
/// third.
pub proof fn lemma_merged3(
    a: Map<Seq<char>, TomlView>,
    b: Map<Seq<char>, TomlView>,
    c: Map<Seq<char>, TomlView>,
)
    ensures
        merged(seq![a, b, c]) == a.union_prefer_right(b).union_prefer_right(c),
{
    let l3 = seq![a, b, c];
    let l2 = seq![a, b];
    let l1 = seq![a];
    assert(l3.drop_last() =~= l2);
    assert(l2.drop_last() =~= l1);
    assert(l1.drop_last() =~= Seq::<Map<Seq<char>, TomlView>>::empty());
    assert(merged(l1.drop_last()) =~= Map::<Seq<char>, TomlView>::empty());
    assert(merged(l1) =~= a);
    assert(merged(l2) == merged(l1).union_prefer_right(l2.last()));
    assert(merged(l3) == merged(l2).union_prefer_right(l3.last()));
}

/// Four layers merged are the first overridden by each of the others in
/// turn.
pub proof fn lemma_merged4(
    a: Map<Seq<char>, TomlView>,
    b: Map<Seq<char>, TomlView>,
    c: Map<Seq<char>, TomlView>,
    d: Map<Seq<char>, TomlView>,
)
    ensures
        merged(seq![a, b, c, d]) == a.union_prefer_right(b).union_prefer_right(
            c,
        ).union_prefer_right(d),
{
    let l4 = seq![a, b, c, d];
    assert(l4.drop_last() =~= seq![a, b, c]);
    lemma_merged3(a, b, c);
    assert(merged(l4) == merged(l4.drop_last()).union_prefer_right(l4.last()));
}

/// The prompts whose variable is not known yet, in their order: the name
/// of each variable with the message to ask for it.
pub open spec fn unanswered(
    prompts: Seq<(Seq<char>, String)>,
    known: Set<Seq<char>>,
) -> Seq<(Seq<char>, Seq<char>)>
    decreases prompts.len(),
{
    if prompts.len() == 0 {
        Seq::empty()
    } else if known.contains(prompts.last().0) {
        unanswered(prompts.drop_last(), known)
    } else {
        unanswered(prompts.drop_last(), known).push((prompts.last().0, prompts.last().1@))
    }
}

/// The views of a list of pairs of strings.
pub open spec fn pairs_view(v: Seq<(String, String)>) -> Seq<(Seq<char>, Seq<char>)> {
    Seq::new(v.len(), |i: int| (v[i].0@, v[i].1@))
}

/// The prompts that are still to be asked: those whose variable the known
/// variables do not hold.
pub fn pending_prompts(prompts: &StrMap<String>, known: &Table) -> (r: Vec<(String, String)>)
    ensures
        pairs_view(r@) == unanswered(prompts.entries(), known@.dom()),
{
    let n: usize = prompts.len();
    let mut out: Vec<(String, String)> = Vec::new();
    let mut i: usize = 0;
    proof {
        assert(prompts.entries().take(0) =~= Seq::<(Seq<char>, String)>::empty());
        assert(pairs_view(out@) =~= unanswered(prompts.entries().take(0), known@.dom()));
    }
    while i < n
        invariant
            i <= n,
            n == prompts.entries().len(),
            pairs_view(out@) == unanswered(prompts.entries().take(i as int), known@.dom()),
        decreases n - i,
    {
        let key = prompts.key_at(i);
        let message = prompts.value_at(i);
        proof {
            assert(prompts.entries().take(i + 1).drop_last() =~= prompts.entries().take(i as int));
        }
        if !known.contains_key(key.as_str()) {
            let ghost before = out@;
            out.push((key.clone(), message.clone()));
            assert(pairs_view(out@) =~= pairs_view(before).push((key@, message@)));
        }
        i += 1;
    }
    proof {
        assert(prompts.entries().take(n as int) =~= prompts.entries());
    }
    out
}

impl Context {
    /// The user's variables as their file holds them. A repository without
    /// the file (`None`) has none; text that is no TOML document is a parse
    /// error.
    pub fn parse_uservariables(content: Option<&str>) -> (r: Result<Table, DotrError>)
        ensures
            match content {
                None => r is Ok && r->Ok_0@ == Map::<Seq<char>, TomlView>::empty(),
                Some(text) => match r {
                    Ok(t) => toml_document(text@) == Some(t@),
                    Err(e) => toml_document(text@) is None && e@ is ConfigParseError,
                },
            },
    {
        match content {
            None => Ok(Table::new()),
            Some(text) => parse_table(text),
        }
    }

    /// The prompts that are still to be asked in this context: those whose
    /// variable no layer holds.
    pub fn get_prompted_variables(&self, prompts: &StrMap<String>) -> (r: Vec<(String, String)>)
        ensures
            pairs_view(r@) == unanswered(prompts.entries(), self.spec_context_variables().dom()),
    {
        let known = self.get_context_variables();
        pending_prompts(prompts, &known)
    }

    /// Records the answer to a prompt among the user's overrides.
    pub fn answer_prompt(&mut self, key: String, answer: String)
        ensures
            final(self).user_variables@ == old(self).user_variables@.insert(
                key@,
                TomlView::String(answer@),
            ),
            final(self).variables@ == old(self).variables@,
            final(self).profile == old(self).profile,
            final(self).working_dir == old(self).working_dir,
    {
        self.set_user_variable(key, TomlValue::String(answer));
    }
}

/// The indentation of a level: two spaces for each.
pub open spec fn indent(level: nat) -> Seq<char>
    decreases level,
{
    if level == 0 {
        Seq::empty()
    } else {
        indent((level - 1) as nat) + "  "@
    }
}

/// The indentation of a level.
pub fn indentation(level: usize) -> (r: String)
    ensures
        r@ == indent(level as nat),
{
    let mut out = String::new();
    let mut i: usize = 0;
    while i < level
        invariant
            i <= level,
            out@ == indent(i as nat),
        decreases level - i,
    {
        out.append("  ");
        i += 1;
    }
    out
}

/// The lines that print a variable at a level of indentation.
pub fn print_variable(key: &str, value: &TomlValue, level: usize) -> (r: Vec<String>)
    ensures
        strings_view(r@) == value_lines(key@, value, indent(level as nat)),
{
    let ind = indentation(level);
    variable_lines(key, value, ind.as_str())
}

/// The lines that report the variables of a table: a heading, then the
/// variables one level deep, or a line that says there are none.
pub open spec fn report_lines(variables: &Table) -> Seq<Seq<char>> {
    if variables@ == Map::<Seq<char>, TomlView>::empty() {
        seq!["User Variables:"@, "  (none)"@]
    } else {
        seq!["User Variables:"@] + table_lines(variables, indent(1))
    }
}

/// The lines that report the variables of a table.
pub fn variables_report(variables: &Table) -> (r: Vec<String>)
    ensures
        strings_view(r@) == report_lines(variables),
{
    let mut lines: Vec<String> = Vec::new();
    lines.push("User Variables:".to_owned());
    if variables.is_empty() {
        lines.push("  (none)".to_owned());
        assert(strings_view(lines@) =~= report_lines(variables));
    } else {
        let ind = indentation(1);
        let mut more = table_lines_of(variables, ind.as_str());
        let ghost head = lines@;
        let ghost tail = more@;
        lines.append(&mut more);
        assert(strings_view(lines@) =~= strings_view(head) + strings_view(tail));
        assert(strings_view(head) =~= seq!["User Variables:"@]);
    }
    lines
}

impl Context {
    /// The lines that report the variables of the context, merged.
    pub fn print_variables(&self) -> (r: Vec<String>)
        ensures
            exists|merged: Table|
                merged@ == self.spec_context_variables() && strings_view(r@) == #[trigger] report_lines(
                    &merged,
                ),
    {
        let merged = self.get_context_variables();
        let lines = variables_report(&merged);
        assert(strings_view(lines@) == report_lines(&merged));
        lines
    }
}

} // verus!
