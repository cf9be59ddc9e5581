//! Template detection and rendering.

use vstd::prelude::*;
use crate::codec::table_to_toml;
use crate::text::chars_of;
use crate::error::{DotrError, ErrorView};
use crate::value::{is_plain_table, is_plain_text, plain_table, plain_text, Table, TomlView};

verus! {

/// A regular expression that finds a template marker: the start or the end
/// of an expression `{{ }}`, a statement `{% %}` or a comment `{# #}`, each
/// with or without the trimming `-`.
pub const TEMPLATE_PATTERN: &'static str = r"(\{\{[-]?|[-]?\}\}|\{[%][-]?|[-]?%\}|\{[#][-]?|[-]?#\})";

/// Whether the regular expression `pattern` matches somewhere in `text`;
/// `None` where `pattern` is no regular expression. It stands for what
/// `regex::Regex::new` and `regex::Regex::is_match` return.
pub uninterp spec fn regex_search(pattern: Seq<char>, text: Seq<char>) -> Option<bool>;

/// Compiles `pattern` with `regex::Regex::new` and searches `text` with
/// `regex::Regex::is_match`. The contract names the result, which depends
/// on the two texts alone.
#[verifier::external_body]
fn regex_is_match(pattern: &str, text: &str) -> (r: Option<bool>)
    ensures
        r == regex_search(pattern@, text@),
{
    match regex::Regex::new(pattern) {
        Ok(re) => Some(re.is_match(text)),
        Err(_) => None,
    }
}

/// Whether a match decides that a text is templated.
pub open spec fn found(search: Option<bool>) -> bool {
    search == Some(true)
}

/// Whether the text holds a template marker.
pub fn is_templated_str(s: &str) -> (r: bool)
    ensures
        r == found(regex_search(TEMPLATE_PATTERN@, s@)),
{
    pattern_found(TEMPLATE_PATTERN, s)
}

/// Whether the content of a file is templated. A file that is not text
/// (`None`) is not: it is copied byte for byte.
pub fn is_templated(content: Option<&str>) -> (r: bool)
    ensures
        r == match content {
            Some(s) => found(regex_search(TEMPLATE_PATTERN@, s@)),
            None => false,
        },
{
    match content {
        Some(s) => is_templated_str(s),
        None => false,
    }
}

/// Renders `template` with `tera::Tera::one_off`, with or without
/// escaping, against the context that `tera::Context::from_serialize` makes
/// of the copy of the variables. The error is the message of the copy that
/// failed or of the `tera::Error`, as its `Display` writes it.
///
/// tera unwinds or does not return on some templates: on arithmetic with
/// floats, on some filters and functions, on a template that includes
/// itself or defines a macro that calls itself, on a `for` over a string
/// where two characters form one grapheme. `requires` leaves them out by
/// admitting only templates of a small language, whose tags are a variable
/// by its path, `if`, `elif`, `else`, `endif` on paths and their
/// comparison with a path or a string, `for` over a path, `endfor`, and
/// comments; with at most `MAX_TAGS` statements, which bounds their
/// nesting; and with a `for` only where every text it could run over is
/// plain. Such a template calls no function, so it reads neither clock nor
/// environment: its text depends on the template, the variables and the
/// escaping alone, and the contract names it. Of the message of a failure
/// nothing is claimed.
///
/// The crate is built without tera's `builtins` feature, whose filters and
/// functions the small language does not have either.
#[verifier::external_body]
fn tera_one_off(template: &str, variables: &Table, autoescape: bool) -> (r: Result<String, String>)
    requires
        renderable(template@, variables),
    ensures
        match r {
            Ok(text) => tera_text(template@, variables@, autoescape) == Some(text@),
            Err(_) => tera_text(template@, variables@, autoescape) is None,
        },
{
    let context = tera::Context::from_serialize(table_to_toml(variables)?).map_err(|e| e.to_string())?;
    tera::Tera::one_off(template, &context, autoescape).map_err(|e| e.to_string())
}

/// A regular expression that finds the start of a `for` statement.
pub const LOOP_PATTERN: &'static str = r"\{%-?\s*for\s";

/// A regular expression that matches a whole template of the small language
/// that is rendered. Between its tags any text stands that starts no tag.
/// Its tags are, each with or without the trimming `-`:
/// a variable by its path, `{{ a.b }}`;
/// `{% if c %}` and `{% elif c %}`, where `c` is up to eight paths, each
/// with or without `not` before it and `==` or `!=` and a path or a string
/// in double quotes after it, joined by `and` and `or`;
/// `{% else %}`, `{% endif %}`, `{% endfor %}`;
/// `{% for x in a.b %}` and `{% for k, v in a.b %}`;
/// and comments `{# .. #}`.
/// A path is a name that starts with a letter, then names or numbers after
/// dots.
pub const SAFE_PATTERN: &'static str = r#"^(?:[^{]|\{[^{%#]|\{\{-?[ \t\r\n]*[A-Za-z][A-Za-z0-9_]*(?:\.[A-Za-z0-9_]+)*[ \t\r\n]*-?\}\}|\{%-?[ \t\r\n]*(?:if|elif)[ \t\r\n]+(?:not[ \t\r\n]+)?[A-Za-z][A-Za-z0-9_]*(?:\.[A-Za-z0-9_]+)*(?:[ \t\r\n]*(?:==|!=)[ \t\r\n]*(?:[A-Za-z][A-Za-z0-9_]*(?:\.[A-Za-z0-9_]+)*|"[A-Za-z0-9 _.,:;/@+=~-]*"))?(?:[ \t\r\n]+(?:and|or)[ \t\r\n]+(?:not[ \t\r\n]+)?[A-Za-z][A-Za-z0-9_]*(?:\.[A-Za-z0-9_]+)*(?:[ \t\r\n]*(?:==|!=)[ \t\r\n]*(?:[A-Za-z][A-Za-z0-9_]*(?:\.[A-Za-z0-9_]+)*|"[A-Za-z0-9 _.,:;/@+=~-]*"))?){0,7}[ \t\r\n]*-?%\}|\{%-?[ \t\r\n]*(?:else|endif|endfor)[ \t\r\n]*-?%\}|\{%-?[ \t\r\n]*for[ \t\r\n]+[A-Za-z][A-Za-z0-9_]*(?:[ \t\r\n]*,[ \t\r\n]*[A-Za-z][A-Za-z0-9_]*)?[ \t\r\n]+in[ \t\r\n]+[A-Za-z][A-Za-z0-9_]*(?:\.[A-Za-z0-9_]+)*[ \t\r\n]*-?%\}|\{#(?:[^#]|#[^}])*#\})*\{?$"#;

/// The most statements that a template that is rendered may hold.
pub const MAX_TAGS: usize = 64;

/// The message for a template that is not rendered.
pub const NOT_RENDERABLE: &'static str =
    "the template uses more than variables, if, for and comments, or loops where a text is not plain ASCII";

/// The text that the templating engine renders for a template that is
/// rendered; `None` where it fails on it. It stands for what
/// `tera::Tera::one_off` returns.
pub uninterp spec fn tera_text(
    template: Seq<char>,
    variables: Map<Seq<char>, TomlView>,
    autoescape: bool,
) -> Option<Seq<char>>;

/// The number of places in a text where a statement starts: where `{%`
/// stands.
pub open spec fn tag_count(s: Seq<char>) -> nat
    decreases s.len(),
{
    if s.len() < 2 {
        0
    } else if s[s.len() - 2] == '{' && s[s.len() - 1] == '%' {
        tag_count(s.drop_last()) + 1
    } else {
        tag_count(s.drop_last())
    }
}

/// Whether a template is handed to the templating engine: it is of the
/// small language, it holds at most `MAX_TAGS` statements, and where it has
/// a `for` statement every text in reach of the loop is plain: the
/// template itself, the keys and the strings of the variables.
pub open spec fn renderable(template: Seq<char>, variables: &Table) -> bool {
    found(regex_search(SAFE_PATTERN@, template)) && tag_count(template) <= MAX_TAGS && (!found(
        regex_search(LOOP_PATTERN@, template),
    ) || (plain_text(template) && plain_table(variables)))
}

/// What rendering a template gives: the text of the engine for one that is
/// handed to it, nothing for one that is not or that the engine fails on.
pub open spec fn compiled(template: Seq<char>, variables: &Table) -> Option<Seq<char>> {
    if renderable(template, variables) {
        tera_text(template, variables@, false)
    } else {
        None
    }
}

/// Whether a text holds at most `limit` places where a statement starts.
fn tags_within(text: &str, limit: usize) -> (r: bool)
    ensures
        r == (tag_count(text@) <= limit),
{
    let cs = chars_of(text);
    let mut count: usize = 0;
    let mut i: usize = 1;
    proof {
        assert(cs@.take(1).len() < 2 || cs@.len() == 0);
    }
    if cs.len() < 2 {
        return true;
    }
    while i < cs.len()
        invariant
            1 <= i <= cs.len(),
            cs@ == text@,
            count <= limit,
            count == tag_count(cs@.take(i as int)),
        decreases cs.len() - i,
    {
        proof {
            let next = cs@.take(i + 1);
            assert(next.drop_last() =~= cs@.take(i as int));
            assert(next[next.len() - 2] == cs@[i - 1]);
            assert(next[next.len() - 1] == cs@[i as int]);
        }
        if cs[i - 1] == '{' && cs[i] == '%' {
            if count == limit {
                proof {
                    lemma_tag_count_grows(cs@, i + 1);
                }
                return false;
            }
            count += 1;
        }
        i += 1;
    }
    proof {
        assert(cs@.take(cs.len() as int) =~= cs@);
    }
    true
}

/// A text holds at least as many statements as each of its prefixes.
proof fn lemma_tag_count_grows(s: Seq<char>, n: int)
    requires
        0 <= n <= s.len(),
    ensures
        tag_count(s.take(n)) <= tag_count(s),
    decreases s.len() - n,
{
    if n < s.len() {
        lemma_tag_count_grows(s, n + 1);
        assert(s.take(n + 1).drop_last() =~= s.take(n));
    } else {
        assert(s.take(n) =~= s);
    }
}

/// Whether a template is handed to the templating engine.
pub fn is_renderable(template: &str, variables: &Table) -> (r: bool)
    ensures
        r == renderable(template@, variables),
{
    if !pattern_found(SAFE_PATTERN, template) || !tags_within(template, MAX_TAGS) {
        false
    } else if !pattern_found(LOOP_PATTERN, template) {
        true
    } else {
        is_plain_text(template) && is_plain_table(variables)
    }
}

/// Whether a regular expression matches somewhere in a text.
fn pattern_found(pattern: &str, text: &str) -> (r: bool)
    ensures
        r == found(regex_search(pattern@, text@)),
{
    match regex_is_match(pattern, text) {
        Some(b) => b,
        None => false,
    }
}

/// What rendering gave: the text, or the render error with the message of
/// the failure.
pub fn render_outcome(rendered: Result<String, String>) -> (r: Result<String, DotrError>)
    ensures
        match rendered {
            Ok(text) => r == Ok::<String, DotrError>(text),
            Err(message) => r == Err::<String, DotrError>(DotrError::RenderError(message)),
        },
{
    match rendered {
        Ok(text) => Ok(text),
        Err(message) => Err(DotrError::RenderError(message)),
    }
}

/// Renders a template against the variables, as plain string
/// interpolation: nothing is escaped. A template that is not renderable is
/// refused with a render error and not handed to the templating engine.
/// The text of one that is, is the text of the engine; a failure of the
/// engine is a render error.
pub fn compile_string(template_str: &str, context: &Table) -> (r: Result<String, DotrError>)
    ensures
        match r {
            Ok(text) => compiled(template_str@, context) == Some(text@),
            Err(e) => compiled(template_str@, context) is None && e is RenderError,
        },
        !renderable(template_str@, context) ==> r is Err && r->Err_0@ == ErrorView::RenderError(
            NOT_RENDERABLE@,
        ),
{
    if is_renderable(template_str, context) {
        render_outcome(tera_one_off(template_str, context, false))
    } else {
        Err(DotrError::RenderError(NOT_RENDERABLE.to_owned()))
    }
}

} // verus!
