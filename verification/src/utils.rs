//! Paths, the backup extension and log levels.

use vstd::prelude::*;
use crate::text::{
    chars_of, concat2, concat3, find_char, first_index_of, has_prefix, join_path, joined,
    lemma_first_index_of, str_eq, starts_with_char,
};

verus! {

/// Extension appended to a live path to name its backup.
pub const BACKUP_EXT: &'static str = "dotrbak";

/// Terminal colour of a warning: yellow.
pub const COLOR_WARNING: &'static str = "\x1b[33m";

/// Terminal colour of an error: red.
pub const COLOR_ERROR: &'static str = "\x1b[31m";

/// Terminal colour of a notice: blue.
pub const COLOR_INFO: &'static str = "\x1b[34m";

/// Terminal colour of a fatal error: magenta.
pub const COLOR_FATAL: &'static str = "\x1b[35m";

/// Ends a terminal colour.
pub const RESET_COLOR: &'static str = "\x1b[0m";

/// How grave a message is.
#[derive(Debug, Clone, Copy, PartialEq, Eq, Structural)]
pub enum LogLevel {
    WARNING,
    ERROR,
    INFO,
    FATAL,
}

impl LogLevel {
    /// The name of the level.
    pub open spec fn name(self) -> Seq<char> {
        match self {
            LogLevel::WARNING => "WARNING"@,
            LogLevel::ERROR => "ERROR"@,
            LogLevel::INFO => "INFO"@,
            LogLevel::FATAL => "FATAL"@,
        }
    }

    /// The terminal colour of the level.
    pub open spec fn color(self) -> Seq<char> {
        match self {
            LogLevel::WARNING => COLOR_WARNING@,
            LogLevel::ERROR => COLOR_ERROR@,
            LogLevel::INFO => COLOR_INFO@,
            LogLevel::FATAL => COLOR_FATAL@,
        }
    }

    /// Whether messages of the level go to the error stream.
    pub fn is_error(&self) -> (r: bool)
        ensures
            r == (*self == LogLevel::ERROR || *self == LogLevel::FATAL),
    {
        match self {
            LogLevel::ERROR | LogLevel::FATAL => true,
            LogLevel::WARNING | LogLevel::INFO => false,
        }
    }

    /// The name of the level.
    pub fn as_str(&self) -> (r: &str)
        ensures
            r@ == self.name(),
    {
        match self {
            LogLevel::WARNING => "WARNING",
            LogLevel::ERROR => "ERROR",
            LogLevel::INFO => "INFO",
            LogLevel::FATAL => "FATAL",
        }
    }

    /// The name in square brackets, in the colour of the level.
    pub fn to_colorful_str(&self) -> (r: String)
        ensures
            r@ == self.color() + "["@ + self.name() + "]"@ + RESET_COLOR@,
    {
        let color = match self {
            LogLevel::WARNING => COLOR_WARNING,
            LogLevel::ERROR => COLOR_ERROR,
            LogLevel::INFO => COLOR_INFO,
            LogLevel::FATAL => COLOR_FATAL,
        };
        let mut out = concat3(color, "[", self.as_str());
        out.append("]");
        out.append(RESET_COLOR);
        out
    }
}

/// The line that reports a message at a level: the coloured level, a space
/// and the message.
pub fn log_line(message: &str, level: &LogLevel) -> (r: String)
    ensures
        r@ == level.color() + "["@ + level.name() + "]"@ + RESET_COLOR@ + " "@ + message@,
{
    let mut out = level.to_colorful_str();
    out.append(" ");
    out.append(message);
    out
}

/// Whether a path is absolute: it starts with `/`.
pub open spec fn is_absolute(path: Seq<char>) -> bool {
    path.len() > 0 && path[0] == '/'
}

/// A directory with a separator at its end.
pub open spec fn with_separator(dir: Seq<char>) -> Seq<char> {
    if dir.len() > 0 && dir.last() == '/' {
        dir
    } else {
        dir + seq!['/']
    }
}

/// The path that a path of the configuration stands for: itself where it
/// starts with `/`; below `home` where it starts with `~`, whose first
/// segment is dropped (`~/` alone is `home` with its separator); below `cwd`
/// otherwise.
pub open spec fn resolved_path(path: Seq<char>, cwd: Seq<char>, home: Seq<char>) -> Seq<char> {
    if path.len() > 0 && path[0] == '/' {
        path
    } else if path.len() > 0 && path[0] == '~' {
        if first_index_of(path, '/') < path.len() {
            if first_index_of(path, '/') + 1 == path.len() {
                with_separator(home)
            } else {
                joined(home, path.skip(first_index_of(path, '/') + 1))
            }
        } else {
            home
        }
    } else {
        joined(cwd, path)
    }
}

/// Resolves a path of the configuration against the repository directory
/// and the home directory. The result is absolute where both of them are.
pub fn resolve_path(path: &str, cwd: &str, home: &str) -> (r: String)
    ensures
        r@ == resolved_path(path@, cwd@, home@),
        is_absolute(cwd@) && is_absolute(home@) ==> is_absolute(r@),
{
    if starts_with_char(path, '/') {
        path.to_owned()
    } else if starts_with_char(path, '~') {
        let cs = chars_of(path);
        let slash = find_char(&cs, '/');
        if slash < cs.len() {
            if slash + 1 == cs.len() {
                let hs = chars_of(home);
                if hs.len() > 0 && hs[hs.len() - 1] == '/' {
                    home.to_owned()
                } else {
                    proof {
                        reveal_strlit("/");
                        assert("/"@ =~= seq!['/']);
                    }
                    concat2(home, "/")
                }
            } else {
                let rest = path.substring_char(slash + 1, cs.len());
                assert(rest@ =~= path@.skip(slash + 1));
                join_path(home, rest)
            }
        } else {
            home.to_owned()
        }
    } else {
        join_path(cwd, path)
    }
}

/// Round trip through the home directory: a path `~/rest` resolves to a
/// path that `normalize_home_path` writes as `~/rest` again, where the home
/// directory is absolute, is not `/` and has no separator at its end, and
/// `rest` does not start with `/`.
pub proof fn lemma_home_round_trip(rest: Seq<char>, cwd: Seq<char>, home: Seq<char>)
    requires
        is_absolute(home),
        home.len() > 1,
        home.last() != '/',
        rest.len() == 0 || rest[0] != '/',
    ensures
        normalized_home_path(resolved_path(seq!['~', '/'] + rest, cwd, home), Some(home)) == seq![
            '~',
            '/',
        ] + rest,
{
    let path = seq!['~', '/'] + rest;
    lemma_first_index_of(path, '/', 1);
    let resolved = resolved_path(path, cwd, home);
    assert(path.skip(2) =~= rest);
    assert(resolved =~= home + seq!['/'] + rest);
    assert(resolved[0] == home[0]);
    assert((home + seq!['/']).is_prefix_of(resolved)) by {
        assert(resolved.subrange(0, home.len() as int + 1) =~= home + seq!['/']);
    }
    assert(resolved.skip(home.len() as int) =~= seq!['/'] + rest);
    assert(seq!['~'] + (seq!['/'] + rest) =~= path);
}

/// The path with the home directory written as `~`: a path that is the home
/// directory, or lies below it, starts with `~` in place of it; any other
/// path, and any path without a known home directory, is unchanged.
pub open spec fn normalized_home_path(path: Seq<char>, home: Option<Seq<char>>) -> Seq<char> {
    if path.len() > 0 && path[0] == '~' {
        path
    } else {
        match home {
            Some(h) => if path == h {
                seq!['~']
            } else if (h + seq!['/']).is_prefix_of(path) {
                seq!['~'] + path.skip(h.len() as int)
            } else {
                path
            },
            None => path,
        }
    }
}

/// Writes a path with `~` for the home directory where it lies in it.
pub fn normalize_home_path(path: &str, home: Option<&str>) -> (r: String)
    ensures
        r@ == normalized_home_path(path@, option_view(home)),
{
    proof {
        reveal_strlit("~");
        reveal_strlit("/");
        assert("~"@ =~= seq!['~']);
        assert("/"@ =~= seq!['/']);
    }
    if starts_with_char(path, '~') {
        return path.to_owned();
    }
    match home {
        Some(h) => {
            if str_eq(path, h) {
                return "~".to_owned();
            }
            let with_slash = concat2(h, "/");
            let p = chars_of(path);
            let w = chars_of(with_slash.as_str());
            if has_prefix(&p, &w) {
                let rest = path.substring_char(w.len() - 1, p.len());
                assert(rest@ =~= path@.skip(h@.len() as int));
                concat2("~", rest)
            } else {
                path.to_owned()
            }
        },
        None => path.to_owned(),
    }
}

/// The view of an optional text.
pub open spec fn option_view(s: Option<&str>) -> Option<Seq<char>> {
    match s {
        Some(t) => Some(t@),
        None => None,
    }
}

} // verus!
