//! The commands of the tool and what each of them needs.

use vstd::prelude::*;
use crate::error::{DotrError, ErrorView};
use crate::profile::Profile;

verus! {

/// What the command line asks for.
#[derive(Debug)]
pub struct Cli {
    pub command: Option<Command>,
    /// The repository directory; the current directory where there is none.
    pub working_dir: Option<String>,
}

/// A command of the tool.
#[derive(Debug)]
pub enum Command {
    Init(InitArgs),
    Import(ImportArgs),
    Deploy(DeployUpdateArgs),
    Update(DeployUpdateArgs),
    Diff(DeployUpdateArgs),
    PrintVars(PrintVarsArgs),
}

/// The arguments of `init`: none.
#[derive(Debug)]
pub struct InitArgs {}

/// The arguments of `print-vars`.
#[derive(Debug)]
pub struct PrintVarsArgs {
    pub profile: Option<String>,
}

/// The arguments of `import`.
#[derive(Debug)]
pub struct ImportArgs {
    /// The live path to import.
    pub path: String,
    pub profile: Option<String>,
}

/// The arguments of `deploy`, `update` and `diff`.
#[derive(Debug)]
pub struct DeployUpdateArgs {
    /// The packages named explicitly.
    pub packages: Option<Vec<String>>,
    pub profile: Option<String>,
}

impl Command {
    /// The profile that the command names, if it names one.
    pub open spec fn spec_profile(&self) -> Option<String> {
        match self {
            Command::Init(_) => None,
            Command::Import(a) => a.profile,
            Command::Deploy(a) => a.profile,
            Command::Update(a) => a.profile,
            Command::Diff(a) => a.profile,
            Command::PrintVars(a) => a.profile,
        }
    }

    /// The profile that the command names, if it names one.
    pub fn profile(&self) -> (r: &Option<String>)
        ensures
            *r == self.spec_profile(),
    {
        match self {
            Command::Init(_) => &None,
            Command::Import(a) => &a.profile,
            Command::Deploy(a) => &a.profile,
            Command::Update(a) => &a.profile,
            Command::Diff(a) => &a.profile,
            Command::PrintVars(a) => &a.profile,
        }
    }

    /// Whether a profile that the command names must be configured: every
    /// command but `import`, which creates a profile that is missing, and
    /// `init`.
    pub fn requires_known_profile(&self) -> (r: bool)
        ensures
            r == !(self is Init || self is Import),
    {
        match self {
            Command::Init(_) => false,
            Command::Import(_) => false,
            _ => true,
        }
    }
}

impl Cli {
    /// Whether the command creates the repository: only `init` may run in a
    /// directory that does not exist yet.
    pub fn creates_repository(&self) -> (r: bool)
        ensures
            r == (self.command matches Some(Command::Init(_))),
    {
        match &self.command {
            Some(Command::Init(_)) => true,
            _ => false,
        }
    }

    /// Whether the command reads the configuration: every command but
    /// `init`.
    pub fn needs_config(&self) -> (r: bool)
        ensures
            r == (self.command is Some && !(self.command matches Some(Command::Init(_)))),
    {
        match &self.command {
            Some(Command::Init(_)) => false,
            Some(_) => true,
            None => false,
        }
    }
}

/// A profile that was named must have been found.
pub fn validate_profile_exists(profile_name: &Option<String>, profile: &Option<Profile>) -> (r:
    Result<(), DotrError>)
    ensures
        match r {
            Ok(_) => profile_name is None || profile is Some,
            Err(e) => profile_name is Some && profile is None && e@ == ErrorView::ProfileNotFound(
                profile_name->0@,
            ),
        },
{
    match profile_name {
        Some(name) => match profile {
            Some(_) => Ok(()),
            None => Err(DotrError::ProfileNotFound(name.clone())),
        },
        None => Ok(()),
    }
}

} // verus!
