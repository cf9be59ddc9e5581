//! The errors that the library reports.

use vstd::prelude::*;
use crate::text::{concat3, decimal, decimal_string};

verus! {

/// Why an operation stopped.
#[derive(Debug, PartialEq)]
pub enum DotrError {
    /// A selected package, or one that a profile names, is not configured.
    PackageNotFound(String),
    /// A dependency of a selected package is not configured.
    DependencyNotFound(String),
    /// The named profile is not configured.
    ProfileNotFound(String),
    /// A pre- or post-action ended with a status other than zero, or was
    /// ended by a signal (no exit code).
    ActionFailed { command: String, exit_code: Option<i32> },
    /// A template could not be rendered.
    RenderError(String),
    /// A stale backup could not be removed, or the rename failed.
    BackupConflict(String),
    /// Reading, writing or copying failed.
    IoError(String),
    /// The configuration file does not exist.
    ConfigNotFound,
    /// The configuration is not valid TOML or lacks a field.
    ConfigParseError(String),
}

/// The content of an error.
pub ghost enum ErrorView {
    PackageNotFound(Seq<char>),
    DependencyNotFound(Seq<char>),
    ProfileNotFound(Seq<char>),
    ActionFailed { command: Seq<char>, exit_code: Option<i32> },
    RenderError(Seq<char>),
    BackupConflict(Seq<char>),
    IoError(Seq<char>),
    ConfigNotFound,
    ConfigParseError(Seq<char>),
}

impl View for DotrError {
    type V = ErrorView;

    open spec fn view(&self) -> ErrorView {
        match self {
            DotrError::PackageNotFound(n) => ErrorView::PackageNotFound(n@),
            DotrError::DependencyNotFound(n) => ErrorView::DependencyNotFound(n@),
            DotrError::ProfileNotFound(n) => ErrorView::ProfileNotFound(n@),
            DotrError::ActionFailed { command, exit_code } => ErrorView::ActionFailed {
                command: command@,
                exit_code: *exit_code,
            },
            DotrError::RenderError(m) => ErrorView::RenderError(m@),
            DotrError::BackupConflict(m) => ErrorView::BackupConflict(m@),
            DotrError::IoError(m) => ErrorView::IoError(m@),
            DotrError::ConfigNotFound => ErrorView::ConfigNotFound,
            DotrError::ConfigParseError(m) => ErrorView::ConfigParseError(m@),
        }
    }
}

/// How an exit code is written: `Some(code)`, or `None` for an action that
/// a signal ended.
pub open spec fn exit_code_text(code: Option<i32>) -> Seq<char> {
    match code {
        Some(c) => "Some("@ + decimal(c as int) + ")"@,
        None => "None"@,
    }
}

impl ErrorView {
    /// The message that reports the error to the user.
    pub open spec fn message(self) -> Seq<char> {
        match self {
            ErrorView::PackageNotFound(n) => "Package '"@ + n + "' not found in configuration"@,
            ErrorView::DependencyNotFound(n) => "Dependency package '"@ + n
                + "' not found in configuration"@,
            ErrorView::ProfileNotFound(n) => "Profile '"@ + n + "' not found in configuration"@,
            ErrorView::ActionFailed { command, exit_code } => "Action '"@ + command
                + "' failed to execute with exit code: "@ + exit_code_text(exit_code),
            ErrorView::RenderError(m) => "Failed to render template: "@ + m,
            ErrorView::BackupConflict(m) => "Failed to back up: "@ + m,
            ErrorView::IoError(m) => m,
            ErrorView::ConfigNotFound => "config.toml not found in the working directory"@,
            ErrorView::ConfigParseError(m) => "Failed to parse configuration: "@ + m,
        }
    }
}

impl DotrError {
    /// The message that reports the error to the user. It names the
    /// package, path or command involved.
    pub fn message(&self) -> (r: String)
        ensures
            r@ == self@.message(),
    {
        match self {
            DotrError::PackageNotFound(n) => concat3(
                "Package '",
                n.as_str(),
                "' not found in configuration",
            ),
            DotrError::DependencyNotFound(n) => concat3(
                "Dependency package '",
                n.as_str(),
                "' not found in configuration",
            ),
            DotrError::ProfileNotFound(n) => concat3(
                "Profile '",
                n.as_str(),
                "' not found in configuration",
            ),
            DotrError::ActionFailed { command, exit_code } => {
                let mut out = concat3(
                    "Action '",
                    command.as_str(),
                    "' failed to execute with exit code: ",
                );
                match exit_code {
                    Some(c) => {
                        let code = decimal_string(*c as i64);
                        out.append("Some(");
                        out.append(code.as_str());
                        out.append(")");
                    },
                    None => {
                        out.append("None");
                    },
                }
                out
            },
            DotrError::RenderError(m) => {
                let mut out = "Failed to render template: ".to_owned();
                out.append(m.as_str());
                out
            },
            DotrError::BackupConflict(m) => {
                let mut out = "Failed to back up: ".to_owned();
                out.append(m.as_str());
                out
            },
            DotrError::IoError(m) => m.clone(),
            DotrError::ConfigNotFound => "config.toml not found in the working directory".to_owned(),
            DotrError::ConfigParseError(m) => {
                let mut out = "Failed to parse configuration: ".to_owned();
                out.append(m.as_str());
                out
            },
        }
    }
}

} // verus!
