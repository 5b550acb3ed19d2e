//! The session object: which history file to read, the cached line count,
//! and the frequency queries over the file's lines.
//!
//! Opening and reading the file itself is left to the caller; the methods
//! here take the file's lines and are verified from there on.

use vstd::prelude::*;
use vstd::string::StringExecFns;
use crate::freq::{
    FrequencyTable, invocation_freq, command_freq, views_of, is_top_n, invocation_frequency_of,
    command_frequency_of,
};

verus! {

/// How many keys `top_commands_and_invocations` reports per table.
pub const TOP_COUNT: usize = 5;

/// Why a history file could not be located or read.
#[derive(Debug, Clone)]
pub enum ShellError {
    /// The home directory could not be determined.
    FindError,
    /// The history file at the given path could not be opened.
    OpenError(String),
    /// A path was not representable as UTF-8 text.
    InvalidUTF8,
    /// A line of the history file could not be decoded.
    ReadError,
    /// The history file at the given path could not be parsed.
    ParseError(String),
    /// A just-computed line count was missing when read back.
    CountError,
}

impl PartialEq for ShellError {
    fn eq(&self, other: &ShellError) -> (r: bool) {
        match (self, other) {
            (ShellError::FindError, ShellError::FindError) => true,
            (ShellError::OpenError(a), ShellError::OpenError(b)) => crate::classify::str_eq(
                a.as_str(),
                b.as_str(),
            ),
            (ShellError::InvalidUTF8, ShellError::InvalidUTF8) => true,
            (ShellError::ReadError, ShellError::ReadError) => true,
            (ShellError::ParseError(a), ShellError::ParseError(b)) => crate::classify::str_eq(
                a.as_str(),
                b.as_str(),
            ),
            (ShellError::CountError, ShellError::CountError) => true,
            _ => false,
        }
    }
}

impl vstd::std_specs::cmp::PartialEqSpecImpl for ShellError {
    open spec fn obeys_eq_spec() -> bool {
        true
    }

    open spec fn eq_spec(&self, other: &ShellError) -> bool {
        match (self, other) {
            (ShellError::FindError, ShellError::FindError) => true,
            (ShellError::OpenError(a), ShellError::OpenError(b)) => a@ == b@,
            (ShellError::InvalidUTF8, ShellError::InvalidUTF8) => true,
            (ShellError::ReadError, ShellError::ReadError) => true,
            (ShellError::ParseError(a), ShellError::ParseError(b)) => a@ == b@,
            (ShellError::CountError, ShellError::CountError) => true,
            _ => false,
        }
    }
}

impl ShellError {
    /// A human-readable description of the failure.
    pub fn message(&self) -> (r: String)
        ensures
            self matches ShellError::FindError ==> r@ == "failed to find the home directory"@,
            self matches ShellError::OpenError(p) ==> r@ == "failed to open the history file `"@
                + p@ + "`"@,
            self matches ShellError::InvalidUTF8 ==> r@ == "filename contains invalid UTF-8"@,
            self matches ShellError::ReadError ==> r@ == "failed to read a line"@,
            self matches ShellError::ParseError(p) ==> r@ == "failed to parse the history file `"@
                + p@ + "`"@,
            self matches ShellError::CountError ==> r@
                == "for some reason, the command count failed"@,
    {
        match self {
            ShellError::FindError => String::from_str("failed to find the home directory"),
            ShellError::OpenError(p) => String::from_str(
                "failed to open the history file `",
            ).concat(p.as_str()).concat("`"),
            ShellError::InvalidUTF8 => String::from_str("filename contains invalid UTF-8"),
            ShellError::ReadError => String::from_str("failed to read a line"),
            ShellError::ParseError(p) => String::from_str(
                "failed to parse the history file `",
            ).concat(p.as_str()).concat("`"),
            ShellError::CountError => String::from_str("for some reason, the command count failed"),
        }
    }
}

/// Which shell's history file to read.
#[derive(Debug, Clone, Copy, PartialEq, Eq, Structural)]
pub enum ShellType {
    /// The `.zsh_history` file in the current user's home directory.
    Zsh,
    /// The `.bash_history` file in the current user's home directory.
    Bash,
}

/// Relies on dirs::home_dir: the home directory the platform reports, if
/// any; the inner option is `None` when that path is not valid UTF-8. The
/// result depends on the environment, so nothing is promised of it.
#[verifier::external_body]
fn home_dir_utf8() -> (r: Option<Option<String>>) {
    match dirs::home_dir() {
        None => None,
        Some(p) => Some(p.to_str().map(|s| s.to_string())),
    }
}

impl ShellType {
    /// The selector's name, as written on a command line.
    pub open spec fn name_spec(self) -> Seq<char> {
        match self {
            ShellType::Zsh => "zsh"@,
            ShellType::Bash => "bash"@,
        }
    }

    /// The name of this shell's history file.
    pub open spec fn history_file_name_spec(self) -> Seq<char> {
        match self {
            ShellType::Zsh => ".zsh_history"@,
            ShellType::Bash => ".bash_history"@,
        }
    }

    /// The path of this shell's history file under the home directory `home`.
    pub open spec fn history_path_spec(self, home: Seq<char>) -> Seq<char> {
        home + "/"@ + self.history_file_name_spec()
    }

    /// The selector's name, as written on a command line.
    pub fn name(&self) -> (r: &'static str)
        ensures
            r@ == self.name_spec(),
    {
        match self {
            ShellType::Zsh => "zsh",
            ShellType::Bash => "bash",
        }
    }

    /// The name of this shell's history file.
    pub fn history_file_name(&self) -> (r: &'static str)
        ensures
            r@ == self.history_file_name_spec(),
    {
        match self {
            ShellType::Zsh => ".zsh_history",
            ShellType::Bash => ".bash_history",
        }
    }

    /// The path of this shell's history file in the home directory the
    /// platform reports. Which directory that is depends on the
    /// environment, so the contract fixes only the path's shape, and the
    /// error kinds: the find-failure kind when no home directory is known,
    /// the encoding kind when it is not UTF-8 text.
    pub fn find_history_path(&self) -> (r: Result<String, ShellError>)
        ensures
            r matches Ok(p) ==> exists|home: Seq<char>| p@ == self.history_path_spec(home),
            r matches Err(e) ==> e == ShellError::FindError || e == ShellError::InvalidUTF8,
    {
        match home_dir_utf8() {
            None => Err(ShellError::FindError),
            Some(None) => Err(ShellError::InvalidUTF8),
            Some(Some(home)) => {
                let ghost h = home@;
                let mut p = home;
                p.append("/");
                p.append(self.history_file_name());
                proof {
                    assert(p@ == self.history_path_spec(h));
                }
                Ok(p)
            },
        }
    }
}

/// Where a session's history lines come from: a shell's standard history
/// file, or a custom file in the same one-line-per-command format.
pub enum HistorySource {
    StandardShell(ShellType),
    CustomPath(String),
}

/// One reporting session: the history source, and the line count cached by
/// the most recent counting query.
pub struct Shell {
    /// The source of the history lines.
    pub source: HistorySource,
    /// The number of lines found by the most recent call that counts them;
    /// `None` until such a call is made.
    pub invocation_count: Option<usize>,
}

impl Shell {
    /// Which history source this session reads.
    pub open spec fn history_source(&self) -> HistorySource {
        self.source
    }

    /// A session that reads a custom history file at `path`.
    pub fn from_custom(path: &str) -> (r: Shell)
        ensures
            r.history_source() matches HistorySource::CustomPath(p) && p@ == path@,
            r.invocation_count is None,
    {
        Shell { source: HistorySource::CustomPath(String::from_str(path)), invocation_count: None }
    }

    /// The path of the history file this session reads: a custom path as
    /// given, or the shell's standard path under the home directory.
    pub fn history_path(&self) -> (r: Result<String, ShellError>)
        ensures
            self.history_source() matches HistorySource::CustomPath(p) ==> (r matches Ok(q) && q@
                == p@),
            self.history_source() matches HistorySource::StandardShell(st) ==> {
                &&& r matches Ok(q) ==> exists|home: Seq<char>| q@ == st.history_path_spec(home)
                &&& r matches Err(e) ==> e == ShellError::FindError || e == ShellError::InvalidUTF8
            },
    {
        match &self.source {
            HistorySource::CustomPath(p) => Ok(p.clone()),
            HistorySource::StandardShell(st) => st.find_history_path(),
        }
    }

    /// Count the history lines and cache the count.
    pub fn commands_ran(&mut self, lines: &Vec<String>) -> (r: usize)
        ensures
            r == lines@.len(),
            final(self).invocation_count == Some(r),
            final(self).history_source() == old(self).history_source(),
    {
        let c = lines.len();
        self.invocation_count = Some(c);
        c
    }

    /// How often each raw line occurs; the line count is cached as a side
    /// effect.
    pub fn invocation_frequency(&mut self, lines: &Vec<String>) -> (t: FrequencyTable)
        ensures
            t.wf(),
            t@ == invocation_freq(views_of(lines@)),
            final(self).invocation_count matches Some(c) && c == lines@.len(),
            final(self).history_source() == old(self).history_source(),
    {
        let t = invocation_frequency_of(lines);
        self.invocation_count = Some(lines.len());
        t
    }

    /// How often each command token occurs; the cached count is untouched.
    pub fn command_frequency(&self, lines: &Vec<String>) -> (t: FrequencyTable)
        ensures
            t.wf(),
            t@ == command_freq(views_of(lines@)),
    {
        command_frequency_of(lines)
    }

    /// The most frequent commands (left) and invocations (right), at most
    /// `TOP_COUNT` of each, most frequent first; the line count is cached.
    pub fn top_commands_and_invocations(&mut self, lines: &Vec<String>) -> (r: (
        Vec<String>,
        Vec<String>,
    ))
        ensures
            is_top_n(r.0@.map_values(|s: String| s@), command_freq(views_of(lines@)), TOP_COUNT as int),
            is_top_n(
                r.1@.map_values(|s: String| s@),
                invocation_freq(views_of(lines@)),
                TOP_COUNT as int,
            ),
            final(self).invocation_count matches Some(c) && c == lines@.len(),
            final(self).history_source() == old(self).history_source(),
    {
        let inv = self.invocation_frequency(lines);
        let invocations = inv.top_n(TOP_COUNT);
        let cmd = self.command_frequency(lines);
        let commands = cmd.top_n(TOP_COUNT);
        (commands, invocations)
    }
}

impl From<ShellType> for Shell {
    /// A session that reads `value`'s standard history file.
    fn from(value: ShellType) -> (r: Shell) {
        Shell { source: HistorySource::StandardShell(value), invocation_count: None }
    }
}

impl vstd::std_specs::convert::FromSpecImpl<ShellType> for Shell {
    open spec fn obeys_from_spec() -> bool {
        true
    }

    open spec fn from_spec(v: ShellType) -> Shell {
        Shell { source: HistorySource::StandardShell(v), invocation_count: None }
    }
}

/// The error a failed open of the history file at `path` is reported as:
/// always the open-failure kind, carrying the path.
pub fn open_failure_error(path: &str) -> (e: ShellError)
    ensures
        e matches ShellError::OpenError(p) && p@ == path@,
{
    ShellError::OpenError(String::from_str(path))
}

} // verus!
