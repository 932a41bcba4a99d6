//! Command-line arguments and startup failures.

use vstd::prelude::*;
use std::path::PathBuf;
use crate::path::{display_path, displayed_path, path_prefix, starts_with};
use crate::spec::SortKey;
use crate::text::{chars_of, concat, string_of};

verus! {

/// Tree panel visibility mode as given on the command line.
#[derive(Debug, Clone, Copy, PartialEq, Eq, Structural)]
pub enum TreeMode {
    Always,
    Auto,
    Hidden,
    Single,
}

/// `--sort` starting value, one for one with [`SortKey`].
#[derive(Debug, Clone, Copy, PartialEq, Eq, Structural)]
pub enum SortArg {
    Name,
    Phase,
    Updated,
    Progress,
}

pub open spec fn key_of_arg(arg: SortArg) -> SortKey {
    match arg {
        SortArg::Name => SortKey::Name,
        SortArg::Phase => SortKey::Phase,
        SortArg::Updated => SortKey::Updated,
        SortArg::Progress => SortKey::Progress,
    }
}

impl From<SortArg> for SortKey {
    fn from(arg: SortArg) -> (r: SortKey) {
        match arg {
            SortArg::Name => SortKey::Name,
            SortArg::Phase => SortKey::Phase,
            SortArg::Updated => SortKey::Updated,
            SortArg::Progress => SortKey::Progress,
        }
    }
}

impl vstd::std_specs::convert::FromSpecImpl<SortArg> for SortKey {
    open spec fn obeys_from_spec() -> bool {
        true
    }

    open spec fn from_spec(arg: SortArg) -> SortKey {
        key_of_arg(arg)
    }
}

/// The command line: an optional starting path, `--all`, `--no-watch`,
/// `--log`, `--tree`, `--sort` and `--diagram-engine`.
#[derive(Debug)]
pub struct Args {
    pub path: Option<PathBuf>,
    pub all: bool,
    pub no_watch: bool,
    pub log: Option<PathBuf>,
    pub tree: TreeMode,
    pub sort: SortArg,
    pub diagram_engine: String,
}

/// Whether `--log` is refused: it is when the resolved log path lies
/// inside the resolved `.kiro` root; the error names the path as given.
pub fn log_refusal(log: &PathBuf, resolved_log: &PathBuf, resolved_root: &PathBuf) -> (r: Result<(), StartupError>)
    ensures
        r is Err <==> path_prefix(*resolved_root, *resolved_log),
        r matches Err(e) ==> e == StartupError::LogInsideKiro(*log),
{
    if starts_with(resolved_log, resolved_root) {
        Err(StartupError::LogInsideKiro(log.clone()))
    } else {
        Ok(())
    }
}

/// Why startup was refused; every variant exits with status 2.
#[derive(Debug, Clone, PartialEq, Eq)]
pub enum StartupError {
    /// No `.kiro` root found searching from (or at) this path.
    RootNotFound(PathBuf),
    /// The `--log` path resolves inside the `.kiro` root.
    LogInsideKiro(PathBuf),
    /// `--all`'s target directory is missing or cannot be listed.
    AllTargetUnreadable(PathBuf),
}

/// The message of a startup error, naming the path involved.
pub open spec fn startup_text(e: StartupError) -> Seq<char> {
    match e {
        StartupError::RootNotFound(p) => "spec-viewer: no .kiro directory found searching from '"@
            + displayed_path(p) + "'"@,
        StartupError::LogInsideKiro(p) => "spec-viewer: --log path '"@ + displayed_path(p)
            + "' resolves inside the .kiro root; refusing (requirement 8.2)"@,
        StartupError::AllTargetUnreadable(p) => "spec-viewer: --all target directory '"@
            + displayed_path(p) + "' does not exist or cannot be read"@,
    }
}

fn framed(head: &str, p: &PathBuf, tail: &str) -> (r: String)
    ensures
        r@ == head@ + displayed_path(*p) + tail@,
{
    let a = chars_of(head);
    let shown = display_path(p);
    let b = chars_of(shown.as_str());
    let c = chars_of(tail);
    let ab = concat(a.as_slice(), b.as_slice());
    string_of(concat(ab.as_slice(), c.as_slice()).as_slice())
}

impl StartupError {
    /// The message printed on standard error.
    pub fn message(&self) -> (r: String)
        ensures
            r@ == startup_text(*self),
    {
        match self {
            StartupError::RootNotFound(p) => framed(
                "spec-viewer: no .kiro directory found searching from '",
                p,
                "'",
            ),
            StartupError::LogInsideKiro(p) => framed(
                "spec-viewer: --log path '",
                p,
                "' resolves inside the .kiro root; refusing (requirement 8.2)",
            ),
            StartupError::AllTargetUnreadable(p) => framed(
                "spec-viewer: --all target directory '",
                p,
                "' does not exist or cannot be read",
            ),
        }
    }

    /// The process exit status: 2 for every startup error.
    pub fn exit_code(&self) -> (r: i32)
        ensures
            r == 2,
    {
        2
    }
}

} // verus!
