//! The vocabulary of the PTY layer: what a pane's child process reports,
//! the size of its terminal, and what can go wrong driving it. Spawning the
//! process and moving bytes is the application's work.

use vstd::prelude::*;
use crate::engine::{DEFAULT_COLS, DEFAULT_ROWS};
use crate::keys::push_str;

verus! {

#[verifier::external_type_specification]
#[verifier::external_body]
pub struct ExIoError(std::io::Error);

/// What the reader of a pane's PTY reports.
#[derive(Debug, Clone, PartialEq, Eq)]
pub enum PtyEvent {
    /// Bytes read from the PTY.
    Output(Vec<u8>),
    /// The child exited, with its exit code when one is known.
    Exited(Option<i32>),
}

/// A terminal size in character cells.
#[derive(Debug, Clone, Copy, PartialEq, Eq, Structural)]
pub struct PtyGeometry {
    pub rows: u16,
    pub cols: u16,
}

impl PtyGeometry {
    pub fn new(rows: u16, cols: u16) -> (g: PtyGeometry)
        ensures
            g == (PtyGeometry { rows, cols }),
    {
        PtyGeometry { rows, cols }
    }
}

impl Default for PtyGeometry {
    /// 24 rows by 80 columns.
    fn default() -> (g: PtyGeometry)
        ensures
            g == (PtyGeometry { rows: DEFAULT_ROWS, cols: DEFAULT_COLS }),
    {
        PtyGeometry { rows: DEFAULT_ROWS, cols: DEFAULT_COLS }
    }
}

/// Why spawning or driving a pane's process failed.
#[derive(Debug)]
pub enum PtyError {
    /// The pseudo-terminal pair could not be opened.
    OpenPty(String),
    /// The child command could not be spawned.
    Spawn(String),
    /// The reader handle could not be cloned.
    CloneReader(String),
    /// The writer handle could not be taken.
    TakeWriter(String),
    /// A write to the child failed.
    Write(std::io::Error),
    /// A resize request failed.
    Resize(String),
    /// The child could not be killed.
    Kill(std::io::Error),
    /// No command was configured and no shell could be found.
    NoCommand,
}

/// The text of an I/O error (`Display` of [`std::io::Error`]); it depends on
/// the operating system's message for the error, so nothing is stated of it.
#[verifier::external_body]
fn io_error_text(e: &std::io::Error) -> (s: String) {
    format!("{}", e)
}

/// The message of an error carrying `detail`, after `prefix`.
pub open spec fn with_detail(prefix: Seq<char>, detail: Seq<char>) -> Seq<char> {
    prefix + detail
}

impl PtyError {
    /// The error's message.
    pub fn message(&self) -> (m: String)
        ensures
            match self {
                PtyError::OpenPty(d) => m@ == with_detail("failed to open pty: "@, d@),
                PtyError::Spawn(d) => m@ == with_detail("failed to spawn command: "@, d@),
                PtyError::CloneReader(d) => m@ == with_detail("failed to clone pty reader: "@, d@),
                PtyError::TakeWriter(d) => m@ == with_detail("failed to obtain pty writer: "@, d@),
                PtyError::Write(_) => m@.len() >= "failed to write to pty: "@.len()
                    && m@.take("failed to write to pty: "@.len() as int) == "failed to write to pty: "@,
                PtyError::Resize(d) => m@ == with_detail("failed to resize pty: "@, d@),
                PtyError::Kill(_) => m@.len() >= "failed to kill child: "@.len()
                    && m@.take("failed to kill child: "@.len() as int) == "failed to kill child: "@,
                PtyError::NoCommand => m@ == "no command configured and no shell could be determined"@,
            },
    {
        let (prefix, detail): (&str, String) = match self {
            PtyError::OpenPty(d) => ("failed to open pty: ", d.clone()),
            PtyError::Spawn(d) => ("failed to spawn command: ", d.clone()),
            PtyError::CloneReader(d) => ("failed to clone pty reader: ", d.clone()),
            PtyError::TakeWriter(d) => ("failed to obtain pty writer: ", d.clone()),
            PtyError::Write(e) => ("failed to write to pty: ", io_error_text(e)),
            PtyError::Resize(d) => ("failed to resize pty: ", d.clone()),
            PtyError::Kill(e) => ("failed to kill child: ", io_error_text(e)),
            PtyError::NoCommand => ("no command configured and no shell could be determined", String::new()),
        };
        let mut m = prefix.to_owned();
        push_str(&mut m, detail.as_str());
        proof {
            assert(m@.take(prefix@.len() as int) =~= prefix@);
        }
        m
    }
}

} // verus!
