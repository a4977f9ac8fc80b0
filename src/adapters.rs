//! Adapters for the native session logs of each assistant.

use std::path::PathBuf;
use vstd::prelude::*;

use crate::text::{after_last, option_view, split_after_last};


verus! {

/// Adapter for per-project JSONL session logs under the home directory.
pub struct ClaudeCodeAdapter;

impl ClaudeCodeAdapter {
    /// The adapter; it holds no state.
    pub fn new() -> Self {
        ClaudeCodeAdapter
    }
}

/// Codex log adapter: sessions are `~/.codex/sessions/<year>/<month>/<day>/<session>.jsonl`.
pub struct CodexAdapter;

impl CodexAdapter {
    /// The adapter; it holds no state.
    pub fn new() -> Self {
        CodexAdapter
    }
}

/// Goose adapter: sessions live in Goose's SQLite database.
pub struct GooseAdapter {
    db_path: PathBuf,
}

impl GooseAdapter {
    /// The database the adapter reads.
    pub closed spec fn database(&self) -> PathBuf {
        self.db_path
    }

    /// An adapter reading the database at `db_path`.
    pub fn with_db_path(db_path: PathBuf) -> (a: Self)
        ensures
            a.database() == db_path,
    {
        GooseAdapter { db_path }
    }

    /// The session named by a pseudo-path `<database>#<session id>`: the text after
    /// its last `#`; none when it holds no `#`.
    pub fn session_id_of(pseudo_path: &str) -> (r: Option<String>)
        ensures
            option_view(r) == after_last(pseudo_path@, '#'),
    {
        split_after_last(pseudo_path, '#')
    }

    /// The database path.
    pub fn db_path(&self) -> (r: &PathBuf)
        ensures
            *r == self.database(),
    {
        &self.db_path
    }
}

} // verus!
