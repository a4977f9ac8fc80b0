//! Where plain-text session logs live: directories per assistant, date and
//! session, and the date a session is filed under.

use std::path::PathBuf;
use vstd::prelude::*;

use crate::text::{before_first, split_at_first};

verus! {

#[verifier::external_type_specification]
#[verifier::external_body]
pub struct ExPathBuf(PathBuf);

/// The date part of a timestamp: the text before the first `T` (ISO 8601), else
/// before the first space (SQLite), else the whole timestamp.
pub open spec fn date_of(ts: Seq<char>) -> Seq<char> {
    if ts.contains('T') {
        before_first(ts, 'T')
    } else if ts.contains(' ') {
        before_first(ts, ' ')
    } else {
        ts
    }
}

/// Relies on `std::path::Path::join`: `base` extended by `part`.
#[verifier::external_body]
fn join_path(base: &PathBuf, part: &str) -> PathBuf {
    base.join(part)
}

/// Plain-text session writer: knows where sessions are stored.
pub struct PlainTextWriter {
    base_dir: PathBuf,
}

impl PlainTextWriter {
    /// The directory under which all sessions are stored.
    pub closed spec fn base(&self) -> PathBuf {
        self.base_dir
    }

    /// A writer that stores sessions under `base_dir`.
    pub fn with_base_dir(base_dir: PathBuf) -> (w: Self)
        ensures
            w.base() == base_dir,
    {
        PlainTextWriter { base_dir }
    }

    /// The directory for a session: `<base>/<assistant>/<date>/<session_id>`.
    pub fn session_dir(&self, assistant: &str, date: &str, session_id: &str) -> PathBuf {
        let by_assistant = join_path(&self.base_dir, assistant);
        let by_date = join_path(&by_assistant, date);
        join_path(&by_date, session_id)
    }

    /// The date a timestamp falls on, as its text gives it; `today` when there is
    /// no timestamp.
    pub fn extract_date(timestamp: Option<&str>, today: &str) -> (r: String)
        ensures
            r@ == match timestamp {
                Some(ts) => date_of(ts@),
                None => today@,
            },
    {
        match timestamp {
            Some(ts) => date_part(ts),
            None => today.to_owned(),
        }
    }

    /// The base directory.
    pub fn base_dir(&self) -> (r: &PathBuf)
        ensures
            *r == self.base(),
    {
        &self.base_dir
    }
}

/// The date part of the timestamp `ts`.
pub fn date_part(ts: &str) -> (r: String)
    ensures
        r@ == date_of(ts@),
{
    let (before_t, has_t) = split_at_first(ts, 'T');
    if has_t {
        return before_t;
    }
    let (before_space, has_space) = split_at_first(ts, ' ');
    if has_space {
        return before_space;
    }
    ts.to_owned()
}

} // verus!
