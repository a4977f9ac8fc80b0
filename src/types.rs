//! Core records: messages, sessions, and the entries of Codex session logs.

use vstd::prelude::*;

use crate::text::{join_present, join_with, option_view, option_views, present};

verus! {

/// Role of a message in a conversation.
#[derive(Debug, Clone, Copy, PartialEq, Eq, Structural)]
pub enum Role {
    User,
    Assistant,
    System,
    Tool,
}

/// Normalized message format used internally.
#[derive(Debug, Clone)]
pub struct Message {
    pub role: Role,
    pub content: String,
    pub timestamp: Option<String>,
}

/// Session status.
#[derive(Debug, Clone, Copy, PartialEq, Eq, Structural)]
pub enum SessionStatus {
    Active,
    Closed,
    Compacted,
}

/// Session metadata.
#[derive(Debug, Clone)]
pub struct SessionRecord {
    pub id: String,
    pub assistant: String,
    pub start_time: Option<String>,
    pub end_time: Option<String>,
    pub status: SessionStatus,
}

/// One line of a Codex session log.
#[derive(Debug)]
pub struct CodexLogEntry {
    pub entry_type: String,
    pub timestamp: Option<String>,
    pub payload: Option<CodexPayload>,
}

/// The payload of a Codex log entry.
#[derive(Debug)]
pub struct CodexPayload {
    pub role: Option<String>,
    pub content: Option<Vec<CodexContent>>,
}

/// One content block of a Codex payload.
#[derive(Debug)]
pub struct CodexContent {
    pub content_type: String,
    pub text: Option<String>,
}

/// The entry type of Codex log lines that carry a conversation message.
pub const RESPONSE_ITEM: &'static str = "response_item";

/// The texts of content blocks, as optional values.
pub open spec fn block_texts(blocks: Seq<CodexContent>) -> Seq<Option<String>> {
    Seq::new(blocks.len(), |i: int| blocks[i].text)
}

impl CodexLogEntry {
    /// The message an entry carries: for a response item with a role and content,
    /// the role and the texts of the content blocks run together.
    pub open spec fn message_view(&self) -> Option<(Seq<char>, Seq<char>)> {
        if self.entry_type@ == RESPONSE_ITEM@ {
            match self.payload {
                Some(p) => match (p.role, p.content) {
                    (Some(role), Some(blocks)) => Some(
                        (role@, join_with(present(option_views(block_texts(blocks@))), ""@)),
                    ),
                    _ => None,
                },
                None => None,
            }
        } else {
            None
        }
    }

    /// The (role, text) message this entry carries, if any.
    pub fn message(&self) -> (r: Option<(String, String)>)
        ensures
            match r {
                Some((role, text)) => self.message_view() == Some((role@, text@)),
                None => self.message_view() is None,
            },
    {
        if self.entry_type != RESPONSE_ITEM.to_owned() {
            return None;
        }
        match &self.payload {
            Some(payload) => match (&payload.role, &payload.content) {
                (Some(role), Some(blocks)) => {
                    let mut texts: Vec<Option<String>> = Vec::new();
                    for i in 0..blocks.len()
                        invariant
                            texts.len() == i,
                            forall|j: int|
                                0 <= j < i ==> option_view(#[trigger] texts@[j]) == option_view(
                                    blocks@[j].text,
                                ),
                    {
                        let text = match &blocks[i].text {
                            Some(t) => Some(t.clone()),
                            None => None,
                        };
                        texts.push(text);
                    }
                    proof {
                        assert(option_views(texts@) =~= option_views(block_texts(blocks@)));
                    }
                    let joined = join_present(texts.as_slice(), "");
                    Some((role.clone(), joined))
                },
                _ => None,
            },
            None => None,
        }
    }
}

} // verus!
