use std::path::PathBuf;

use continuum_core::adapters::GooseAdapter;
use continuum_core::plaintext::date_part;
use continuum_core::{CodexContent, CodexLogEntry, CodexPayload, PlainTextWriter};

#[test]
fn test_extract_date_iso8601() {
    assert_eq!(
        PlainTextWriter::extract_date(Some("2025-11-09T14:30:00Z"), "2030-01-01"),
        "2025-11-09"
    );
}

#[test]
fn test_extract_date_sqlite() {
    assert_eq!(
        PlainTextWriter::extract_date(Some("2025-11-09 14:30:00"), "2030-01-01"),
        "2025-11-09"
    );
}

#[test]
fn date_without_separator_is_kept_whole() {
    assert_eq!(date_part("2025-11-09"), "2025-11-09");
    assert_eq!(date_part(""), "");
}

#[test]
fn first_t_wins_over_space() {
    assert_eq!(date_part("2025-11-09 at T10"), "2025-11-09 at ");
    assert_eq!(date_part("a b c"), "a");
}

#[test]
fn no_timestamp_gives_today() {
    assert_eq!(PlainTextWriter::extract_date(None, "2030-01-01"), "2030-01-01");
}

#[test]
fn session_dir_nests_assistant_date_session() {
    let writer = PlainTextWriter::with_base_dir(PathBuf::from("/logs"));
    assert_eq!(writer.base_dir(), &PathBuf::from("/logs"));
    assert_eq!(
        writer.session_dir("codex", "2025-11-09", "s1"),
        PathBuf::from("/logs/codex/2025-11-09/s1")
    );
}

#[test]
fn goose_adapter_keeps_its_database() {
    let adapter = GooseAdapter::with_db_path(PathBuf::from("/db/sessions.db"));
    assert_eq!(adapter.db_path(), &PathBuf::from("/db/sessions.db"));
}

fn entry(kind: &str, role: Option<&str>, texts: Vec<Option<&str>>) -> CodexLogEntry {
    CodexLogEntry {
        entry_type: kind.to_string(),
        timestamp: None,
        payload: Some(CodexPayload {
            role: role.map(|r| r.to_string()),
            content: Some(
                texts
                    .into_iter()
                    .map(|t| CodexContent {
                        content_type: "input_text".to_string(),
                        text: t.map(|s| s.to_string()),
                    })
                    .collect(),
            ),
        }),
    }
}

#[test]
fn codex_response_item_runs_texts_together() {
    let e = entry("response_item", Some("user"), vec![Some("Hello "), None, Some("world")]);
    assert_eq!(e.message(), Some(("user".to_string(), "Hello world".to_string())));
}

#[test]
fn codex_other_entries_carry_no_message() {
    assert_eq!(entry("event_msg", Some("user"), vec![Some("x")]).message(), None);
    assert_eq!(entry("response_item", None, vec![Some("x")]).message(), None);
    let bare = CodexLogEntry { entry_type: "response_item".to_string(), timestamp: None, payload: None };
    assert_eq!(bare.message(), None);
}
