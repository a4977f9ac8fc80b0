//! Noise filtering, batch compression and loop detection for assistant
//! conversation transcripts.

pub mod text;
pub mod repetition;
pub mod loop_detection;
pub mod pattern;
pub mod compression;
pub mod types;
pub mod plaintext;
pub mod adapters;

pub use compression::{MessageCompressor, NoiseFilter};
pub use loop_detection::{LoopDetection, LoopDetector, LoopSeverity};
pub use plaintext::PlainTextWriter;
pub use types::{
    CodexContent, CodexLogEntry, CodexPayload, Message, Role, SessionRecord, SessionStatus,
};
