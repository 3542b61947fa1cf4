//! Aggregates a chat platform's personal data export into a ranked report of
//! message volume per conversation.
//!
//! The export is a directory tree: each conversation unit is a subdirectory
//! holding a metadata document and a message list. Units that reference a
//! guild are grouped under that guild; the rest are reported as direct or
//! group conversations. The report is filtered, sorted by descending message
//! count, optionally truncated, and rendered as an indented tree.

pub mod aggregate;
pub mod errors;
pub mod json;
pub mod mapping;
pub mod model;
pub mod render;
pub mod report;
pub mod scan;

pub use aggregate::{aggregate, process_conversations, process_scanned};
pub use errors::MyError;
pub use mapping::{load_mappings, NameMapping};
pub use model::{Channel, Conversation, ConversationType};
pub use render::print_conversations;
pub use report::filter_and_sort_conversations;
pub use scan::{resolve_unit, scan_unit, ResolvedUnit, ScannedUnit, UnitData, UnitKind};
