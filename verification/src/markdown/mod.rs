//! Markdown round-tripping of page blocks for external editing.
pub mod parse;
pub mod render;
pub mod diff;

pub use diff::Applied;
pub use parse::{parse_markdown, parse_markdown_checked, ParseWarning, ParsedLine};
pub use render::{blocks_to_markdown, Unit};
