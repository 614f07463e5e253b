//! A micro-preprocessor for pseudo-HTML documents.
//!
//! The library rewrites a small vocabulary of custom tags (definitions,
//! citations, links, video embeds, buttons, pictures) into standard HTML,
//! injects a fixed block of meta tags after the first `<head>` token, and
//! expands configured `@handle` mentions into anchors. Documents are
//! handled as sequences of characters; every transformation is specified
//! and verified down to the exact output text.

pub mod engine;
pub mod matching;
pub mod mentions;
pub mod rules;
pub mod text;

pub use mentions::{load_mentions, MentionEntry, MentionLoad};
pub use rules::{compile_pattern, with_builtin_tags, ConfigError, LowC};
pub use text::chars_of;
