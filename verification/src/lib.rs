//! A text-diagnostic rule engine.
//!
//! Given the raw bytes of one file, the crate evaluates a fixed set of
//! style and hygiene rules and produces a list of positioned diagnostics,
//! some carrying suggested edits. The core consists of a position index
//! that turns byte offsets into line/character positions, the diagnostic
//! data model, four independent text-scanning rules sharing one context,
//! and the rule-set metadata an orchestrator queries. All of it is
//! specified and proved.

pub mod context;
pub mod diagnostics;
pub mod language;
pub mod position;
pub mod rules;
pub mod ruleset;
pub mod text;

pub use rules::max_line_length::MaxLineLengthRule;
pub use rules::no_empty_files::NoEmptyFilesRule;
pub use rules::no_trailing_whitespace::NoTrailingWhitespaceRule;
pub use rules::require_final_newline::RequireFinalNewlineRule;
