//! Text normalisation for a read-aloud tool: rule-driven rewriting, grapheme
//! aware collapsing of repeated characters, and tables that map positions in
//! the cleaned text back to positions in the source text.

pub mod clean;
pub mod hot_key;
pub mod offsets;
pub mod rules;
pub mod segments;
pub mod units;
pub mod wide_string;
