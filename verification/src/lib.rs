//! A minimal regular-expression matching engine.
//!
//! Given a pattern using a restricted grammar (literals, `.`, `\d`, `\w`,
//! `\\`, bracket classes, one-level alternation groups, the quantifiers `*`,
//! `+` and `?`, and the anchors `^` and `$`) and a single line of input text,
//! the engine decides whether the pattern matches somewhere in (or anchored
//! to) the input. Malformed patterns are reported as a distinct error, never
//! as an ordinary "no match".

pub mod engine;
pub mod laws;
pub mod lemmas;
pub mod semantics;

pub use engine::match_here;
pub use engine::match_pattern;
pub use engine::match_simple_pattern;
pub use engine::match_star;
pub use engine::next_pattern;
pub use engine::pattern_well_formed;
pub use engine::valid_pattern;
pub use engine::RegexError;
