//! Interactive incremental grep: a chain of filter stages, a lazy matcher per
//! stage, a cache of matchers keyed by stage, and the projection of matched
//! lines onto a screen.
pub mod events;
pub mod grep;
pub mod layout;
pub mod output_generator;
pub mod pattern;
pub mod source;
pub mod stage_cache;
pub mod state;
pub mod text;
pub mod trimming;
pub mod types;
