//! Verified core of the Kiro / Anthropic proxy: token accounting, cache
//! usage splitting, custom error rules, event-stream dispatch and the
//! simulated message id / thinking signature.
pub mod anthropic;
pub mod kiro;
pub mod text;
