pub mod base;
pub mod metadata;
