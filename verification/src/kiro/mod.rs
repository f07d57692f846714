pub mod model;
pub mod error_rules;
