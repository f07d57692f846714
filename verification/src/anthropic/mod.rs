pub mod cache_force;
pub mod empty_dump;
pub mod signature_sim;
