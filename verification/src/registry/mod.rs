//! Registries: what is asked of them and what is made of their answers.
pub mod auth;
pub mod client;
pub mod pull;
pub mod push;
