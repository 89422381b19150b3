//! How a command is carried out where it is given.
pub mod macos_host;
pub mod render;
