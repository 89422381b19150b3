//! Building images from Dockerfiles.
pub mod archive;
pub mod copy;
pub mod diff;
pub mod layer;
pub mod links;
pub mod run;
pub mod service;
pub mod stage;
pub mod written;
