//! Image building, image storage and container bookkeeping for a standalone
//! OCI container tool.

pub mod text;
pub mod number;
pub mod order;
pub mod sequence;
pub mod stable_sort;
pub mod text_map;
pub mod path;
pub mod base64;
pub mod raw_name;
pub mod instruction;
pub mod dockerfile;
pub mod interpolation;
pub mod stages;
pub mod image;
pub mod clock;
pub mod random;
pub mod rootfs;
pub mod users;
pub mod digest;
pub mod environment;
pub mod build;
pub mod registry;
pub mod cli;
pub mod protocol;
pub mod gpu;
pub mod runtime;
pub mod containers;
pub mod error;
pub mod services;
pub mod guestd;
pub mod platform;
