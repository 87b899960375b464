//! What the client asks of a cluster, and what it makes of the answers.

pub mod admin;
pub mod certs;
pub mod config;
pub mod consume;
pub mod group_offsets;
pub mod groups;
pub mod import;
pub mod metadata;
pub mod produce;
pub mod service;
