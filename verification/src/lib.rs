//! The logic of a Kafka desktop client, verified with Verus.

pub mod app;
pub mod cli;
pub mod kafka;
pub mod model;
pub mod order;
pub mod path;
pub mod text;
pub mod text_map;
pub mod ui;
pub mod wire;
