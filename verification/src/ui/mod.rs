//! What the views show and how they react, without the widgets.

pub mod about;
pub mod connections;
pub mod consumers;
pub mod json_highlight;
pub mod message_detail;
pub mod message_table;
pub mod messages;
pub mod produce;
pub mod settings;
pub mod topics;
