//! The data that the client works on: records, profiles, and file formats.

pub mod assignment;
pub mod jks;
pub mod json;
pub mod keychain;
pub mod lag;
pub mod message;
pub mod profile;
pub mod properties;
pub mod search;
pub mod settings;
