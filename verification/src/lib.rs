//! Fracpack: a binary format for records with nested variable-size fields,
//! with a verified encoder and decoder.

pub mod bytes;
pub mod contract;
pub mod graphql;
pub mod http;
pub mod json;
pub mod laws;
pub mod layout;
pub mod nested;
pub mod offsets;
pub mod pack;
pub mod records;
pub mod schema;
pub mod text;
pub mod truncation;
pub mod unpack;
pub mod value;
