//! The corpus engine of a chat bot: a sanitizer that turns raw chat text into
//! learnable lines, an n-gram corpus that learns from them and generates
//! replies, and the blacklists that decide who may contribute.
pub mod blacklist;
pub mod commands;
pub mod corpus;
pub mod engine;
pub mod global_data;
pub mod mentions;
pub mod rules;
pub mod sanitize;
pub mod text;
