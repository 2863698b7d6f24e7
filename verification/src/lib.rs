//! Verified core of a desktop manager for local development servers:
//! project records and their status model, discovery of listening
//! development servers, and the text handling both of them need.

pub mod text;
pub mod models;
pub mod platform;
pub mod manager;
pub mod commands;
pub mod laws;
pub mod outcomes;
pub mod discovery;
