//! A small note-taking library: tag and configuration rules, note layout and
//! the decisions of the background Git synchronisation.
pub mod cli;
pub mod config;
pub mod entry;
pub mod registry;
pub mod repo;
pub mod sync;
pub mod tags;
pub mod text;
