//! Terminal color themes: a catalog built from theme files and a community
//! document, and the decisions of a live-preview session that writes the
//! highlighted theme into the terminal's configuration.

pub mod catalog;
pub mod config;
pub mod node;
pub mod session;
pub mod sources;
pub mod themes;
