//! Importers for third-party session formats. Each parses its source into
//! the native [`crate::model::ExportFile`] shape.
pub mod common;
pub mod putty;
pub mod mobaxterm;
pub mod ssh_config;
pub mod securecrt;
