//! Verified core of a multi-protocol terminal client for network engineers.
pub mod platform;
pub mod text;
pub mod ansi;
pub mod telnet;
pub mod hex;
pub mod pattern;
pub mod detector;
pub mod sensitive;
pub mod logfmt;
pub mod agent;
pub mod escapes;
pub mod vault;
pub mod catalog;
pub mod model;
pub mod importers;
pub mod login_script;
pub mod triggers;
pub mod highlight;
pub mod config;
pub mod backup;
pub mod sync;
pub mod snippets;
pub mod history;
pub mod connect;
pub mod import;
pub mod restore;
pub mod socks;
pub mod hostkey;
pub mod progress;
pub mod ordering;
pub mod listing;
pub mod export;
pub mod watch;
pub mod canon;
pub mod fingerprint;
