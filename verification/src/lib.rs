//! Verified core of a DuckDNS dynamic-DNS updater: configuration handling,
//! domain-list parsing, the update protocol's decisions (validation, change
//! detection, retry with exponential backoff), the update history with its
//! CSV export, the application icon, and the small pieces of presentation
//! logic the desktop front end relies on.

pub mod config;
pub mod domains;
pub mod history;
pub mod icon;
pub mod numbers;
pub mod paths;
pub mod text;
pub mod ui;
pub mod update;
