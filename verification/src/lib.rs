//! Verified core of a terminal client for Notion workspaces.
pub mod text;
pub mod json;
pub mod order;
pub mod records;
pub mod fuzzy;
pub mod markdown;
pub mod keys;
pub mod unicode;
pub mod wizard;
pub mod describe;
pub mod config;
pub mod editor;
pub mod keymap;
pub mod ui;
pub mod app;
