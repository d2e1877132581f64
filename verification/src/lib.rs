//! Preference resolution core for a rule-based document-to-speech engine.
//!
//! The crate resolves locale-dependent resource files through a fallback
//! directory search, loads layered preference documents with merge-with-override
//! semantics, and tracks freshness of the resolved files so a consumer knows
//! when to reload. All filesystem questions are answered from an explicit
//! [`fs_model::FsSnapshot`] value, so the logic is a pure function of its inputs.

pub mod doc;
pub mod fs_model;
pub mod loader;
pub mod manager;
pub mod prefs;
pub mod resolver;
pub mod text;
