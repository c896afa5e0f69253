//! Clipboard history and launcher core of z-tools: the data model of the
//! clipboard history, its deduplicating and self-trimming store, the
//! capture thresholds, and the launcher's placement and show/hide rules.

pub mod clipboard;
pub mod text;
pub mod error;
pub mod backend;
pub mod seq_facts;
pub mod hash_laws;
pub mod store;
pub mod store_laws;
pub mod paging_laws;
pub mod commands;
pub mod launcher;
pub mod keys;
pub mod platform;
