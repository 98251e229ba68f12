//! Core logic of a local-first note vault: the search query language,
//! wiki-links and tags, relative dates, schemas, plugin manifests, hooks
//! and vault safety rules, each with its contract.

pub mod text;
pub mod error;
pub mod time;
pub mod config;
pub mod json;
pub mod fields;
pub mod fragment;
pub mod import;
pub mod export;
pub mod doctor;
pub mod vault;
pub mod history;
pub mod index;
pub mod fuzzy;
pub mod rpc;
pub mod edits;
pub mod date;
pub mod search;
pub mod sql;
pub mod link;
pub mod tag;
pub mod plugin;
pub mod guest;
pub mod hook;
pub mod attachment;
pub mod schema;
pub mod gui;
