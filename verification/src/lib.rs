//! Verified core of padz, a command-line note manager.
pub mod text;
pub mod error;
pub mod model;
pub mod index;
pub mod tree;
pub mod store;
pub mod resolve;
pub mod helpers;
pub mod commands;
pub mod attributes;
pub mod selectors;
pub mod export;
pub mod import;
pub mod api;
pub mod json;
pub mod tags;
pub mod patch;
pub mod yaml;
