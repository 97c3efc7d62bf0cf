//! Build driver core of a file-based web framework: the optimized route tree, the
//! thorn index, the plugin-facing records and the generation of the dispatch code.

pub mod adapter;
pub mod children;
pub mod config;
pub mod http_router;
pub mod insert;
pub mod laws;
pub mod manifest;
pub mod node;
pub mod path;
pub mod store;
pub mod strategy;
pub mod thorn;
pub mod update;
pub mod url_matcher;
pub mod walker;
