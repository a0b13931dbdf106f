//! A live, in-memory tag index over a tree of text documents.
//!
//! Each document carries a small header with a title and a list of tags. The
//! library parses such headers, turns file-system changes into index
//! mutations, keeps a store that is keyed both by path and by tag, and
//! answers boolean tag queries against it.
pub mod domain;
pub mod exp;
pub mod header;
pub mod laws;
pub mod maps;
pub mod model;
pub mod pipeline;
pub mod search;
pub mod storage;
pub mod text;
pub mod yaml;
