//! Discovery, classification, cataloguing and full-text search of the
//! software projects found under a set of root directories.

pub mod classifier;
pub mod config;
pub mod crawl;
pub mod errors;
pub mod index;
pub mod indexing;
pub mod lexer;
pub mod manifest;
pub mod project;
pub mod ranking;
pub mod search;
