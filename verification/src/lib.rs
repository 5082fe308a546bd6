//! Ingestion pipeline for web content: the decisions of a depth-bounded
//! crawl, the naming of stored pages and media, the retry schedule of one
//! entry, and the cleaning and combining of Markdown.
//!
//! Everything here works on plain values. Network and file access belong
//! to the caller, which performs the actions this library decides on and
//! reports back what happened.

pub mod address;
pub mod config;
pub mod converter;
pub mod crawler;
pub mod document;
pub mod domain;
pub mod edit;
pub mod example;
pub mod extract;
pub mod fetch;
pub mod filename;
pub mod frontier;
pub mod layout;
pub mod lines;
pub mod links;
pub mod markup;
pub mod media;
pub mod order;
pub mod processor;
pub mod registry;
pub mod report;
pub mod retry;
pub mod robots;
pub mod text;
