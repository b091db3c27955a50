//! Extraction of a directed graph of music genres from a Wikipedia dump.
//!
//! The pipeline runs in four stages: a streaming scan of the dump that caches
//! genre pages and collects redirects, a fixed-point resolution of redirect
//! chains into a link map, a per-page processor that extracts infobox fields
//! and a simplified description tree from wikitext, and a deterministic graph
//! assembly over the processed records.

pub mod dump_date;
pub mod graph;
pub mod page;
pub mod process;
pub mod resolver;
pub mod scanner;
pub mod simplify;
pub mod strutil;
pub mod timestamp;
pub mod wikitext;
