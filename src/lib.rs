//! Parsing and reconciliation of track listings: catalogue indexes, titles and
//! artists recovered from file names and manifest texts, merged per source,
//! and enriched from a lookup store and a table of label codes.

pub mod text;
pub mod tokenizer;
pub mod shape;
pub mod duration;
pub mod labels;
pub mod model;
pub mod pass;
pub mod reconcile;
pub mod engine;
pub mod queries;
