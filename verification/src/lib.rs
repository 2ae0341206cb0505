//! A verified content compilation pipeline: it turns a directory's worth of
//! text documents (handed in as filename/body pairs) into an immutable,
//! queryable, syntax-highlighted content table, one table per named
//! collection.
//!
//! The stages are: filename parsing (identity and date), title extraction,
//! markdown parsing into an event stream, rewriting of fenced code regions
//! into highlighted HTML, and aggregation into a sorted static table with
//! two read operations (list the metadata, fetch one record by id).
pub mod badge;
pub mod compile;
pub mod date;
pub mod dto;
pub mod events;
pub mod filename;
pub mod highlight;
pub mod meta;
pub mod registry;
pub mod rewrite;
pub mod table;
pub mod text;
