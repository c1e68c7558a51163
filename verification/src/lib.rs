//! A verified core for a wiki page reader: it converts parsed HTML content
//! trees into plain text, Markdown or HTML, ranks page-title suggestions,
//! decides cache reuse, parses search API responses, and merges the results
//! of a category synchronisation run into a catalogue.

pub mod cache;
pub mod dom;
pub mod error;
pub mod formats;
pub mod search;
pub mod suggest;
pub mod sync;
pub mod text;
