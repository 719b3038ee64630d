//! The library of a read-it-later client. Its core is the markdown
//! normalizer, which trims boilerplate around converted markdown, restores
//! paragraph spacing and re-indents nested lists. Beside it stand the
//! reading statistics, the RSS subscription list, the records exchanged with
//! the service and the titles of PDF documents.

pub mod text;
pub mod classify;
pub mod header;
pub mod boundary;
pub mod markdown;
pub mod stats;
pub mod feeds;
pub mod api;
pub mod laws;
pub mod pdf;
pub mod urls;
pub mod survival;

pub use classify::get_list_depth;
pub use markdown::normalize_markdown;
