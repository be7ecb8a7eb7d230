//! Data model and verified logic of a spreadsheet store: typed columns,
//! rows keyed by identifiers, ordering of rows by prioritized headers,
//! header layout, import of rows from JSON documents, collapsing of rows
//! that share an identity, the pending edits of a shown sheet and how they
//! are saved, loading of rows page by page, search query selection and
//! export layout.
pub mod models;
pub mod order;
pub mod sorting;
pub mod client_models;
pub mod headers;
pub mod ids;
pub mod json;
pub mod import;
pub mod search;
pub mod collapse;
pub mod edits;
pub mod session;
pub mod export;
pub mod config;
pub mod paging;
pub mod example;
