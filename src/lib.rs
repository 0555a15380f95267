//! Resolution of DOI and arXiv identifiers into BibTeX records.
//!
//! The library classifies a pasted identifier, says which registry request to
//! make, and turns what the registry answers into one tidy BibTeX record.
//! Fetching itself is left to the caller.

pub mod arxiv;
pub mod flat;
pub mod pipeline;
pub mod record;
pub mod resolve;
pub mod shape;
pub mod step;
pub mod text;

pub use arxiv::{ArxivExtension, FeedEntry, print_arxiv, sound_feed};
pub use pipeline::{Reply, Request, get_bibtex, handle_response, request_info, unique_patterns};
pub use record::print_doi;
pub use resolve::{BibError, IdType, ResolvedIdentifier, classify_and_extract, extract_id};
pub use step::Step;
