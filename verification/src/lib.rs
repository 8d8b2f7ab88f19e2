//! Ingestion of tournament results from a paginated remote service, and
//! the trivia grid that is built from what was ingested.
//!
//! `paging` fetches all pages of a query; `ingest` walks tournaments,
//! participants and sets; `identity` resolves entrants to players;
//! `results` derives the outcome of each set; `sink` is what gets written;
//! `remote` holds the queries and records of the service; `grid` draws the
//! queries of a grid and collects its answers; `text` searches and
//! replaces text.

pub mod grid;
pub mod identity;
pub mod ingest;
pub mod paging;
pub mod remote;
pub mod results;
pub mod sink;
pub mod text;
