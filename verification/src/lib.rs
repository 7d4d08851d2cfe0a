//! A personal movie and show rating viewer: ratings and titles are read from
//! two delimited files, joined by identifier, and shown on one HTML page
//! beside a histogram of how often each score was given.
//!
//! - [`rating`]: a rating, and the text form of a score
//! - [`records`]: delimited files as records of fields
//! - [`ingest`]: loading the title index and the rating history
//! - [`order`]: the order of the rating history, highest score first
//! - [`titles`]: the title index
//! - [`distribution`]: the histogram of the scores, and their intensities
//! - [`filter`]: the rating filter of a request
//! - [`markup`]: text and numbers as they stand in HTML
//! - [`page`]: the page
//! - [`app`]: the state that all requests share, and the answer to a request

pub mod app;
pub mod distribution;
pub mod filter;
pub mod ingest;
pub mod markup;
pub mod order;
pub mod page;
pub mod rating;
pub mod records;
pub mod titles;
