//! A document-search library: a corpus of plain-text notes is ranked against a
//! free-text query by a TF-IDF-like score.
//!
//! The library holds the verified model of the search: corpus enumeration with
//! hidden-entry pruning, term-frequency and containment scoring, document
//! frequency, the score table a query produces, the descending sort of the
//! final result list, and the per-connection session state machine of the
//! query server. Scores themselves are evaluated outside the library as
//! floating-point numbers; the library exchanges them as order-preserving
//! integer keys.

pub mod text;
pub mod scorer;
pub mod corpus;
pub mod ranking;
pub mod session;
