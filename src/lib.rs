//! Core logic of an operator command-line tool for cloud instances, buckets
//! and log streams: a rate-bounded, cursor-paginated fetch, a batch executor
//! that tolerates per-item failures, and the row logic of instance listings.
pub mod batch;
pub mod fields;
pub mod instances;
pub mod paging;
