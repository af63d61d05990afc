//! Collects the repositories an account has starred, following the `next`
//! links of a paginated API until none is left, and counts them.
//!
//! The library holds the decisions; the caller performs the requests. A
//! [`collect::Collector`] says which page to fetch, takes in each response and
//! says what to do next, until it finishes with a count or fails.
pub mod config;
pub mod link;
pub mod link_laws;
pub mod client;
pub mod model;
pub mod collect;
