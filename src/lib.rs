//! A song catalog: a keyed record store with id assignment, play and visit
//! counters, substring queries over its records and last-one-wins loading.
//! Matching in queries is case-sensitive.
pub mod persist;
pub mod query;
pub mod song;
pub mod store;
