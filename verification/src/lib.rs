//! Ontology partitioning: parse-once decomposition of an ontology graph into
//! one self-contained, independently serialized sub-document per declared
//! concept, with an append-only cache store and a raw-file serving fallback.

pub mod model;
pub mod owx;
pub mod serve;
pub mod shortname;
pub mod splitter;
pub mod store;
