//! Ingestion of vessel telemetry archives into report records, and the read
//! path that answers with the fields of a report.
//!
//! An archive is named by an object key ([`archive`]), its data file is a
//! JSON document ([`json`]) of the vendor's schema ([`schema`]), whose rows
//! are flattened into report records ([`flatten`], [`model`]). A write
//! buffer collects the records and seals them into batches for bulk writes
//! ([`loader`]); what the writes leave in the store is described in
//! [`store`]. The caller reads the archive and performs the writes.

pub mod api;
pub mod archive;
pub mod calendar;
pub mod event;
pub mod flatten;
pub mod ident;
pub mod json;
pub mod loader;
pub mod model;
pub mod runtime_error;
pub mod schema;
pub mod store;
pub mod text;
