//! Ingestion of multipart image uploads: which parts are stored, under which
//! names, and what the request is answered with.
//!
//! The crate decides; it performs no I/O. A driver pulls parts and chunks from
//! the network, creates and writes files, and reports what happened as events
//! to an [`ingest::Ingestor`], which answers each with the next action.
//! What the exchange does to a directory that requests share is stated over
//! the model in [`storage`], and what becomes of two uploads of one name at
//! the same time in [`collision`].

pub mod collision;
pub mod decimal;
pub mod extension;
pub mod filename;
pub mod ingest;
pub mod response;
pub mod storage;
