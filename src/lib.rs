//! Screen and audio recording pipeline: frame fingerprints, chunk bookkeeping,
//! indexer scheduling and the text processing behind search and transcription.

pub mod capture;
pub mod chunks;
pub mod config;
pub mod fingerprint;
pub mod indexer;
pub mod models;
pub mod numparse;
pub mod query;
pub mod recorder;
pub mod sanitize;
pub mod text;
pub mod tokenizer;
pub mod transducer;
pub mod web;
