//! A key-value storage engine: validated requests, a write queue drained by a
//! single worker, and two storage backends whose values are sealed in
//! envelopes at rest.

pub mod actions;
pub mod crypto;
pub mod error;
pub mod file_store;
pub mod index;
pub mod json;
pub mod json_store;
pub mod laws;
pub mod paths;
pub mod regex_pattern;
pub mod service;
pub mod tls;
pub mod validation;
