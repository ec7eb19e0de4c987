//! Bulk DNS name probing: candidate and resolver list preparation, and the
//! decision core of a bounded, multi-resolver resolution engine.

pub mod cli;
pub mod dns;
pub mod domain;
pub mod endpoint;
pub mod governor;
pub mod laws;
pub mod loader;
pub mod model;
pub mod race;
pub mod scan;
pub mod scanner;
pub mod text;
