//! Regression testing of a library against the packages that depend on it:
//! version resolution, registry decoding, the per-package test protocol and
//! the ordered collection of results.
pub mod version;
pub mod error;
pub mod registry;
pub mod protocol;
pub mod cache;
pub mod collect;
