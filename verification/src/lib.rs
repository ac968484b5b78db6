//! A small library around a MongoDB deployment: building a client
//! configuration, listing database names, and conditionally creating a
//! database by name.
//!
//! The driver-facing pieces wrap the lazy, non-networked parts of the
//! `mongodb` crate; the deployment model states what the server's listing
//! looks like after handle creation, document insertion and database drops.

pub mod config;
pub mod deployment;
pub mod document;
pub mod driver;
pub mod names;
