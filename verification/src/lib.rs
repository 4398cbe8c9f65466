//! Per-library lifecycle and consistency core of a local-first file-indexing
//! engine.
//!
//! A *library* is an isolated tenant: a config file plus a database sharing an
//! id-derived file name. This crate holds the verified logic of that
//! subsystem: the manager that creates, edits, deletes and loads libraries;
//! the in-memory model of a library's record store; the shallow-scan
//! reconciliation pipeline that keeps path records consistent with the
//! filesystem; and the coalescing orphan-reclamation actor. Filesystem and
//! database I/O happen outside this crate: callers perform each effect and
//! hand the outcome back as a plain value.

pub mod platform;
pub mod text;
pub mod ids;
pub mod config;
pub mod error;
pub mod vecs;
pub mod keys;
pub mod db;
pub mod orphan;
pub mod library;
pub mod indexer;
pub mod manager;
pub mod node;
pub mod init;
