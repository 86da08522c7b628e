//! Sharing a slowly built, disk-cached toolchain between independent processes.
//!
//! A toolchain is built once and kept in a cache directory. Any number of
//! processes may ask for it at the same time; they have nothing in common but
//! the file system. Each entry of the cache has a marker file, and the
//! advisory lock on it decides who may read the entry and who rebuilds it.
//!
//! - [`toolchain`] says which toolchain is wanted, reads that from an
//!   argument, and decides whether a cached one can be trusted.
//! - [`key`] and [`escape`] give each such wish a file name of its own, which
//!   can be read back.
//! - [`lock`] holds the lock levels.
//! - [`protocol`] takes one process from its first look at the cache to a
//!   toolchain that it can use, step by step.
//! - [`contention`] proves what holds of many processes that do so at once.
//!
//! Nothing here touches a file or the lock manager. The caller does, and tells
//! what came of it.

pub mod contention;
pub mod escape;
pub mod key;
pub mod lock;
pub mod protocol;
pub mod text;
pub mod toolchain;
pub mod unstd;
