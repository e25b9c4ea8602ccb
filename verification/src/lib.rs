//! Core of an offline credential vault.
//!
//! The vault never stores a credential. It keeps a master secret, sealed
//! under a viewer password, and a catalog of entries; a credential is derived
//! again from the secret and an entry whenever it is needed.
//!
//! - `gen` derives a credential from a master secret, a postfix and a method
//!   identifier.
//! - `crypto` seals master secrets in versioned records and opens them again.
//! - `store` is the catalog of entries: listing, adding, reordering, merging.
//! - `backup` seals and opens snapshots of the catalog, maps their entries to
//!   vaults and reads and writes the tabular form.
//! - `config` holds the preferences, `paths` the places of the files.
//! - `text` has the string handling the others share, and `primitives` the
//!   calls into the cryptographic and encoding crates.
//!
//! The library reads and writes no files: callers hand it what they read and
//! store what it returns.

pub mod primitives;
pub mod text;
pub mod gen;
pub mod store;
pub mod crypto;
pub mod backup;
pub mod paths;
pub mod config;
