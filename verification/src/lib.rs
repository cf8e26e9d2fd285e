//! Extracts selected entries of a ZIP-format Java archive into memory.
//!
//! A [`JarOption`] holds two sets of rules, path prefixes and file
//! extensions; an entry is kept when its path starts with a registered
//! prefix or its extension ends with a registered extension, where an
//! empty rule set matches everything. [`jar_from_bytes`] runs a whole
//! archive through those rules and returns the accepted entries as a
//! [`Jar`], a mapping from entry path to decompressed bytes.

pub mod filter;
pub mod archive;
pub mod extract;

pub use filter::JarOption;
pub use filter::JarOptionBuilder;
pub use archive::JarError;
pub use extract::Jar;
pub use extract::extract_entries;
pub use extract::jar_from_bytes;
