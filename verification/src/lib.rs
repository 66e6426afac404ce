//! The encrypted-vault core of a credential manager.
//!
//! The vault is a flat collection of groups and credential records with
//! one shared id space.  It is persisted as a single file: canonical
//! JSON, PKCS#7-padded and encrypted block by block with AES-256 under
//! a key derived from the passphrase by one SHA-256 pass.  The modules
//! split along those lines: the data model and its invariants, the
//! cipher pipeline, the byte-exact document grammar, the file-format
//! provider, and the store that owns the vault and serves the CRUD
//! surface.

pub mod cipher;
pub mod codec;
pub mod errors;
pub mod model;
pub mod provider;
pub mod store;
