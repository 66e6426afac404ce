use vstd::prelude::*;

verus! {

/// The failure taxonomy of the vault core.
///
/// `IoError` is produced only by the unverified shell around the library
/// (file reads and writes); it is part of the shared taxonomy so that the
/// shell and the core report through one type.
#[derive(Clone, Copy, Debug, PartialEq, Eq, Structural)]
pub enum VaultError {
    /// The file could not be read or written.
    IoError,
    /// The bytes do not deserialize into the expected document shape.
    /// In practice this is the signal for a wrong passphrase, a truncated
    /// file, or a foreign file.
    FormatError,
    /// A CRUD operation referenced an id that does not exist.
    NotFoundError,
    /// An operation required a loaded vault, but none is held.
    NoDataError,
    /// The derived key could not initialize the cipher.
    KeyInitError,
}

impl VaultError {
    /// A human-readable description, distinguishing every variant.
    pub fn message(&self) -> (r: &'static str)
        ensures
            r@ == self.spec_message(),
    {
        proof {
            reveal_strlit("file read or write failed");
            reveal_strlit("file contents do not form a valid vault");
            reveal_strlit("no group or record has the given id");
            reveal_strlit("no data loaded");
            reveal_strlit("cipher key initialization failed");
        }
        match self {
            VaultError::IoError => "file read or write failed",
            VaultError::FormatError => "file contents do not form a valid vault",
            VaultError::NotFoundError => "no group or record has the given id",
            VaultError::NoDataError => "no data loaded",
            VaultError::KeyInitError => "cipher key initialization failed",
        }
    }

    pub open spec fn spec_message(&self) -> Seq<char> {
        match self {
            VaultError::IoError => "file read or write failed"@,
            VaultError::FormatError => "file contents do not form a valid vault"@,
            VaultError::NotFoundError => "no group or record has the given id"@,
            VaultError::NoDataError => "no data loaded"@,
            VaultError::KeyInitError => "cipher key initialization failed"@,
        }
    }
}

} // verus!
