use vstd::prelude::*;

verus! {

/// The header structure that failed to parse.
#[derive(Debug, Clone, Copy, PartialEq, Eq, Structural)]
pub enum HeaderKind {
    Signature,
    Archive,
    File,
}

/// Everything that can abort the extraction of a file. None is recovered.
#[derive(Debug, Clone, Copy, PartialEq, Eq, Structural)]
pub enum ExtractError {
    /// The next volume could not be opened.
    NotFound,
    /// A header of the next volume did not parse.
    Format(HeaderKind),
    /// The next volume is not of the accepted format version.
    VersionMismatch,
    /// The next volume does not carry the expected volume number.
    SequenceMismatch,
    /// The next volume holds another file than the one being extracted.
    IdentityMismatch,
    /// The file is encrypted and no password was given.
    MissingPassword,
    /// The file's encryption parameters do not fit AES-256-CBC with a
    /// PBKDF2 key (salt or IV of the wrong size, key-derivation exponent too large).
    UnsupportedEncryption,
    /// The volume name does not end in the numbered suffix convention.
    BadVolumeName,
    /// A counter of the chain state would leave its integer range.
    SizeOverflow,
    /// Any other read, write or open failure.
    Io,
}

} // verus!
