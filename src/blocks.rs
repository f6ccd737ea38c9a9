use vstd::prelude::*;

verus! {

/// The archive format version marker found at the start of every volume.
#[derive(Debug, Clone, Copy, PartialEq, Eq, Structural)]
pub enum SignatureBlock {
    Rar4,
    Rar5,
}

/// Per-volume metadata of the archive.
#[derive(Debug, Clone, Copy, PartialEq, Eq, Structural)]
pub struct ArchiveBlock {
    /// The position of this volume in the sequence of volumes.
    pub volume_number: u64,
}

/// The parameters of an encrypted file's data. The password is not stored.
#[derive(Debug, Clone)]
pub struct EncryptionParams {
    pub kdf_count: u8,
    pub salt: Vec<u8>,
    pub iv: Vec<u8>,
}

/// Metadata of one file entry, as one volume's header declares it.
#[derive(Debug, Clone)]
pub struct FileBlock {
    /// Identifies the file; the same in every volume holding its data.
    pub name: String,
    /// The file's data region continues into the next volume.
    pub data_next: bool,
    /// Length of the file's data region within this volume.
    pub data_area_size: u64,
    /// The size of the file once extracted.
    pub unpacked_size: u64,
    /// Present when the data is encrypted.
    pub encryption: Option<EncryptionParams>,
}

} // verus!
