//! Everything that makes a node give up on a benchmark.
use vstd::prelude::*;

verus! {

/// A fatal protocol, cryptographic or framing error.
#[derive(Debug, Clone, Copy, PartialEq, Eq, Structural)]
pub enum ProtocolError {
    /// An input key needs more bytes than a chunk can carry.
    KeyTooLong,
    /// A share blob is not a whole number of records.
    MisalignedBlob,
    /// A decrypted chunk is too short to hold its header.
    TruncatedChunk,
    /// The key length in a decrypted chunk does not fit the chunk.
    InvalidKeyLength,
    /// The key bytes in a decrypted chunk are not UTF-8.
    NotUtf8,
    /// A share names a key that is not among the local inputs.
    UnknownKey,
    /// A public key could not be read from or written to its text form.
    InvalidPublicKey,
    /// Encrypting a chunk failed or gave a ciphertext of the wrong size.
    EncryptionFailed,
    /// Signing gave a signature of the wrong size.
    SigningFailed,
    /// A record's signature does not match its sender.
    BadSignature,
    /// A record could not be decrypted with the local key.
    DecryptionFailed,
}

} // verus!
