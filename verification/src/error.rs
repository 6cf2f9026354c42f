//! The reasons for which an operation refuses its input.
use vstd::prelude::*;

verus! {

/// Why an operation refused its input.
#[derive(Debug, Clone, Copy, PartialEq, Eq, Structural)]
pub enum CryptoError {
    /// The AES key is not 32 bytes long.
    KeyLength,
    /// The IGE initialisation vector is not 32 bytes long.
    IgeIvLength,
    /// The CTR initialisation vector is not 16 bytes long.
    CtrIvLength,
    /// A batch does not hold 16 bytes of initialisation vector for each item.
    BatchIvsLength,
    /// A batch does not hold 4 bytes of size for each item.
    BatchSizesLength,
    /// The sizes of a batch add up to more than the machine can address.
    BatchSizeOverflow,
    /// The data of a batch is shorter than its sizes say.
    BatchDataTooShort,
    /// The authorization key is not 256 bytes long.
    AuthKeyLength,
    /// The authorization key identifier is not 8 bytes long.
    AuthKeyIdLength,
    /// A packed message is shorter than its header.
    PackedTooShort,
    /// A packed message names another authorization key.
    AuthKeyIdMismatch,
    /// A packed message does not have the message key of its content.
    MsgKeyMismatch,
    /// A packed message belongs to another session.
    SessionIdMismatch,
    /// A packed message gives a negative body length.
    NegativeBodyLength,
    /// A packed message gives a body length beyond its content.
    BodyTooLong,
}

impl CryptoError {
    /// The text that callers show for this error.
    pub open spec fn text(self) -> Seq<char> {
        match self {
            CryptoError::KeyLength => "Key must be 32 bytes"@,
            CryptoError::IgeIvLength => "IV must be 32 bytes"@,
            CryptoError::CtrIvLength => "IV must be 16 bytes"@,
            CryptoError::BatchIvsLength => "ivs must be 16*n bytes"@,
            CryptoError::BatchSizesLength => "sizes must be 4*n bytes"@,
            CryptoError::BatchSizeOverflow => "total data size overflow"@,
            CryptoError::BatchDataTooShort => "data_flat too short for given sizes"@,
            CryptoError::AuthKeyLength => "auth_key must be 256 bytes"@,
            CryptoError::AuthKeyIdLength => "auth_key_id must be 8 bytes"@,
            CryptoError::PackedTooShort => "packed data too short"@,
            CryptoError::AuthKeyIdMismatch => "auth_key_id mismatch"@,
            CryptoError::MsgKeyMismatch => "msg_key mismatch"@,
            CryptoError::SessionIdMismatch => "session_id mismatch"@,
            CryptoError::NegativeBodyLength => "negative body length"@,
            CryptoError::BodyTooLong => "body length exceeds decrypted data"@,
        }
    }

    /// Returns the text of this error.
    pub fn message(&self) -> (text: &'static str)
        ensures
            text@ == self.text(),
    {
        match self {
            CryptoError::KeyLength => "Key must be 32 bytes",
            CryptoError::IgeIvLength => "IV must be 32 bytes",
            CryptoError::CtrIvLength => "IV must be 16 bytes",
            CryptoError::BatchIvsLength => "ivs must be 16*n bytes",
            CryptoError::BatchSizesLength => "sizes must be 4*n bytes",
            CryptoError::BatchSizeOverflow => "total data size overflow",
            CryptoError::BatchDataTooShort => "data_flat too short for given sizes",
            CryptoError::AuthKeyLength => "auth_key must be 256 bytes",
            CryptoError::AuthKeyIdLength => "auth_key_id must be 8 bytes",
            CryptoError::PackedTooShort => "packed data too short",
            CryptoError::AuthKeyIdMismatch => "auth_key_id mismatch",
            CryptoError::MsgKeyMismatch => "msg_key mismatch",
            CryptoError::SessionIdMismatch => "session_id mismatch",
            CryptoError::NegativeBodyLength => "negative body length",
            CryptoError::BodyTooLong => "body length exceeds decrypted data",
        }
    }
}

} // verus!
