//! MTProto cryptography: AES-256 in IGE and CTR mode, SHA-256, the MTProto 2.0 key
//! derivation, and the packing and unpacking of encrypted messages.
pub mod batch;
pub mod bytes;
pub mod counter;
pub mod ctr;
pub mod error;
pub mod ige;
pub mod kdf;
pub mod message;
pub mod primitives;

pub use batch::{ctr256_decrypt_batch, ctr256_encrypt_batch};
pub use ctr::{ctr256_decrypt, ctr256_decrypt_inplace, ctr256_encrypt, ctr256_encrypt_inplace};
pub use error::CryptoError;
pub use ige::{ige256_decrypt, ige256_encrypt};
pub use kdf::kdf;
pub use message::{pack_message, unpack_message};
pub use primitives::sha256_digest;
