//! Fixed-width Base58 text for 128-bit identifiers (UUIDs).
//!
//! A 16-byte identifier is read as a big-endian unsigned integer and written
//! as exactly 22 symbols of the Bitcoin Base58 alphabet; decoding checks every
//! symbol and refuses values that do not fit in 128 bits.
pub mod alphabet;
pub mod codec;
pub mod error;
pub mod generator;
pub mod text;
pub mod uuid_text;

pub use codec::{decode, encode};
pub use error::B58UUIDError;
pub use generator::{generate, generate_from, mark_version4, EntropyUnavailable};
pub use uuid_text::{decode_to_uuid, encode_uuid};
