//! Wire codec of the Lightning peer protocol: fixed-width big-endian
//! integers, the `BigSize` variable-length integer and streams of
//! type-length-value records, each decoder with the exact set of inputs it
//! accepts and the error it gives on every other.
//!
//! - `endian`, `hex`: numbers as big-endian bytes, bytes as text.
//! - `ser`: the byte source, the errors, and the traits `Readable`,
//!   `FixedLengthReadable` and `Writeable` with the integers' impls.
//! - `bigsize`: the variable-length integer and its round trip.
//! - `keys`: what of `secp256k1` the codec relies on.
//! - `tlv`: values, records and streams, and what holds of every stream.
//! - `msgs`: the messages; of these `Init` is decoded and rendered.

pub mod bigsize;
pub mod endian;
pub mod hex;
pub mod keys;
pub mod msgs;
pub mod ser;
pub mod tlv;
