//! Composable binary codecs for exact, packed binary layouts.
//!
//! Each codec pairs an encode direction (append a value's bytes to an output
//! buffer) with a decode direction (read the value back from a byte slice),
//! and carries machine-checked proofs that the two directions agree: decoding
//! an encoding yields the original value, and re-encoding a decoded value
//! reproduces the exact bytes that were consumed.
//!
//! Primitive codecs — fixed byte literals, little-endian integers, bit
//! patterns, raw buffers, fixed-table text — compose into codecs for whole
//! records through the container codecs (fixed-arity and counted tuples,
//! unbounded sequences, length-prefixed sequences), without manual
//! byte-offset arithmetic.

pub mod buffer;
pub mod byte_order;
pub mod codec;
pub mod convert;
pub mod error;
pub mod ieee754;
pub mod items;
pub mod length_prefixed;
pub mod literal;
pub mod sequence;
pub mod serde_like;
pub mod text;
pub mod tuple;

pub use buffer::Buffer;
pub use byte_order::ByteOrdered;
pub use byte_order::LittleEndian;
pub use codec::Codec;
pub use codec::EncodeView;
pub use codec::Seed;
pub use convert::TryAsI32;
pub use convert::TryAsI32able;
pub use convert::TryAsU32;
pub use convert::TryAsU32able;
pub use error::Error;
pub use ieee754::IEEE754;
pub use ieee754::IEEE754able;
pub use length_prefixed::LengthPrefixed;
pub use literal::Literal;
pub use sequence::Sequence;
pub use serde_like::NativeCodec;
pub use serde_like::SerdeLike;
pub use text::Windows1252;
pub use tuple::Tuple;
pub use tuple::TupleN;
