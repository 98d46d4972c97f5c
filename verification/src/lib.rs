//! Verified core of the MTF tensor container: name hashing, the binary file
//! layout written by the compiler and read back by the engine, half-precision
//! widening and architecture shape checks.
pub mod bytes;
pub mod codec;
pub mod compile;
pub mod decimal;
pub mod engine;
pub mod format;
pub mod generation;
pub mod hash;
pub mod laws;
pub mod layout;
pub mod metadata;
pub mod roundtrip;
pub mod sort;
pub mod tensor;
pub mod validator;

pub use format::{
    QuantType, ALIGNMENT_BOUNDARY, FORMAT_VERSION, MAGIC_BYTES, MAGIC_FOOTER, MIN_ENGINE_VERSION,
};
