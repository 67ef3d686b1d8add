//! Decoding of the fixed 28-byte header that opens a transformer checkpoint:
//! seven little-endian signed 32-bit integers read into a [`Config`].

pub mod byte_order;
pub mod config;
pub mod laws;
pub mod schema;

pub use config::{Config, HeaderError};
