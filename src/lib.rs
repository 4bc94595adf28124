//! Packing of fixed-width fields into byte buffers at arbitrary bit offsets.
pub mod adt;
pub mod array_bytes_conv;
pub mod bits;
pub mod config;
pub mod discriminant;
pub mod engine;
pub mod error;
pub mod field;
pub mod laws;
pub mod layout;
pub mod push_pop;
pub mod record;
pub mod specifier;
pub mod utils;

pub use engine::{read_specifier, write_specifier};
pub use error::{Error, InvalidBitPattern, OutOfBounds};
pub use field::{check_bounds_and_write, read_field};
pub use specifier::{Specifier, SpecifierBytes, B};
