//! Validation and generation of Finnish personal identity codes (HETU).
//!
//! A code is eleven characters: the birth date as `DDMMYY`, a century
//! marker, a three-digit individual number and a check character.
//! Markers: `+` for the 1800s, `-` and `Y`, `X`, `W`, `V`, `U` for the
//! 1900s, `A` to `F` for the 2000s. Years before 1850 are rejected.

pub mod calendar;
pub mod codec;
pub mod domains;
pub mod error;
pub mod generate;
pub mod iter;
pub mod pattern;
pub mod radix;
mod random;
pub mod ssn;

pub use error::{index_arrows, ErrorIndexRange, GenerateError, ParseError};
pub use generate::{generate_by_pattern_with_any_checksum, generate_by_pattern_with_fixed_checksum};
pub use iter::SsnIterator;
pub use pattern::SsnPattern;
pub use ssn::{Gender, Ssn};
