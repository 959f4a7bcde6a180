//! HTML entity encoding with a verified classifier and streaming encoder.
//!
//! Text is made safe for embedding in HTML markup by substituting named
//! entities for the reserved characters, and, in attribute mode, numeric
//! `&#xHH;` references for all other single-byte characters outside
//! `[a-zA-Z0-9]`. The encoder takes the zero-allocation path whenever the
//! input contains nothing to escape.

pub mod decode;
pub mod encode;
pub mod model;

pub use encode::{
    encode, encode_attribute, encode_attribute_to, encode_minimal, encode_minimal_to, encode_to,
};
pub use model::Mode;
