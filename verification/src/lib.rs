//! Decoder for a line-oriented, section-delimited rhythm-game chart format.
//!
//! Every decoder is a pure function from the bytes of one record to a typed
//! value or a [`error::DecodeError`]; its contract equates the result with a
//! specification function over the same bytes.

pub mod analysis;
pub mod chart;
pub mod curve;
pub mod customization;
pub mod decimal;
pub mod error;
pub mod flags;
pub mod from_str;
pub mod hit_object;
pub mod rational;
pub mod sample;
pub mod text;
pub mod timing_point;
pub mod utility;
