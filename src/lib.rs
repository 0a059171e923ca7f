//! Conversion of region container files between the linear and the
//! checksummed compressed ("blinear") formats.

pub mod bytes;
pub mod tag;
pub mod chunk;
pub mod region_file;
pub mod convert;
pub mod round_trip;
