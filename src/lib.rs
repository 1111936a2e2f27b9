//! Scanning and encoding of JSON values over buffers of code points.
//!
//! Text is held as a sequence of `u32` code points. Unlike `char`, this
//! representation admits unpaired UTF-16 surrogates, which decoding of
//! `\uXXXX` escapes may produce and which encoding must carry through.

pub mod chars;
pub mod cstr;
pub mod decode;
pub mod encode;
pub mod error;
pub mod integer;
pub mod lemmas;
pub mod number;
pub mod repr;
pub mod scan;
