//! Helpers for carrying text across a foreign-function boundary: decoding the
//! byte contents of a foreign string handle into an owned `String` (replacing
//! invalid encoding sequences), and viewing a native path value as a borrowed
//! byte sequence or null-terminated byte sequence.

pub mod utf8;
pub mod utils;
