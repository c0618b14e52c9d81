//! The native functions of the standard library modules.
pub mod support;
pub mod bytes;
pub mod list;
pub mod map;
pub mod utf8;
pub mod utf16;
pub mod integer;
pub mod string;
pub mod number;
pub mod float;
pub mod stdio;
