//! A bounded-integer parser: converts a text token into a value holding an
//! unsigned integer in the inclusive range 0 to 255, or a classified failure.

pub mod digits;
pub mod thing;
