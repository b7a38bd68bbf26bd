//! Hides bytes in the least-significant bits of one colour channel of an RGB
//! image, and reads them back.

pub mod bits;
pub mod prelude;
pub mod pixels;
pub mod cursor;
pub mod encoder;
pub mod decoder;
pub mod laws;
pub mod codec;
