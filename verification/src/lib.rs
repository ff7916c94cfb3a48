pub mod alphabet;
pub mod audio;
pub mod decoder;
pub mod encoder;
pub mod glyph;
pub mod letter;
pub mod options;
pub mod roundtrip;
pub mod signal;
pub mod strings;

pub use audio::AudioSource;
pub use decoder::decode;
pub use encoder::{encode, TextEncoder};
pub use glyph::{ASCII_DASH, ASCII_DOT, SEPARATOR, UNICODE_DASH, UNICODE_DOT};
pub use letter::{Letter, Symbol};
