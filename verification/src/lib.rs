//! Animation engine for an addressable LED strip.
//!
//! The color model converts HSV intents to RGB, scales brightness and
//! gamma-corrects; the engine turns animation operations into a sequence
//! of per-pixel frames handed to a transmission sink.

pub mod color;
pub mod engine;
pub mod sink;
pub mod wave;

pub use color::Rgb;
pub use engine::Leds;
pub use sink::Error;
pub use sink::FrameSink;
pub use sink::RecordingSink;
