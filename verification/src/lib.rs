//! A terminal text renderer with a diagonally flowing colour gradient.
//!
//! Every character of a text block is coloured by blending two endpoint
//! colours; the blend factor is the character's normalized diagonal distance
//! from the top-left corner, shifted each frame by a global animation phase.
//! All progress arithmetic is exact fixed-point: a progress value is an
//! integer numerator over [`progress::PROGRESS_SCALE`].

pub mod animation;
pub mod color;
pub mod progress;
pub mod render;
pub mod text;

pub use color::Rgb;
