//! Verified core of a touch-screen Pong for a round 466x466 AMOLED board.
//!
//! The library holds everything the firmware decides or computes on integers:
//! the frame buffer and what is painted on it, the bus traffic that brings it
//! to the panel, the touch controller's replies, the rules of the match, the
//! screens and the fireworks.  Hardware access and the floating-point ball
//! physics stay outside and talk to it through plain values.

pub mod arena;
pub mod battery;
pub mod bus;
pub mod canvas;
pub mod color;
pub mod display;
pub mod field;
pub mod fireworks;
pub mod game;
pub mod geometry;
pub mod rng;
pub mod score;
pub mod screens;
pub mod text;
pub mod touch;

pub use display::{framebuf_mut, Display};
pub use rng::Rng;
pub use touch::Touch;
pub use geometry::{bb_union, clip_align, Rect, FRAME_LEN, H, W};
