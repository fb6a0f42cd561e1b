//! Hue-space and channel-swap pixel transforms for raster images.
//!
//! The library builds continuous hue-remapping functions over the circular
//! domain of degrees `[0, 360)` from a small set of control points, converts
//! pixels between RGB and HSV, swaps colour channels by relative magnitude,
//! and maps a chosen pixel operation over every pixel of an image buffer,
//! one row at a time.
//!
//! All angle and colour arithmetic is exact: angles and HSV components are
//! rational numbers held as integer numerator/denominator pairs, so the
//! remapping functions satisfy their circular-domain laws exactly.

pub mod rat;
pub mod color;
pub mod compose;
pub mod conjugate;
pub mod engine;
pub mod remap;

pub use rat::Frac;
pub use color::{Hsv, Rgb, Rgba};
pub use color::rgb_to_hsv;
pub use conjugate::rgb_conjugate;
pub use remap::{HueMap, RemapError, angle_reflect, linear_piece_any, linear_piece_two};
pub use compose::{ChannelMap, PixelOp, apply_pixel_op, process_hue, process_rgb, rgb_conjugate_wrapper};
pub use engine::{Image, PoolMsg, apply_row, pool_messages, process_image};
pub use color::hsv_to_rgb;
