//! Lifting a hue-angle map or a channel operation into a uniform pixel
//! operation: RGBA in, RGBA out, alpha always passed through unchanged.

use vstd::prelude::*;
use crate::color::{
    Rgb, Rgba, Hsv, HsvG, spec_rgb_to_hsv, spec_hsv_to_rgb, rgb_to_hsv, hsv_to_rgb,
};
use crate::conjugate::{rgb_conjugate, spec_rgb_conjugate};
use crate::remap::{HueMap, huemap_wf, spec_eval_hue};

verus! {

/// An operation on the RGB channels alone.
pub enum ChannelMap {
    /// Swap the two channels not holding the extreme value (the maximum
    /// when `pick_max`, else the minimum).
    Conjugate { pick_max: bool },
}

/// A pixel operation: remap the hue angle and keep saturation and value,
/// or rearrange the RGB channels.
pub enum PixelOp {
    Hue(HueMap),
    Channel(ChannelMap),
}

pub open spec fn pixel_op_wf(op: PixelOp) -> bool {
    match op {
        PixelOp::Hue(m) => huemap_wf(m),
        PixelOp::Channel(_) => true,
    }
}

/// What one pixel becomes: for a hue operation, convert RGB to HSV, remap
/// only the hue, and convert back; for a channel operation, conjugate the
/// RGB channels. The alpha channel is untouched either way.
pub open spec fn spec_apply_pixel_op(op: PixelOp, px: Rgba) -> Rgba {
    match op {
        PixelOp::Hue(m) => {
            let hsv = spec_rgb_to_hsv(Rgb { r: px.r, g: px.g, b: px.b });
            let rgb = spec_hsv_to_rgb(HsvG { h: spec_eval_hue(m, hsv.h), s: hsv.s, v: hsv.v });
            Rgba { r: rgb.r, g: rgb.g, b: rgb.b, a: px.a }
        },
        PixelOp::Channel(ChannelMap::Conjugate { pick_max }) => {
            let rgb = spec_rgb_conjugate(Rgb { r: px.r, g: px.g, b: px.b }, pick_max);
            Rgba { r: rgb.r, g: rgb.g, b: rgb.b, a: px.a }
        },
    }
}

/// Lift a hue-angle map to a pixel operation.
pub fn process_hue(op: HueMap) -> (r: PixelOp)
    ensures
        r == PixelOp::Hue(op),
{
    PixelOp::Hue(op)
}

/// Lift an RGB channel operation to a pixel operation.
pub fn process_rgb(op: ChannelMap) -> (r: PixelOp)
    ensures
        r == PixelOp::Channel(op),
{
    PixelOp::Channel(op)
}

/// The channel-conjugation pixel operation: `minmax` true keeps the
/// maximum-holding channel in place, false the minimum-holding one.
pub fn rgb_conjugate_wrapper(minmax: bool) -> (r: PixelOp)
    ensures
        r == PixelOp::Channel(ChannelMap::Conjugate { pick_max: minmax }),
{
    PixelOp::Channel(ChannelMap::Conjugate { pick_max: minmax })
}

/// Apply a pixel operation to one RGBA pixel.
pub fn apply_pixel_op(op: &PixelOp, px: Rgba) -> (out: Rgba)
    requires
        pixel_op_wf(*op),
    ensures
        out == spec_apply_pixel_op(*op, px),
        out.a == px.a,
{
    match op {
        PixelOp::Hue(m) => {
            let rgb = Rgb { r: px.r, g: px.g, b: px.b };
            let hsv = rgb_to_hsv(&rgb);
            let h2 = m.eval(&hsv.h);
            let hsv2 = Hsv { h: h2, s: hsv.s, v: hsv.v };
            let rgb2 = hsv_to_rgb(&hsv2);
            Rgba { r: rgb2.r, g: rgb2.g, b: rgb2.b, a: px.a }
        },
        PixelOp::Channel(ChannelMap::Conjugate { pick_max }) => {
            let rgb2 = rgb_conjugate(&Rgb { r: px.r, g: px.g, b: px.b }, *pick_max);
            Rgba { r: rgb2.r, g: rgb2.g, b: rgb2.b, a: px.a }
        },
    }
}

} // verus!
