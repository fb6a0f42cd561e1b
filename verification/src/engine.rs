//! The image-mapping engine: an image is transformed row by row, each
//! output pixel the pixel operation applied to the input pixel at the same
//! position, and the output buffer has the input's dimensions.
//!
//! A worker pool distributes rows over threads: the manager sends every row
//! index exactly once through one ordered task channel, then one stop
//! message per worker, so a worker leaves its loop only on an explicit stop
//! after all real work has been handed out. `pool_messages` is that send
//! plan; the threads themselves live outside this crate's verified core.

use vstd::prelude::*;
use vstd::arithmetic::mul::lemma_mul_is_commutative;
use crate::color::Rgba;
use crate::compose::{PixelOp, pixel_op_wf, spec_apply_pixel_op, apply_pixel_op};

verus! {

/// A raster image: `width * height` pixels, row-major.
pub struct Image {
    pub width: usize,
    pub height: usize,
    pub pixels: Vec<Rgba>,
}

impl Image {
    pub open spec fn wf(&self) -> bool {
        self.pixels@.len() == self.width * self.height
    }
}

/// One message of the worker-pool task channel: the index of an image row
/// to transform, or the order to shut down.
#[derive(Clone, Copy, Debug, PartialEq, Eq, Structural)]
pub enum PoolMsg {
    Row(usize),
    Stop,
}

/// The manager's send plan for `n_rows` row tasks and `n_workers` workers:
/// every row index exactly once, in order, followed by exactly one stop
/// message per worker. A worker that obeys the plan never stops while real
/// work is still queued, and each message is consumed by exactly one
/// worker.
pub fn pool_messages(n_rows: usize, n_workers: usize) -> (msgs: Vec<PoolMsg>)
    requires
        n_rows + n_workers <= usize::MAX,
    ensures
        msgs@.len() == n_rows + n_workers,
        forall|i: int| 0 <= i < n_rows ==> msgs@[i] == PoolMsg::Row(i as usize),
        forall|i: int| n_rows <= i < msgs@.len() ==> msgs@[i] == PoolMsg::Stop,
{
    let mut msgs: Vec<PoolMsg> = Vec::new();
    let mut i: usize = 0;
    while i < n_rows
        invariant
            i <= n_rows,
            msgs@.len() == i,
            forall|t: int| 0 <= t < i ==> msgs@[t] == PoolMsg::Row(t as usize),
        decreases n_rows - i,
    {
        msgs.push(PoolMsg::Row(i));
        i = i + 1;
    }
    let mut w: usize = 0;
    while w < n_workers
        invariant
            w <= n_workers,
            msgs@.len() == n_rows + w,
            forall|t: int| 0 <= t < n_rows ==> msgs@[t] == PoolMsg::Row(t as usize),
            forall|t: int| n_rows <= t < msgs@.len() ==> msgs@[t] == PoolMsg::Stop,
        decreases n_workers - w,
    {
        msgs.push(PoolMsg::Stop);
        w = w + 1;
    }
    msgs
}

/// Positions inside a row stay inside the row-major buffer.
proof fn lemma_row_index(row: int, col: int, width: int, height: int) by (nonlinear_arith)
    requires
        0 <= row < height,
        0 <= col < width,
    ensures
        0 <= row * width + col < height * width,
{
}

/// Transform one row: the pixel operation applied to each pixel of row
/// `row`, left to right. This is the whole work of one row task; distinct
/// rows read and write disjoint memory.
#[verifier::loop_isolation(false)]
pub fn apply_row(op: &PixelOp, img: &Image, row: usize) -> (out: Vec<Rgba>)
    requires
        img.wf(),
        pixel_op_wf(*op),
        row < img.height,
    ensures
        out@.len() == img.width,
        forall|c: int| 0 <= c < img.width ==> out@[c] == spec_apply_pixel_op(
            *op, img.pixels@[row * img.width + c]),
{
    let npix = img.pixels.len();
    let mut out: Vec<Rgba> = Vec::new();
    let mut c: usize = 0;
    while c < img.width
        invariant
            c <= img.width,
            out@.len() == c,
            forall|t: int| 0 <= t < c ==> out@[t] == spec_apply_pixel_op(
                *op, img.pixels@[row * img.width + t]),
        decreases img.width - c,
    {
        proof {
            lemma_row_index(row as int, c as int, img.width as int, img.height as int);
            lemma_mul_is_commutative(img.height as int, img.width as int);
            assert((row as int) * (img.width as int) + (c as int) < npix);
        }
        let px = img.pixels[row * img.width + c];
        out.push(apply_pixel_op(op, px));
        c = c + 1;
    }
    out
}

/// Transform a whole image: a fresh buffer of identical dimensions, each
/// output pixel the operation applied to the input pixel at the same
/// position — every pixel written exactly once, row by row.
#[verifier::loop_isolation(false)]
pub fn process_image(isrc: &Image, op: &PixelOp) -> (out: Image)
    requires
        isrc.wf(),
        pixel_op_wf(*op),
    ensures
        out.wf(),
        out.width == isrc.width,
        out.height == isrc.height,
        out.pixels@.len() == isrc.pixels@.len(),
        forall|i: int| 0 <= i < out.pixels@.len() ==> out.pixels@[i] == spec_apply_pixel_op(
            *op, isrc.pixels@[i]),
{
    let w = isrc.width;
    let h = isrc.height;
    let mut pixels: Vec<Rgba> = Vec::new();
    let mut r: usize = 0;
    while r < h
        invariant
            r <= h,
            pixels@.len() == r * w,
            pixels@.len() <= isrc.pixels@.len(),
            forall|i: int| 0 <= i < pixels@.len() ==> pixels@[i] == spec_apply_pixel_op(
                *op, isrc.pixels@[i]),
        decreases h - r,
    {
        proof {
            assert((r + 1) * w == r * w + w) by (nonlinear_arith);
            assert((r + 1) * w <= h * w) by (nonlinear_arith)
                requires r + 1 <= h, 0 <= w;
            lemma_mul_is_commutative(isrc.height as int, isrc.width as int);
        }
        let mut rowv = apply_row(op, isrc, r);
        let ghost prefix = pixels@;
        let ghost rowseq = rowv@;
        pixels.append(&mut rowv);
        proof {
            assert(pixels@ == prefix + rowseq);
            assert forall|i: int| 0 <= i < pixels@.len() implies pixels@[i]
                == spec_apply_pixel_op(*op, isrc.pixels@[i]) by {
                if i >= prefix.len() {
                    assert(pixels@[i] == rowseq[i - r * w]);
                }
            }
        }
        r = r + 1;
    }
    proof {
        lemma_mul_is_commutative(h as int, w as int);
    }
    Image { width: w, height: h, pixels }
}

} // verus!
