//! The frame renderer: one traced color for each pixel of the camera, in a
//! row-major buffer.

use crate::camera::{raster, CameraPixelIterator};
use crate::color::Color;
use vstd::prelude::*;

verus! {

/// Renders a frame of `width` by `height` pixels. `trace` gives the color of
/// the ray that the camera sends through a pixel `(x, y)`; it is asked once
/// for each pixel, in row-major order, and its answer for `(x, y)` stands at
/// `y * width + x` in the frame.
pub fn render<F: Fn(u32, u32) -> Color>(width: u32, height: u32, trace: F) -> (frame: Vec<Color>)
    requires
        width * height <= usize::MAX,
        forall|x: u32, y: u32| x < width && y < height ==> call_requires(trace, (x, y)),
    ensures
        frame@.len() == width * height,
        forall|i: int|
            0 <= i < width * height ==> call_ensures(
                trace,
                raster(width as int, height as int)[i],
                #[trigger] frame@[i],
            ),
{
    let mut frame: Vec<Color> = Vec::new();
    let mut pixels = CameraPixelIterator::new(width, height);
    loop
        invariant
            pixels.width() == width,
            pixels.height() == height,
            0 <= pixels.position() <= width * height,
            frame@.len() == pixels.position(),
            forall|x: u32, y: u32| x < width && y < height ==> call_requires(trace, (x, y)),
            forall|i: int|
                0 <= i < pixels.position() ==> call_ensures(
                    trace,
                    raster(width as int, height as int)[i],
                    #[trigger] frame@[i],
                ),
        decreases width * height - pixels.position(),
    {
        match pixels.next() {
            None => {
                return frame;
            },
            Some((x, y)) => {
                proof {
                    crate::camera::lemma_pixel_at_in_raster(
                        pixels.position() - 1,
                        width as int,
                        height as int,
                    );
                }
                let color = trace(x, y);
                frame.push(color);
            },
        }
    }
}

} // verus!
