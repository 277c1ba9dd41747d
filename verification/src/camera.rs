//! The pixel raster of a camera: the row-major walk over its pixels and the
//! recentering of a pixel coordinate around the middle of the image.

use vstd::prelude::*;

verus! {

/// The pixel that a row-major walk over a raster `width` pixels wide
/// reaches at step `index`, as `(x, y)`.
pub open spec fn pixel_at(index: int, width: int) -> (int, int) {
    (index % width, index / width)
}

/// The place of pixel `(x, y)` in a row-major buffer `width` pixels wide.
pub open spec fn pixel_index(x: int, y: int, width: int) -> int {
    y * width + x
}

/// Whether `(x, y)` is a pixel of a raster of `width` by `height` pixels.
pub open spec fn in_raster(x: int, y: int, width: int, height: int) -> bool {
    0 <= x < width && 0 <= y < height
}

/// Every step of the walk lands on a pixel of the raster, and the place of
/// that pixel in a row-major buffer is the step itself.
pub proof fn lemma_pixel_at_in_raster(index: int, width: int, height: int)
    requires
        0 <= index < width * height,
        0 <= width,
        0 <= height,
    ensures
        in_raster(pixel_at(index, width).0, pixel_at(index, width).1, width, height),
        pixel_index(pixel_at(index, width).0, pixel_at(index, width).1, width) == index,
{
    assert(width != 0) by (nonlinear_arith)
        requires
            0 <= index < width * height,
    ;
    let x = index % width;
    let y = index / width;
    vstd::arithmetic::div_mod::lemma_fundamental_div_mod(index, width);
    assert(0 <= y) by (nonlinear_arith)
        requires
            index == width * y + x,
            0 <= index,
            0 <= x < width,
    ;
    assert(y < height) by (nonlinear_arith)
        requires
            index == width * y + x,
            index < width * height,
            0 <= x < width,
            0 <= y,
    ;
    assert(y * width == width * y) by (nonlinear_arith);
}

/// Every pixel of the raster is reached, at the step that is its place in a
/// row-major buffer, and that step is one of the `width * height` steps.
pub proof fn lemma_pixel_index_in_walk(x: int, y: int, width: int, height: int)
    requires
        in_raster(x, y, width, height),
    ensures
        0 <= pixel_index(x, y, width) < width * height,
        pixel_at(pixel_index(x, y, width), width) == (x, y),
{
    assert(0 <= y * width && y * width + width <= width * height) by (nonlinear_arith)
        requires
            0 <= y < height,
            0 < width,
    ;
    vstd::arithmetic::div_mod::lemma_fundamental_div_mod_converse(
        y * width + x,
        width,
        y,
        x,
    );
}

/// The whole walk over a raster of `width` by `height` pixels, in order.
pub open spec fn raster(width: int, height: int) -> Seq<(u32, u32)> {
    Seq::new(
        (width * height) as nat,
        |i: int| (pixel_at(i, width).0 as u32, pixel_at(i, width).1 as u32),
    )
}

/// The walk over a raster visits exactly `width * height` pixels, each of
/// them a pixel of the raster and none of them twice, and it reaches every
/// pixel `(x, y)` of the raster at step `y * width + x`: row after row from
/// the top, each row from left to right.
pub proof fn lemma_raster_visits_each_pixel_once(width: u32, height: u32)
    ensures
        raster(width as int, height as int).len() == width * height,
        forall|i: int|
            0 <= i < width * height ==> in_raster(
                (#[trigger] raster(width as int, height as int)[i]).0 as int,
                raster(width as int, height as int)[i].1 as int,
                width as int,
                height as int,
            ),
        forall|i: int, j: int|
            0 <= i < width * height && 0 <= j < width * height && i != j ==> #[trigger] raster(
                width as int,
                height as int,
            )[i] != #[trigger] raster(width as int, height as int)[j],
        forall|x: u32, y: u32|
            x < width && y < height ==> 0 <= #[trigger] pixel_index(
                x as int,
                y as int,
                width as int,
            ) < width * height && raster(width as int, height as int)[pixel_index(
                x as int,
                y as int,
                width as int,
            )] == (x, y),
{
    let (w, h) = (width as int, height as int);
    assert(0 <= w * h) by (nonlinear_arith)
        requires
            0 <= w,
            0 <= h,
    ;
    assert forall|i: int| 0 <= i < w * h implies in_raster(
        (#[trigger] raster(w, h)[i]).0 as int,
        raster(w, h)[i].1 as int,
        w,
        h,
    ) by {
        lemma_pixel_at_in_raster(i, w, h);
    }
    assert forall|i: int, j: int| 0 <= i < w * h && 0 <= j < w * h && i != j implies #[trigger] raster(
        w,
        h,
    )[i] != #[trigger] raster(w, h)[j] by {
        lemma_pixel_at_in_raster(i, w, h);
        lemma_pixel_at_in_raster(j, w, h);
    }
    assert forall|x: u32, y: u32| x < width && y < height implies 0 <= #[trigger] pixel_index(
        x as int,
        y as int,
        w,
    ) < w * h && raster(w, h)[pixel_index(x as int, y as int, w)] == (x, y) by {
        lemma_pixel_index_in_walk(x as int, y as int, w, h);
    }
}

/// A walk over the pixels of a camera in row-major order: left to right
/// within a row, rows from the top down. It is made anew for each pass.
pub struct CameraPixelIterator {
    width: u32,
    height: u32,
    index: u64,
}

impl CameraPixelIterator {
    /// The width of the raster, in pixels.
    pub closed spec fn width(&self) -> int {
        self.width as int
    }

    /// The height of the raster, in pixels.
    pub closed spec fn height(&self) -> int {
        self.height as int
    }

    /// The number of pixels handed out so far.
    pub closed spec fn position(&self) -> int {
        self.index as int
    }

    #[verifier::type_invariant]
    spec fn within_raster(self) -> bool {
        self.index <= self.width * self.height
    }

    /// Starts a walk at the top left pixel.
    pub fn new(width: u32, height: u32) -> (iter: CameraPixelIterator)
        ensures
            iter.width() == width,
            iter.height() == height,
            iter.position() == 0,
    {
        assert(0 <= width * height) by (nonlinear_arith);
        CameraPixelIterator { width, height, index: 0 }
    }

    /// Hands out the next pixel as `(x, y)`, or `None` once all
    /// `width * height` pixels have been handed out.
    pub fn next(&mut self) -> (pixel: Option<(u32, u32)>)
        ensures
            final(self).width() == old(self).width(),
            final(self).height() == old(self).height(),
            0 <= old(self).position() <= old(self).width() * old(self).height(),
            old(self).position() == old(self).width() * old(self).height() ==> pixel is None
                && final(self).position() == old(self).position(),
            old(self).position() < old(self).width() * old(self).height() ==> pixel == Some(
                raster(old(self).width(), old(self).height())[old(self).position()],
            ) && final(self).position() == old(self).position() + 1,
    {
        proof {
            use_type_invariant(&*self);
        }
        assert(self.width * self.height <= 0xffff_ffff * 0xffff_ffff) by (nonlinear_arith)
            requires
                self.width <= 0xffff_ffff,
                self.height <= 0xffff_ffff,
        ;
        let total: u64 = self.width as u64 * self.height as u64;
        if self.index == total {
            None
        } else {
            proof {
                lemma_pixel_at_in_raster(self.index as int, self.width as int, self.height as int);
            }
            let x: u64 = self.index % self.width as u64;
            let y: u64 = self.index / self.width as u64;
            self.index = self.index + 1;
            Some((x as u32, y as u32))
        }
    }

    /// Hands out all the pixels that are left, in order.
    pub fn collect(self) -> (pixels: Vec<(u32, u32)>)
        requires
            self.width() * self.height() - self.position() <= usize::MAX,
        ensures
            pixels@ == raster(self.width(), self.height()).skip(self.position()),
    {
        proof {
            use_type_invariant(&self);
        }
        let mut iter = self;
        let mut pixels: Vec<(u32, u32)> = Vec::new();
        loop
            invariant
                iter.width() == self.width(),
                iter.height() == self.height(),
                self.position() <= iter.position() <= self.width() * self.height(),
                pixels@ == raster(self.width(), self.height()).subrange(
                    self.position(),
                    iter.position(),
                ),
            decreases self.width() * self.height() - iter.position(),
        {
            match iter.next() {
                None => {
                    return pixels;
                },
                Some(pixel) => {
                    pixels.push(pixel);
                },
            }
        }
    }
}

/// Recenters a pixel coordinate so that the middle of the image is `(0, 0)`,
/// `x` growing to the right and `y` growing upwards.
pub fn recenter(x: u32, y: u32, width: u32, height: u32) -> (centered: (i64, i64))
    ensures
        centered.0 == x - width / 2,
        centered.1 == height / 2 - y,
{
    (x as i64 - (width / 2) as i64, (height / 2) as i64 - y as i64)
}

} // verus!
