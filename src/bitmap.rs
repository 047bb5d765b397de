//! Pixels and images held as plain channel values.

use vstd::prelude::*;

verus! {

/// One pixel: red, green, blue and alpha, eight bits each.
#[derive(Clone, Copy, Debug, PartialEq, Eq, Structural)]
pub struct Pixel {
    pub r: u8,
    pub g: u8,
    pub b: u8,
    pub a: u8,
}

/// Fully transparent black, which stands in for every coordinate outside an image.
pub open spec fn transparent() -> Pixel {
    Pixel { r: 0, g: 0, b: 0, a: 0 }
}

/// Squared difference of two channel values.
pub open spec fn channel_dist(p: u8, q: u8) -> int {
    (p - q) * (p - q)
}

/// Squared Euclidean distance of two pixels over their four channels.
pub open spec fn dist2(p: Pixel, q: Pixel) -> int {
    channel_dist(p.r, q.r) + channel_dist(p.g, q.g) + channel_dist(p.b, q.b) + channel_dist(p.a, q.a)
}

fn channel_distance_squared(p: u8, q: u8) -> (r: u32)
    ensures
        r == channel_dist(p, q),
        r <= 65025,
{
    let d: u32 = if p >= q {
        (p - q) as u32
    } else {
        (q - p) as u32
    };
    assert(d * d <= 65025) by (nonlinear_arith)
        requires
            d <= 255,
    ;
    assert(d * d == (p - q) * (p - q)) by (nonlinear_arith)
        requires
            d == p - q || d == q - p,
    ;
    d * d
}

/// Squared Euclidean distance of two pixels, summed over R, G, B and A.
pub fn rgba_distance_squared(a: Pixel, b: Pixel) -> (r: u32)
    ensures
        r == dist2(a, b),
{
    let dr = channel_distance_squared(a.r, b.r);
    let dg = channel_distance_squared(a.g, b.g);
    let db = channel_distance_squared(a.b, b.b);
    let da = channel_distance_squared(a.a, b.a);
    dr + dg + db + da
}

/// A rectangular grid of pixels, row-major from the top-left corner, stored as
/// four bytes (R, G, B, A) per pixel.
pub struct Image {
    pub width: u32,
    pub height: u32,
    pub data: Vec<u8>,
}

impl Image {
    /// The buffer holds exactly four bytes for each of the `width * height` pixels.
    pub open spec fn wf(&self) -> bool {
        self.data@.len() == 4 * (self.width * self.height)
    }

    pub open spec fn in_bounds(&self, x: int, y: int) -> bool {
        0 <= x < self.width && 0 <= y < self.height
    }

    /// The pixel stored at column `x` of row `y`.
    pub open spec fn pixel_at(&self, x: int, y: int) -> Pixel {
        let i = 4 * (y * self.width + x);
        Pixel {
            r: self.data@[i],
            g: self.data@[i + 1],
            b: self.data@[i + 2],
            a: self.data@[i + 3],
        }
    }

    /// The pixel at `(x, y)`, or transparent black outside the image.
    pub open spec fn sample(&self, x: int, y: int) -> Pixel {
        if self.in_bounds(x, y) {
            self.pixel_at(x, y)
        } else {
            transparent()
        }
    }

    /// An image of the given size over an RGBA buffer; `None` when the buffer
    /// does not hold exactly four bytes per pixel.
    pub fn from_rgba(width: u32, height: u32, data: Vec<u8>) -> (r: Option<Image>)
        ensures
            r is Some <==> data@.len() == 4 * (width * height),
            r matches Some(img) ==> img.wf() && img.width == width && img.height == height
                && img.data@ == data@,
    {
        assert(width * height <= 0xffff_ffff_ffff_ffff) by (nonlinear_arith)
            requires
                width <= 0xffff_ffff,
                height <= 0xffff_ffff,
        ;
        let n: u128 = width as u128 * height as u128;
        if data.len() as u128 == 4 * n {
            Some(Image { width, height, data })
        } else {
            None
        }
    }

    pub fn width(&self) -> (r: u32)
        ensures
            r == self.width,
    {
        self.width
    }

    pub fn height(&self) -> (r: u32)
        ensures
            r == self.height,
    {
        self.height
    }

    /// The pixel at `(x, y)`; the coordinates must lie inside the image.
    pub fn get_pixel(&self, x: u32, y: u32) -> (r: Pixel)
        requires
            self.wf(),
            self.in_bounds(x as int, y as int),
        ensures
            r == self.pixel_at(x as int, y as int),
    {
        let w = self.width as usize;
        let len = self.data.len();
        assert(4 * (y * w + x) + 3 < len) by (nonlinear_arith)
            requires
                y < self.height,
                x < w,
                len == 4 * (w * self.height),
        ;
        let i: usize = 4 * (y as usize * w + x as usize);
        Pixel { r: self.data[i], g: self.data[i + 1], b: self.data[i + 2], a: self.data[i + 3] }
    }

    /// The pixel at `(x, y)`, or `None` outside the image.
    pub fn get_pixel_checked(&self, x: u32, y: u32) -> (r: Option<Pixel>)
        requires
            self.wf(),
        ensures
            r == (if self.in_bounds(x as int, y as int) {
                Some(self.pixel_at(x as int, y as int))
            } else {
                None
            }),
    {
        if x >= self.width || y >= self.height {
            None
        } else {
            Some(self.get_pixel(x, y))
        }
    }
}

} // verus!
