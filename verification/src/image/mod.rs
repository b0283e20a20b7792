//! Decoded images and the PNG and JPEG decoders.
pub mod inflate;
pub mod filter;
pub mod png;
pub mod scan;
pub mod block;
pub mod jpeg;
pub mod planes;
pub mod load;

use vstd::prelude::*;
use crate::platform::{grid_ok, channel, with_pixel, lemma_index_in_bounds};

verus! {

/// A decoded image: RGBA, 4 bytes per pixel, row-major, top to bottom, left to right.
#[derive(Debug, Clone)]
pub struct Image {
    pub width: u32,
    pub height: u32,
    pub pixels: Vec<u8>,
}

impl Image {
    /// Whether `pixels` holds exactly `width` × `height` pixels.
    pub open spec fn wf(&self) -> bool {
        grid_ok(self.pixels@, self.width as int, self.height as int)
    }

    /// Byte `c` of pixel (x, y).
    pub open spec fn at(&self, x: int, y: int, c: int) -> u8 {
        channel(self.pixels@, self.width as int, x, y, c)
    }

    /// A transparent black image.
    pub fn new(width: u32, height: u32) -> (img: Self)
        requires
            width * height * 4 <= u32::MAX,
        ensures
            img.wf(),
            img.width == width,
            img.height == height,
            forall|i: int| 0 <= i < img.pixels@.len() ==> img.pixels@[i] == 0,
    {
        let n = width * height * 4;
        Image { width, height, pixels: vec![0u8; n as usize] }
    }

    /// Sets pixel (x, y); does nothing outside the image.
    pub fn set_pixel(&mut self, x: u32, y: u32, r: u8, g: u8, b: u8, a: u8)
        requires
            old(self).wf(),
        ensures
            final(self).wf(),
            final(self).width == old(self).width,
            final(self).height == old(self).height,
            x < old(self).width && y < old(self).height ==> final(self).pixels@ == with_pixel(
                old(self).pixels@,
                old(self).width as int,
                x as int,
                y as int,
                r,
                g,
                b,
                a,
            ),
            !(x < old(self).width && y < old(self).height) ==> final(self).pixels@
                == old(self).pixels@,
    {
        if x >= self.width || y >= self.height {
            return;
        }
        proof {
            lemma_index_in_bounds(self.width as int, self.height as int, x as int, y as int, 0);
        }
        let i = ((y * self.width + x) * 4) as usize;
        self.pixels.set(i, r);
        self.pixels.set(i + 1, g);
        self.pixels.set(i + 2, b);
        self.pixels.set(i + 3, a);
    }

    /// Pixel (x, y), or opaque black outside the image.
    pub fn get_pixel(&self, x: u32, y: u32) -> (p: (u8, u8, u8, u8))
        requires
            self.wf(),
        ensures
            x < self.width && y < self.height ==> p == (
                self.at(x as int, y as int, 0),
                self.at(x as int, y as int, 1),
                self.at(x as int, y as int, 2),
                self.at(x as int, y as int, 3),
            ),
            !(x < self.width && y < self.height) ==> p == (0u8, 0u8, 0u8, 255u8),
    {
        if x >= self.width || y >= self.height {
            return (0, 0, 0, 255);
        }
        proof {
            lemma_index_in_bounds(self.width as int, self.height as int, x as int, y as int, 0);
        }
        let i = ((y * self.width + x) * 4) as usize;
        (self.pixels[i], self.pixels[i + 1], self.pixels[i + 2], self.pixels[i + 3])
    }
}

/// Pixel (x, y) of a grid `w` pixels wide as (red, green, blue, alpha).
pub open spec fn grid_pixel(data: Seq<u8>, w: int, x: int, y: int) -> (u8, u8, u8, u8) {
    (channel(data, w, x, y, 0), channel(data, w, x, y, 1), channel(data, w, x, y, 2), channel(data, w, x, y, 3))
}

/// Pixel (x, y) of `img` as (red, green, blue, alpha).
pub open spec fn pixel_of(img: Image, x: int, y: int) -> (u8, u8, u8, u8) {
    grid_pixel(img.pixels@, img.width as int, x, y)
}

/// Why an image could not be decoded.
#[derive(Debug)]
pub struct ImageError(pub String);

impl ImageError {
    /// The message shown to users: "[Image Error] message".
    pub fn to_string(&self) -> (r: String)
        ensures
            r@ == "[Image Error] "@ + self.0@,
    {
        let mut r = crate::text::string_of("[Image Error] ");
        crate::text::append_str(&mut r, self.0.as_str());
        r
    }
}

/// The error an image stage reports, by its message.
pub open spec fn fails_with<T>(r: Result<T, ImageError>, msg: Seq<char>) -> bool {
    r matches Err(e) && e.0@ == msg
}

pub fn error(msg: &str) -> (e: ImageError)
    ensures
        e.0@ == msg@,
{
    ImageError(crate::text::string_of(msg))
}

} // verus!
