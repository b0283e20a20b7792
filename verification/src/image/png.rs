//! PNG decoding: chunk parsing and the conversion of every colour type and bit depth to
//! RGBA; the image data is inflated by `super::inflate` and its rows unfiltered by
//! `super::filter`. Interlaced images are refused.
use vstd::prelude::*;
use super::{Image, ImageError, fails_with, error, grid_pixel};
use super::inflate::{zlib_spec, inflate_zlib};
use super::filter::{unfilter, unfilter_spec, sub_byte, sub_byte_spec, sub_byte_or_8, sub_byte_or_8_spec, byte_or_zero};
use crate::text::{string_of, append_str, append_decimal, append_decimal_u64, decimal};
use crate::platform::lemma_with_pixel;

verus! {

// ─── Byte reader ────────────────────────────────────────────

pub open spec fn end_of_png() -> Seq<char> {
    "Unexpected end of PNG"@
}

pub open spec fn end_of_png_skipping() -> Seq<char> {
    "Unexpected end of PNG while skipping"@
}

/// The big-endian 32-bit value at byte `i`.
pub open spec fn be32(d: Seq<u8>, i: int) -> int {
    d[i] as int * 0x1000000 + d[i + 1] as int * 0x10000 + d[i + 2] as int * 0x100 + d[i + 3] as int
}

/// Reads the bytes of a PNG file in order.
pub struct Reader<'a> {
    pub data: &'a [u8],
    pub pos: usize,
}

impl<'a> Reader<'a> {
    pub open spec fn wf(&self) -> bool {
        self.pos <= self.data@.len()
    }

    pub fn new(data: &'a [u8]) -> (r: Self)
        ensures
            r.wf(),
            r.data@ == data@,
            r.pos == 0,
    {
        Reader { data, pos: 0 }
    }

    pub fn read_u8(&mut self) -> (r: Result<u8, ImageError>)
        requires
            old(self).wf(),
        ensures
            final(self).wf(),
            final(self).data@ == old(self).data@,
            if old(self).pos < old(self).data@.len() {
                r == Ok::<u8, ImageError>(old(self).data@[old(self).pos as int]) && final(self).pos == old(self).pos + 1
            } else {
                fails_with(r, end_of_png())
            },
    {
        if self.pos < self.data.len() {
            let b = self.data[self.pos];
            self.pos = self.pos + 1;
            Ok(b)
        } else {
            Err(error("Unexpected end of PNG"))
        }
    }

    pub fn read_u32_be(&mut self) -> (r: Result<u32, ImageError>)
        requires
            old(self).wf(),
        ensures
            final(self).wf(),
            final(self).data@ == old(self).data@,
            if old(self).pos + 4 <= old(self).data@.len() {
                r matches Ok(v) && v as int == be32(old(self).data@, old(self).pos as int)
                    && final(self).pos == old(self).pos + 4
            } else {
                fails_with(r, end_of_png())
            },
    {
        let a = self.read_u8()? as u32;
        let b = self.read_u8()? as u32;
        let c = self.read_u8()? as u32;
        let d = self.read_u8()? as u32;
        proof {
            assert((a << 24) | (b << 16) | (c << 8) | d == a * 0x1000000 + b * 0x10000 + c * 0x100 + d)
                by (bit_vector)
                requires
                    a < 256,
                    b < 256,
                    c < 256,
                    d < 256,
            ;
        }
        Ok((a << 24) | (b << 16) | (c << 8) | d)
    }

    pub fn read_bytes(&mut self, n: usize) -> (r: Result<&'a [u8], ImageError>)
        requires
            old(self).wf(),
        ensures
            final(self).wf(),
            final(self).data@ == old(self).data@,
            if old(self).pos + n <= old(self).data@.len() {
                r matches Ok(v) && v@ == old(self).data@.subrange(
                    old(self).pos as int,
                    old(self).pos + n,
                ) && final(self).pos == old(self).pos + n
            } else {
                fails_with(r, end_of_png())
            },
    {
        if n > self.data.len() - self.pos {
            return Err(error("Unexpected end of PNG"));
        }
        let s = vstd::slice::slice_subrange(self.data, self.pos, self.pos + n);
        self.pos = self.pos + n;
        Ok(s)
    }

    pub fn skip(&mut self, n: u64) -> (r: Result<(), ImageError>)
        requires
            old(self).wf(),
        ensures
            final(self).wf(),
            final(self).data@ == old(self).data@,
            if old(self).pos + n <= old(self).data@.len() {
                r is Ok && final(self).pos == old(self).pos + n
            } else {
                fails_with(r, end_of_png_skipping())
            },
    {
        if n > (self.data.len() - self.pos) as u64 {
            return Err(error("Unexpected end of PNG while skipping"));
        }
        self.pos = self.pos + n as usize;
        Ok(())
    }
}

// ─── Chunks ─────────────────────────────────────────────────

pub const PNG_SIG: [u8; 8] = [0x89, 0x50, 0x4E, 0x47, 0x0D, 0x0A, 0x1A, 0x0A];

pub const CT_GRAY: u8 = 0;

pub const CT_RGB: u8 = 2;

pub const CT_INDEXED: u8 = 3;

pub const CT_GRAY_ALPHA: u8 = 4;

pub const CT_RGBA: u8 = 6;

/// What the chunks of a PNG file say: the header fields, the palette and the compressed
/// image data.
pub struct PngInfo {
    pub width: u32,
    pub height: u32,
    pub bit_depth: u8,
    pub color_type: u8,
    pub palette: Seq<(u8, u8, u8)>,
    pub idat: Seq<u8>,
}

pub open spec fn png_tag(c0: char, c1: char, c2: char, c3: char) -> Seq<u8> {
    seq![c0 as u8, c1 as u8, c2 as u8, c3 as u8]
}

/// The palette entries of a PLTE chunk of `n` bytes at `p`.
pub open spec fn plte_entries(d: Seq<u8>, p: int, n: int) -> Seq<(u8, u8, u8)> {
    Seq::new((n / 3) as nat, |i: int| (d[p + 3 * i], d[p + 3 * i + 1], d[p + 3 * i + 2]))
}

/// Reading the chunks from byte `pos` on, up to IEND: IHDR sets the header (interlaced
/// images are refused), PLTE the palette, IDAT chunks add to the image data, other chunks are
/// skipped; each chunk's CRC is skipped unchecked.
pub open spec fn chunks_from(d: Seq<u8>, pos: int, info: PngInfo) -> Result<PngInfo, Seq<char>>
    decreases d.len() - pos,
{
    if pos < 0 || pos + 8 > d.len() {
        Err(end_of_png())
    } else {
        let length = be32(d, pos);
        let p = pos + 8;
        let tag = d.subrange(pos + 4, pos + 8);
        if tag == png_tag('I', 'H', 'D', 'R') {
            if p + 13 > d.len() {
                Err(end_of_png())
            } else if d[p + 12] != 0 {
                Err("Interlaced PNG not supported"@)
            } else if p + 17 > d.len() {
                Err(end_of_png_skipping())
            } else {
                chunks_from(
                    d,
                    p + 17,
                    PngInfo {
                        width: be32(d, p) as u32,
                        height: be32(d, p + 4) as u32,
                        bit_depth: d[p + 8],
                        color_type: d[p + 9],
                        palette: info.palette,
                        idat: info.idat,
                    },
                )
            }
        } else if tag == png_tag('P', 'L', 'T', 'E') {
            if length % 3 != 0 {
                Err("PLTE length not divisible by 3"@)
            } else if p + length > d.len() {
                Err(end_of_png())
            } else if p + length + 4 > d.len() {
                Err(end_of_png_skipping())
            } else {
                chunks_from(
                    d,
                    p + length + 4,
                    PngInfo {
                        width: info.width,
                        height: info.height,
                        bit_depth: info.bit_depth,
                        color_type: info.color_type,
                        palette: plte_entries(d, p, length),
                        idat: info.idat,
                    },
                )
            }
        } else if tag == png_tag('I', 'D', 'A', 'T') {
            if p + length > d.len() {
                Err(end_of_png())
            } else if p + length + 4 > d.len() {
                Err(end_of_png_skipping())
            } else {
                chunks_from(
                    d,
                    p + length + 4,
                    PngInfo {
                        width: info.width,
                        height: info.height,
                        bit_depth: info.bit_depth,
                        color_type: info.color_type,
                        palette: info.palette,
                        idat: info.idat + d.subrange(p, p + length),
                    },
                )
            }
        } else if tag == png_tag('I', 'E', 'N', 'D') {
            if p + length + 4 > d.len() {
                Err(end_of_png_skipping())
            } else {
                Ok(info)
            }
        } else if p + length + 4 > d.len() {
            Err(end_of_png_skipping())
        } else {
            chunks_from(d, p + length + 4, info)
        }
    }
}

/// The decoder's state: the reader and what the chunks read so far say.
pub struct PngDecoder<'a> {
    pub r: Reader<'a>,
    pub width: u32,
    pub height: u32,
    pub bit_depth: u8,
    pub color_type: u8,
    pub palette: Vec<(u8, u8, u8)>,
    pub idat: Vec<u8>,
}

impl<'a> PngDecoder<'a> {
    pub open spec fn info(&self) -> PngInfo {
        PngInfo {
            width: self.width,
            height: self.height,
            bit_depth: self.bit_depth,
            color_type: self.color_type,
            palette: self.palette@,
            idat: self.idat@,
        }
    }

    pub fn new(data: &'a [u8]) -> (d: Self)
        ensures
            d.r.wf(),
            d.r.data@ == data@,
            d.r.pos == 0,
            d.info() == (PngInfo {
                width: 0,
                height: 0,
                bit_depth: 0,
                color_type: 0,
                palette: seq![],
                idat: seq![],
            }),
    {
        PngDecoder {
            r: Reader::new(data),
            width: 0,
            height: 0,
            bit_depth: 0,
            color_type: 0,
            palette: Vec::new(),
            idat: Vec::new(),
        }
    }

    fn parse_ihdr(&mut self) -> (r: Result<(), ImageError>)
        requires
            old(self).r.wf(),
        ensures
            final(self).r.wf(),
            final(self).r.data@ == old(self).r.data@,
            final(self).palette == old(self).palette,
            final(self).idat == old(self).idat,
            ({
                let d = old(self).r.data@;
                let p = old(self).r.pos as int;
                if p + 13 > d.len() {
                    fails_with(r, end_of_png())
                } else if d[p + 12] != 0 {
                    fails_with(r, "Interlaced PNG not supported"@)
                } else {
                    &&& r is Ok
                    &&& final(self).r.pos == p + 13
                    &&& final(self).width as int == be32(d, p)
                    &&& final(self).height as int == be32(d, p + 4)
                    &&& final(self).bit_depth == d[p + 8]
                    &&& final(self).color_type == d[p + 9]
                }
            }),
    {
        self.width = self.r.read_u32_be()?;
        self.height = self.r.read_u32_be()?;
        self.bit_depth = self.r.read_u8()?;
        self.color_type = self.r.read_u8()?;
        let _c = self.r.read_u8()?;
        let _f = self.r.read_u8()?;
        let interlace = self.r.read_u8()?;
        if interlace != 0 {
            return Err(error("Interlaced PNG not supported"));
        }
        Ok(())
    }

    fn parse_plte(&mut self, length: usize) -> (r: Result<(), ImageError>)
        requires
            old(self).r.wf(),
        ensures
            final(self).r.wf(),
            final(self).r.data@ == old(self).r.data@,
            final(self).width == old(self).width,
            final(self).height == old(self).height,
            final(self).bit_depth == old(self).bit_depth,
            final(self).color_type == old(self).color_type,
            final(self).idat == old(self).idat,
            ({
                let d = old(self).r.data@;
                let p = old(self).r.pos as int;
                if length % 3 != 0 {
                    fails_with(r, "PLTE length not divisible by 3"@)
                } else if p + length > d.len() {
                    fails_with(r, end_of_png())
                } else {
                    &&& r is Ok
                    &&& final(self).r.pos == p + length
                    &&& final(self).palette@ == plte_entries(d, p, length as int)
                }
            }),
    {
        if length % 3 != 0 {
            return Err(error("PLTE length not divisible by 3"));
        }
        let ghost p = self.r.pos as int;
        let data = self.r.read_bytes(length)?;
        self.palette.clear();
        let mut i: usize = 0;
        while i < length / 3
            invariant
                data@ == self.r.data@.subrange(p, p + length),
                p + length <= self.r.data@.len(),
                self.r.wf(),
                self.r.pos == p + length,
                self.r.data@ == old(self).r.data@,
                p == old(self).r.pos,
                length % 3 == 0,
                self.width == old(self).width,
                self.height == old(self).height,
                self.bit_depth == old(self).bit_depth,
                self.color_type == old(self).color_type,
                self.idat == old(self).idat,
                i <= length / 3,
                self.palette@ == plte_entries(self.r.data@, p, length as int).take(i as int),
            decreases length / 3 - i,
        {
            assert(i * 3 + 2 < length) by (nonlinear_arith)
                requires
                    i < length / 3,
                    length % 3 == 0,
            ;
            self.palette.push((data[i * 3], data[i * 3 + 1], data[i * 3 + 2]));
            i = i + 1;
            assert(self.palette@ =~= plte_entries(self.r.data@, p, length as int).take(i as int));
        }
        assert(self.palette@ =~= plte_entries(self.r.data@, p, length as int));
        Ok(())
    }
}

// ─── Pixels ─────────────────────────────────────────────────

/// Samples per pixel of a colour type; 0 for an unknown type.
pub open spec fn channels_of(ct: u8) -> int {
    if ct == CT_GRAY || ct == CT_INDEXED {
        1
    } else if ct == CT_GRAY_ALPHA {
        2
    } else if ct == CT_RGB {
        3
    } else if ct == CT_RGBA {
        4
    } else {
        0
    }
}

/// Sample `c` of pixel `x`: a byte at depth 8, the high byte at depth 16, and a scaled
/// sub-byte sample at smaller depths.
pub open spec fn sample_spec(row: Seq<u8>, x: int, c: int, channels: int, bd: u8) -> u8 {
    if bd == 8 {
        byte_or_zero(row, x * channels + c)
    } else if bd == 16 {
        byte_or_zero(row, (x * channels + c) * 2)
    } else {
        sub_byte_spec(row, x, bd)
    }
}

/// Pixel `x` of an unfiltered row as RGBA: grey (scaled to 0..255 at depths below 8) is
/// copied to red, green and blue, palette indices are looked up as stored, unscaled (black
/// past the palette's end), and alpha is opaque unless the colour type has it.
pub open spec fn pixel_spec(info: PngInfo, row: Seq<u8>, x: int) -> (u8, u8, u8, u8) {
    let ch = channels_of(info.color_type);
    let bd = info.bit_depth;
    let ct = info.color_type;
    if ct == CT_GRAY {
        let v = sample_spec(row, x, 0, ch, bd);
        (v, v, v, 255)
    } else if ct == CT_RGB {
        (sample_spec(row, x, 0, ch, bd), sample_spec(row, x, 1, ch, bd), sample_spec(row, x, 2, ch, bd), 255)
    } else if ct == CT_INDEXED {
        let idx = sub_byte_or_8_spec(row, x, bd, ch) as int;
        let (r, g, b) = if idx < info.palette.len() {
            info.palette[idx]
        } else {
            (0u8, 0u8, 0u8)
        };
        (r, g, b, 255)
    } else if ct == CT_GRAY_ALPHA {
        let v = sample_spec(row, x, 0, ch, bd);
        (v, v, v, sample_spec(row, x, 1, ch, bd))
    } else {
        (sample_spec(row, x, 0, ch, bd), sample_spec(row, x, 1, ch, bd), sample_spec(row, x, 2, ch, bd), sample_spec(row, x, 3, ch, bd))
    }
}

fn sample(row: &[u8], x: usize, c: usize, channels: usize, bd: u8) -> (v: u8)
    requires
        c < channels <= 4,
        x <= u32::MAX,
    ensures
        v == sample_spec(row@, x as int, c as int, channels as int, bd),
{
    assert(x * channels <= 4 * 0xFFFF_FFFF) by (nonlinear_arith)
        requires
            x <= u32::MAX,
            channels <= 4,
    ;
    if bd == 8 {
        let i: u64 = x as u64 * channels as u64 + c as u64;
        if i < row.len() as u64 {
            row[i as usize]
        } else {
            0
        }
    } else if bd == 16 {
        let i: u64 = (x as u64 * channels as u64 + c as u64) * 2;
        if i < row.len() as u64 {
            row[i as usize]
        } else {
            0
        }
    } else {
        sub_byte(row, x, bd)
    }
}

// ─── Rows ───────────────────────────────────────────────────

/// Bytes of filtered data per row.
pub open spec fn row_bytes(info: PngInfo) -> int {
    (info.width * channels_of(info.color_type) * info.bit_depth + 7) / 8
}

/// Bytes per complete pixel, at least 1 (the filters' left distance).
pub open spec fn bytes_per_pixel(info: PngInfo) -> int {
    let b = (channels_of(info.color_type) * info.bit_depth + 7) / 8;
    if b >= 1 {
        b
    } else {
        1
    }
}

pub open spec fn truncated_msg(y: int, have: int, need: int) -> Seq<char> {
    "PNG data truncated at row "@ + decimal(y as nat) + " (have "@ + decimal(have as nat)
        + " bytes, need "@ + decimal(need as nat) + ")"@
}

/// The unfiltered rows `y..h`, reading filtered row `y` at byte `pos` after `prev`.
pub open spec fn rows_from(f: Seq<u8>, rb: int, bpp: int, h: int, y: int, pos: int, prev: Seq<u8>, acc: Seq<Seq<u8>>) -> Result<Seq<Seq<u8>>, Seq<char>>
    decreases h - y,
{
    if y >= h {
        Ok(acc)
    } else if pos + 1 + rb > f.len() {
        Err(truncated_msg(y, f.len() - pos, 1 + rb))
    } else if f[pos] > 4 {
        Err("Unknown PNG filter type "@ + decimal(f[pos] as nat))
    } else {
        let row = unfilter_spec(f[pos], f.subrange(pos + 1, pos + 1 + rb), prev, bpp);
        rows_from(f, rb, bpp, h, y + 1, pos + 1 + rb, row, acc.push(row))
    }
}

/// The unfiltered rows of the image, or the error met (the colour type first).
pub open spec fn rows_spec(info: PngInfo, f: Seq<u8>) -> Result<Seq<Seq<u8>>, Seq<char>> {
    if channels_of(info.color_type) == 0 {
        Err("Unknown PNG color type "@ + decimal(info.color_type as nat))
    } else {
        rows_from(f, row_bytes(info), bytes_per_pixel(info), info.height as int, 0, 0, seq![], seq![])
    }
}

/// Whether `img` holds the pixels of `rows` as `info` says to read them.
pub open spec fn image_matches(img: Image, info: PngInfo, rows: Seq<Seq<u8>>) -> bool {
    &&& img.wf()
    &&& img.width == info.width
    &&& img.height == info.height
    &&& forall|x: int, y: int|
        0 <= x < info.width && 0 <= y < info.height ==> #[trigger] crate::image::pixel_of(img, x, y)
            == pixel_spec(info, rows[y], x)
}

impl<'a> PngDecoder<'a> {
    fn channels(&self) -> (c: usize)
        ensures
            c as int == channels_of(self.color_type),
    {
        if self.color_type == CT_GRAY || self.color_type == CT_INDEXED {
            1
        } else if self.color_type == CT_GRAY_ALPHA {
            2
        } else if self.color_type == CT_RGB {
            3
        } else if self.color_type == CT_RGBA {
            4
        } else {
            0
        }
    }

    fn pixel_rgba(&self, row: &[u8], x: usize, channels: usize) -> (p: (u8, u8, u8, u8))
        requires
            channels as int == channels_of(self.color_type),
            channels >= 1,
            x <= u32::MAX,
        ensures
            p == pixel_spec(self.info(), row@, x as int),
    {
        let bd = self.bit_depth;
        let ct = self.color_type;
        if ct == CT_GRAY {
            let v = sample(row, x, 0, channels, bd);
            (v, v, v, 255)
        } else if ct == CT_RGB {
            (sample(row, x, 0, channels, bd), sample(row, x, 1, channels, bd), sample(row, x, 2, channels, bd), 255)
        } else if ct == CT_INDEXED {
            let idx = sub_byte_or_8(row, x, bd, channels) as usize;
            let (r, g, b) = if idx < self.palette.len() {
                self.palette[idx]
            } else {
                (0, 0, 0)
            };
            (r, g, b, 255)
        } else if ct == CT_GRAY_ALPHA {
            let v = sample(row, x, 0, channels, bd);
            (v, v, v, sample(row, x, 1, channels, bd))
        } else {
            (sample(row, x, 0, channels, bd), sample(row, x, 1, channels, bd), sample(row, x, 2, channels, bd), sample(row, x, 3, channels, bd))
        }
    }
}

impl<'a> PngDecoder<'a> {
    /// Unfilters the rows and converts every pixel to RGBA.
    fn reconstruct(&self, filtered: &[u8]) -> (r: Result<Image, ImageError>)
        requires
            channels_of(self.color_type) != 0 ==> self.width * self.height * 4 <= u32::MAX,
        ensures
            match rows_spec(self.info(), filtered@) {
                Ok(rows) => r matches Ok(img) && image_matches(img, self.info(), rows),
                Err(m) => fails_with(r, m),
            },
    {
        let ghost info = self.info();
        let ghost f = filtered@;
        let channels = self.channels();
        if channels == 0 {
            let mut msg = string_of("Unknown PNG color type ");
            append_decimal(&mut msg, self.color_type as usize);
            return Err(ImageError(msg));
        }
        let bd = self.bit_depth as u64;
        assert(channels * bd <= 4 * 255) by (nonlinear_arith)
            requires
                channels <= 4,
                bd <= 255,
        ;
        let bpp0: u64 = (channels as u64 * bd + 7) / 8;
        let bpp: usize = if bpp0 >= 1 {
            bpp0 as usize
        } else {
            1
        };
        proof {
            assert(self.width * channels * bd <= 0xFFFF_FFFF * 4 * 255) by (nonlinear_arith)
                requires
                    self.width <= 0xFFFF_FFFF,
                    channels <= 4,
                    bd <= 255,
            ;
        }
        let rb: u64 = (self.width as u64 * channels as u64 * bd + 7) / 8;
        assert(rb as int == row_bytes(info));
        assert(bpp as int == bytes_per_pixel(info));
        let w = self.width;
        let h = self.height;
        let mut image = Image::new(w, h);
        let mut prev: Vec<u8> = Vec::new();
        let mut pos: u64 = 0;
        let mut y: u32 = 0;
        let ghost mut acc: Seq<Seq<u8>> = seq![];
        while y < h
            invariant
                info == self.info(),
                f == filtered@,
                channels as int == channels_of(self.color_type),
                1 <= channels <= 4,
                rb as int == row_bytes(info),
                rb < 0x100_0000_0000,
                bpp as int == bytes_per_pixel(info),
                w == self.width,
                h == self.height,
                y <= h,
                pos <= f.len(),
                acc.len() == y,
                image.wf(),
                image.width == w,
                image.height == h,
                rows_spec(info, f) == rows_from(f, rb as int, bpp as int, h as int, y as int, pos as int, prev@, acc),
                forall|px: int, py: int|
                    0 <= px < w && 0 <= py < y ==> #[trigger] grid_pixel(image.pixels@, w as int, px, py)
                        == pixel_spec(info, acc[py], px),
            decreases h - y,
        {
            if rb >= filtered.len() as u64 - pos {
                let mut msg = string_of("PNG data truncated at row ");
                append_decimal(&mut msg, y as usize);
                append_str(&mut msg, " (have ");
                append_decimal(&mut msg, filtered.len() - pos as usize);
                append_str(&mut msg, " bytes, need ");
                append_decimal_u64(&mut msg, 1 + rb);
                append_str(&mut msg, ")");
                assert(msg@ == truncated_msg(y as int, f.len() - pos, 1 + rb));
                return Err(ImageError(msg));
            }
            let p = pos as usize;
            let filter = filtered[p];
            let raw = vstd::slice::slice_subrange(filtered, p + 1, p + 1 + rb as usize);
            let row = match unfilter(filter, raw, prev.as_slice(), bpp) {
                Ok(r) => r,
                Err(e) => {
                    return Err(e);
                },
            };
            let ghost acc2 = acc.push(row@);
            let mut x: u32 = 0;
            while x < w
                invariant
                    info == self.info(),
                    channels as int == channels_of(self.color_type),
                    1 <= channels <= 4,
                    w == self.width,
                    h == self.height,
                    y < h,
                    x <= w,
                    acc2.len() == y + 1,
                    acc2[y as int] == row@,
                    image.wf(),
                    image.width == w,
                    image.height == h,
                    forall|px: int, py: int|
                        0 <= px < w && 0 <= py < h && (py < y || (py == y && px < x))
                            ==> #[trigger] grid_pixel(image.pixels@, w as int, px, py) == pixel_spec(
                            info,
                            acc2[py],
                            px,
                        ),
                decreases w - x,
            {
                let (r, g, b, a) = self.pixel_rgba(row.as_slice(), x as usize, channels);
                let ghost before = image.pixels@;
                image.set_pixel(x, y, r, g, b, a);
                proof {
                    lemma_with_pixel(before, w as int, h as int, x as int, y as int, r, g, b, a);
                    assert forall|px: int, py: int|
                        0 <= px < w && 0 <= py < h && (py < y || (py == y && px < x + 1))
                            implies #[trigger] grid_pixel(image.pixels@, w as int, px, py) == pixel_spec(
                            info,
                            acc2[py],
                            px,
                        ) by {
                        if px == x && py == y {
                            assert(grid_pixel(image.pixels@, w as int, px, py) == (r, g, b, a));
                        } else {
                            assert(grid_pixel(image.pixels@, w as int, px, py) == grid_pixel(before, w as int, px, py));
                        }
                    }
                }
                x = x + 1;
            }
            proof {
                acc = acc2;
            }
            prev = row;
            pos = pos + 1 + rb;
            y = y + 1;
        }
        Ok(image)
    }
}

// ─── The whole file ─────────────────────────────────────────

pub open spec fn empty_info() -> PngInfo {
    PngInfo { width: 0, height: 0, bit_depth: 0, color_type: 0, palette: seq![], idat: seq![] }
}

/// What decoding a PNG file gives: its header and unfiltered rows, or the error met — a
/// missing signature, a broken chunk, zero dimensions, bad compressed data, or a bad row.
pub open spec fn png_spec(d: Seq<u8>) -> Result<(PngInfo, Seq<Seq<u8>>), Seq<char>> {
    if d.len() < 8 {
        Err(end_of_png())
    } else if d.subrange(0, 8) != PNG_SIG@ {
        Err("Not a valid PNG file"@)
    } else {
        match chunks_from(d, 8, empty_info()) {
            Err(m) => Err(m),
            Ok(info) => if info.width == 0 || info.height == 0 {
                Err("PNG has zero dimensions"@)
            } else {
                match zlib_spec(info.idat) {
                    Err(m) => Err(m),
                    Ok(raw) => match rows_spec(info, raw) {
                        Err(m) => Err(m),
                        Ok(rows) => Ok((info, rows)),
                    },
                }
            },
        }
    }
}

/// Whether decoding reaches the allocation of an image too large for its byte count to fit
/// in 32 bits (where the size computation overflows).
pub open spec fn png_overflows(d: Seq<u8>) -> bool {
    &&& d.len() >= 8
    &&& d.subrange(0, 8) == PNG_SIG@
    &&& chunks_from(d, 8, empty_info()) matches Ok(info) && {
        &&& info.width != 0
        &&& info.height != 0
        &&& zlib_spec(info.idat) is Ok
        &&& channels_of(info.color_type) != 0
        &&& info.width * info.height * 4 > u32::MAX
    }
}

/// What `decode_png` returns, by `png_spec`.
pub open spec fn png_result(d: Seq<u8>, r: Result<Image, ImageError>) -> bool {
    match png_spec(d) {
        Ok((info, rows)) => r matches Ok(img) && image_matches(img, info, rows),
        Err(m) => fails_with(r, m),
    }
}

fn append_bytes(dst: &mut Vec<u8>, src: &[u8])
    ensures
        final(dst)@ == old(dst)@ + src@,
{
    let mut i: usize = 0;
    while i < src.len()
        invariant
            i <= src@.len(),
            dst@ == old(dst)@ + src@.take(i as int),
        decreases src.len() - i,
    {
        dst.push(src[i]);
        i = i + 1;
        assert(dst@ =~= old(dst)@ + src@.take(i as int));
    }
    assert(src@.take(i as int) =~= src@);
}

impl<'a> PngDecoder<'a> {
    /// Reads the chunks up to IEND.
    fn read_chunks(&mut self) -> (r: Result<(), ImageError>)
        requires
            old(self).r.wf(),
        ensures
            match chunks_from(old(self).r.data@, old(self).r.pos as int, old(self).info()) {
                Ok(info) => r is Ok && final(self).info() == info,
                Err(m) => fails_with(r, m),
            },
    {
        let ghost d = self.r.data@;
        let ghost target = chunks_from(d, self.r.pos as int, self.info());
        loop
            invariant
                self.r.wf(),
                self.r.data@ == d,
                d == old(self).r.data@,
                target == chunks_from(old(self).r.data@, old(self).r.pos as int, old(self).info()),
                target == chunks_from(d, self.r.pos as int, self.info()),
            decreases d.len() - self.r.pos,
        {
            let ghost pos = self.r.pos as int;
            let length = self.r.read_u32_be()? as usize;
            let tag = self.r.read_bytes(4)?;
            let ghost p = pos + 8;
            proof {
                reveal_strlit("I");
            }
            let is_ihdr = tag[0] == 73 && tag[1] == 72 && tag[2] == 68 && tag[3] == 82;
            let is_plte = tag[0] == 80 && tag[1] == 76 && tag[2] == 84 && tag[3] == 69;
            let is_idat = tag[0] == 73 && tag[1] == 68 && tag[2] == 65 && tag[3] == 84;
            let is_iend = tag[0] == 73 && tag[1] == 69 && tag[2] == 78 && tag[3] == 68;
            proof {
                let t = d.subrange(pos + 4, pos + 8);
                assert(t == tag@);
                assert(is_ihdr == (t == png_tag('I', 'H', 'D', 'R'))) by {
                    if t == png_tag('I', 'H', 'D', 'R') {
                        assert(t[0] == 73 && t[1] == 72 && t[2] == 68 && t[3] == 82);
                    }
                    if is_ihdr {
                        assert(t =~= png_tag('I', 'H', 'D', 'R'));
                    }
                }
                assert(is_plte == (t == png_tag('P', 'L', 'T', 'E'))) by {
                    if t == png_tag('P', 'L', 'T', 'E') {
                        assert(t[0] == 80);
                    }
                    if is_plte {
                        assert(t =~= png_tag('P', 'L', 'T', 'E'));
                    }
                }
                assert(is_idat == (t == png_tag('I', 'D', 'A', 'T'))) by {
                    if t == png_tag('I', 'D', 'A', 'T') {
                        assert(t[1] == 68);
                    }
                    if is_idat {
                        assert(t =~= png_tag('I', 'D', 'A', 'T'));
                    }
                }
                assert(is_iend == (t == png_tag('I', 'E', 'N', 'D'))) by {
                    if t == png_tag('I', 'E', 'N', 'D') {
                        assert(t[1] == 69);
                    }
                    if is_iend {
                        assert(t =~= png_tag('I', 'E', 'N', 'D'));
                    }
                }
            }
            if is_ihdr {
                self.parse_ihdr()?;
                self.r.skip(4)?;
            } else if is_plte {
                self.parse_plte(length)?;
                self.r.skip(4)?;
            } else if is_idat {
                let chunk = self.r.read_bytes(length)?;
                append_bytes(&mut self.idat, chunk);
                self.r.skip(4)?;
            } else if is_iend {
                self.r.skip(length as u64 + 4)?;
                return Ok(());
            } else {
                self.r.skip(length as u64 + 4)?;
            }
        }
    }

    /// Decodes the file, or `None` where the image's byte count would overflow.
    fn decode_checked(self) -> (r: Option<Result<Image, ImageError>>)
        requires
            self.r.wf(),
            self.r.pos == 0,
            self.info() == empty_info(),
        ensures
            r is None <==> png_overflows(self.r.data@),
            r matches Some(res) ==> png_result(self.r.data@, res),
    {
        let ghost d = self.r.data@;
        let mut st = self;
        let sig = match st.r.read_bytes(8) {
            Ok(s) => s,
            Err(e) => {
                return Some(Err(e));
            },
        };
        let mut k: usize = 0;
        while k < 8
            invariant
                k <= 8,
                d == self.r.data@,
                d.len() >= 8,
                sig@ == d.subrange(0, 8),
                sig@.len() == 8,
                forall|j: int| 0 <= j < k ==> sig@[j] == PNG_SIG@[j],
            decreases 8 - k,
        {
            if sig[k] != PNG_SIG[k] {
                assert(sig@ != PNG_SIG@) by {
                    assert(sig@[k as int] != PNG_SIG@[k as int]);
                }
                return Some(Err(error("Not a valid PNG file")));
            }
            k = k + 1;
        }
        assert(sig@ =~= PNG_SIG@);
        match st.read_chunks() {
            Ok(()) => {},
            Err(e) => {
                return Some(Err(e));
            },
        }
        if st.width == 0 || st.height == 0 {
            return Some(Err(error("PNG has zero dimensions")));
        }
        let raw = match inflate_zlib(st.idat.as_slice()) {
            Ok(v) => v,
            Err(e) => {
                return Some(Err(e));
            },
        };
        let ch = st.channels();
        proof {
            assert(st.width * st.height <= 0xFFFF_FFFF * 0xFFFF_FFFF) by (nonlinear_arith)
                requires
                    st.width <= 0xFFFF_FFFF,
                    st.height <= 0xFFFF_FFFF,
            ;
        }
        if ch != 0 && st.width as u64 * st.height as u64 > 0x3FFF_FFFF {
            return None;
        }
        Some(st.reconstruct(raw.as_slice()))
    }
}

/// Decodes a PNG file to RGBA; `png_spec` states the pixels, or the error reported.
pub fn decode_png(data: &[u8]) -> (r: Result<Image, ImageError>)
    requires
        !png_overflows(data@),
    ensures
        png_result(data@, r),
{
    match PngDecoder::new(data).decode_checked() {
        Some(r) => r,
        None => {
            assert(false);
            Err(error("PNG image too large"))
        },
    }
}

/// `decode_png`, or `None` for an image whose byte count overflows 32 bits.
pub fn try_decode_png(data: &[u8]) -> (r: Option<Result<Image, ImageError>>)
    ensures
        r is None <==> png_overflows(data@),
        r matches Some(res) ==> png_result(data@, res),
{
    PngDecoder::new(data).decode_checked()
}

} // verus!
