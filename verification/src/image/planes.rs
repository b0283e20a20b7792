//! The last integer steps of JPEG decoding: the blocks of a scan, once in the spatial
//! domain, assembled into one plane per component, and the samples each pixel of the image
//! reads from those planes.
//!
//! Each function returns `None` on the inputs on which these steps would index out of a
//! plane or overflow, and states exactly which those are.
use vstd::prelude::*;
use super::block::{BlockView, placed, place_block, clamp8};
use super::{Image, pixel_of};
use crate::platform::{channel, rgba_channel, lemma_with_pixel};
use super::jpeg::{JpegScan, ScanView};

verus! {

pub open spec fn planes_view(v: Seq<Vec<i32>>) -> Seq<Seq<i32>> {
    v.map_values(|p: Vec<i32>| p@)
}

// ─── Planes ─────────────────────────────────────────────────

/// The plane of component `c` after the first `n` blocks are placed: a `pw` by `ph` plane
/// of zeros, and each block of the component written at its corner, later blocks over
/// earlier ones. `samples[k]` holds block `k` in the spatial domain, row-major.
pub open spec fn plane_of(pw: int, ph: int, blocks: Seq<BlockView>, samples: Seq<Seq<i32>>, c: int, n: int) -> Seq<i32>
    decreases n,
{
    if n <= 0 {
        Seq::new((pw * ph) as nat, |i: int| 0i32)
    } else {
        let prev = plane_of(pw, ph, blocks, samples, c, n - 1);
        if blocks[n - 1].ci == c {
            placed(prev, pw, blocks[n - 1].bx, blocks[n - 1].by, samples[n - 1])
        } else {
            prev
        }
    }
}

/// Whether the blocks of `s` can be placed: the planes fit in memory, there is one block of
/// 64 samples for each block of the scan, each of a component of the frame, with a corner
/// eight samples short of the address limit.
pub open spec fn planes_fit(s: ScanView, samples: Seq<Seq<i32>>) -> bool {
    &&& s.pw * s.ph <= usize::MAX
    &&& samples.len() == s.blocks.len()
    &&& forall|k: int|
        0 <= k < samples.len() ==> {
            &&& #[trigger] samples[k].len() == 64
            &&& 0 <= s.blocks[k].ci < s.comps.len()
            &&& s.blocks[k].bx + 8 <= usize::MAX
            &&& s.blocks[k].by + 8 <= usize::MAX
        }
}

/// Places the blocks of `scan`, given in the spatial domain (`samples[k]` for block `k`),
/// into one `pw` by `ph` plane per component.
pub fn assemble_planes(scan: &JpegScan, samples: &Vec<Vec<i32>>) -> (r: Option<Vec<Vec<i32>>>)
    ensures
        r is Some <==> planes_fit(scan@, planes_view(samples@)),
        r matches Some(p) ==> p@.len() == scan.comps@.len() && forall|c: int|
            0 <= c < p@.len() ==> #[trigger] p@[c]@ == plane_of(
                scan.pw as int,
                scan.ph as int,
                scan@.blocks,
                planes_view(samples@),
                c,
                scan.blocks@.len() as int,
            ),
{
    let ghost sv = planes_view(samples@);
    let n = match scan.pw.checked_mul(scan.ph) {
        Some(n) => n,
        None => return None,
    };
    if samples.len() != scan.blocks.len() {
        return None;
    }
    let nb = scan.blocks.len();
    let mut k: usize = 0;
    while k < nb
        invariant
            nb == scan.blocks@.len(),
            samples@.len() == nb,
            sv == planes_view(samples@),
            k <= nb,
            forall|j: int|
                0 <= j < k ==> {
                    &&& #[trigger] sv[j].len() == 64
                    &&& 0 <= scan@.blocks[j].ci < scan@.comps.len()
                    &&& scan@.blocks[j].bx + 8 <= usize::MAX
                    &&& scan@.blocks[j].by + 8 <= usize::MAX
                },
        decreases nb - k,
    {
        let b = &scan.blocks[k];
        if samples[k].len() != 64 || b.ci >= scan.comps.len() || b.bx > usize::MAX - 8 || b.by > usize::MAX - 8 {
            proof {
                assert(sv[k as int] == samples@[k as int]@);
                assert(scan@.blocks[k as int] == scan.blocks@[k as int]@);
            }
            return None;
        }
        proof {
            assert(sv[k as int] == samples@[k as int]@);
            assert(scan@.blocks[k as int] == scan.blocks@[k as int]@);
            assert forall|j: int|
                0 <= j < k + 1 implies {
                    &&& #[trigger] sv[j].len() == 64
                    &&& 0 <= scan@.blocks[j].ci < scan@.comps.len()
                    &&& scan@.blocks[j].bx + 8 <= usize::MAX
                    &&& scan@.blocks[j].by + 8 <= usize::MAX
                } by {
                if j == k as int {
                    assert(sv[j].len() == 64);
                    assert(scan@.blocks[j].ci == b.ci);
                    assert(scan@.blocks[j].bx == b.bx);
                    assert(scan@.blocks[j].by == b.by);
                }
            }
        }
        k = k + 1;
    }
    let ncomp = scan.comps.len();
    let mut planes: Vec<Vec<i32>> = Vec::new();
    let mut c: usize = 0;
    while c < ncomp
        invariant
            nb == scan.blocks@.len(),
            ncomp == scan.comps@.len(),
            n == scan.pw * scan.ph,
            samples@.len() == nb,
            sv == planes_view(samples@),
            planes_fit(scan@, sv),
            c <= ncomp,
            planes@.len() == c,
            forall|d: int|
                0 <= d < c ==> #[trigger] planes@[d]@ == plane_of(
                    scan.pw as int,
                    scan.ph as int,
                    scan@.blocks,
                    sv,
                    d,
                    nb as int,
                ),
        decreases ncomp - c,
    {
        let mut plane: Vec<i32> = vec![0i32; n];
        assert(plane@ =~= plane_of(scan.pw as int, scan.ph as int, scan@.blocks, sv, c as int, 0));
        let mut j: usize = 0;
        while j < nb
            invariant
                nb == scan.blocks@.len(),
                n == scan.pw * scan.ph,
                samples@.len() == nb,
                sv == planes_view(samples@),
                planes_fit(scan@, sv),
                j <= nb,
                plane@ == plane_of(scan.pw as int, scan.ph as int, scan@.blocks, sv, c as int, j as int),
                plane@.len() == scan.pw * scan.ph,
            decreases nb - j,
        {
            let b = &scan.blocks[j];
            proof {
                assert(sv[j as int] == samples@[j as int]@);
                assert(scan@.blocks[j as int] == scan.blocks@[j as int]@);
                assert(sv[j as int].len() == 64);
            }
            if b.ci == c {
                place_block(&mut plane, scan.pw, scan.ph, b.bx, b.by, samples[j].as_slice());
            }
            j = j + 1;
        }
        planes.push(plane);
        c = c + 1;
    }
    Some(planes)
}


// ─── Pixels ─────────────────────────────────────────────────

/// Index of sample (x, y) in a plane `pw` samples wide.
pub open spec fn at(pw: int, x: int, y: int) -> int {
    y * pw + x
}

/// The luma of pixel (x, y): its sample in the first plane, shifted up by 128.
pub open spec fn luma(s: ScanView, planes: Seq<Seq<i32>>, x: int, y: int) -> int {
    planes[0][at(s.pw, x, y)] + 128
}

/// `v` clamped to 0..=255.
pub open spec fn clamped(v: int) -> u8 {
    if v < 0 {
        0
    } else if v > 255 {
        255
    } else {
        v as u8
    }
}

/// Whether the luma of pixel (x, y) can be read: there is a first plane, the sample lies in
/// it and the shift does not overflow an `i32`.
pub open spec fn luma_ok(s: ScanView, planes: Seq<Seq<i32>>, x: int, y: int) -> bool {
    &&& planes.len() >= 1
    &&& at(s.pw, x, y) < planes[0].len()
    &&& planes[0][at(s.pw, x, y)] + 128 <= i32::MAX
}

/// Whether a grey image can be made of `planes`: its bytes can be counted in a `u32`, and
/// the luma of every pixel can be read.
pub open spec fn gray_fits(s: ScanView, planes: Seq<Seq<i32>>) -> bool {
    &&& s.width * s.height * 4 <= u32::MAX
    &&& forall|x: int, y: int| 0 <= x < s.width && 0 <= y < s.height ==> #[trigger] luma_ok(s, planes, x, y)
}

/// Index of sample (x, y) in a plane, or `None` when it would not fit in a `usize`.
fn sample_index(pw: usize, x: usize, y: usize) -> (r: Option<usize>)
    ensures
        r matches Some(i) ==> i == at(pw as int, x as int, y as int),
        r is None ==> at(pw as int, x as int, y as int) > usize::MAX,
{
    match y.checked_mul(pw) {
        Some(row) => row.checked_add(x),
        None => {
            assert(y * pw + x >= y * pw) by (nonlinear_arith)
                requires
                    x >= 0,
            ;
            None
        },
    }
}

/// The image of a one-component scan: each pixel grey at its clamped luma, opaque.
pub fn gray_image(scan: &JpegScan, planes: &Vec<Vec<i32>>) -> (r: Option<Image>)
    ensures
        r is Some <==> gray_fits(scan@, planes_view(planes@)),
        r matches Some(img) ==> {
            &&& img.wf()
            &&& img.width == scan.width
            &&& img.height == scan.height
            &&& forall|x: int, y: int|
                0 <= x < scan.width && 0 <= y < scan.height ==> #[trigger] pixel_of(img, x, y) == {
                    let g = clamped(luma(scan@, planes_view(planes@), x, y));
                    (g, g, g, 255u8)
                }
        },
{
    let ghost sv = scan@;
    let ghost pv = planes_view(planes@);
    let w = scan.width;
    let h = scan.height;
    let wide_w = w as u128;
    let wide_h = h as u128;
    assert(wide_w * wide_h <= 0xFFFF_FFFF * 0xFFFF_FFFF) by (nonlinear_arith)
        requires
            wide_w <= 0xFFFF_FFFF,
            wide_h <= 0xFFFF_FFFF,
    ;
    if wide_w * wide_h * 4 > 0xFFFF_FFFF {
        return None;
    }
    let mut img = Image::new(w, h);
    if w == 0 || h == 0 {
        return Some(img);
    }
    if planes.len() < 1 {
        proof {
            assert(!luma_ok(sv, pv, 0, 0));
        }
        return None;
    }
    proof {
        assert(pv[0] == planes@[0]@);
    }
    let plane = &planes[0];
    let plen = plane.len();
    let pw = scan.pw;
    let mut y: u32 = 0;
    while y < h
        invariant
            sv == scan@,
            pv == planes_view(planes@),
            planes@.len() >= 1,
            plane@ == pv[0],
            plen == plane@.len(),
            pw == sv.pw,
            w == sv.width,
            h == sv.height,
            w * h * 4 <= u32::MAX,
            img.wf(),
            img.width == w,
            img.height == h,
            y <= h,
            forall|px: int, py: int| 0 <= px < w && 0 <= py < y ==> #[trigger] luma_ok(sv, pv, px, py),
            forall|px: int, py: int, c: int|
                0 <= px < w && 0 <= py < y && 0 <= c < 4 ==> #[trigger] channel(img.pixels@, w as int, px, py, c)
                    == rgba_channel(
                    clamped(luma(sv, pv, px, py)),
                    clamped(luma(sv, pv, px, py)),
                    clamped(luma(sv, pv, px, py)),
                    255,
                    c,
                ),
        decreases h - y,
    {
        let mut x: u32 = 0;
        while x < w
            invariant
                sv == scan@,
                pv == planes_view(planes@),
                planes@.len() >= 1,
                plane@ == pv[0],
                plen == plane@.len(),
                pw == sv.pw,
                w == sv.width,
                h == sv.height,
                w * h * 4 <= u32::MAX,
                img.wf(),
                img.width == w,
                img.height == h,
                y < h,
                x <= w,
                forall|px: int, py: int|
                    0 <= px < w && 0 <= py < h && (py < y || (py == y && px < x)) ==> #[trigger] luma_ok(sv, pv, px, py),
                forall|px: int, py: int, c: int|
                    0 <= px < w && 0 <= py < h && (py < y || (py == y && px < x)) && 0 <= c < 4
                        ==> #[trigger] channel(img.pixels@, w as int, px, py, c) == rgba_channel(
                        clamped(luma(sv, pv, px, py)),
                        clamped(luma(sv, pv, px, py)),
                        clamped(luma(sv, pv, px, py)),
                        255,
                        c,
                    ),
            decreases w - x,
        {
            let idx = match sample_index(pw, x as usize, y as usize) {
                Some(i) => i,
                None => {
                    proof {
                        assert(!luma_ok(sv, pv, x as int, y as int));
                    }
                    return None;
                },
            };
            if idx >= plane.len() {
                proof {
                    assert(!luma_ok(sv, pv, x as int, y as int));
                }
                return None;
            }
            let v = plane[idx];
            if v > i32::MAX - 128 {
                proof {
                    assert(!luma_ok(sv, pv, x as int, y as int));
                }
                return None;
            }
            let g = clamp8(v + 128);
            let ghost before = img.pixels@;
            img.set_pixel(x, y, g, g, g, 255);
            proof {
                lemma_with_pixel(before, w as int, h as int, x as int, y as int, g, g, g, 255);
                assert(luma_ok(sv, pv, x as int, y as int));
                assert(g == clamped(luma(sv, pv, x as int, y as int)));
            }
            x = x + 1;
        }
        y = y + 1;
    }
    proof {
        assert forall|x: int, y: int| 0 <= x < w && 0 <= y < h implies #[trigger] pixel_of(img, x, y) == {
            let g = clamped(luma(sv, pv, x, y));
            (g, g, g, 255u8)
        } by {
            assert(channel(img.pixels@, w as int, x, y, 0) == rgba_channel(clamped(luma(sv, pv, x, y)), clamped(luma(sv, pv, x, y)), clamped(luma(sv, pv, x, y)), 255, 0));
            assert(channel(img.pixels@, w as int, x, y, 1) == rgba_channel(clamped(luma(sv, pv, x, y)), clamped(luma(sv, pv, x, y)), clamped(luma(sv, pv, x, y)), 255, 1));
            assert(channel(img.pixels@, w as int, x, y, 2) == rgba_channel(clamped(luma(sv, pv, x, y)), clamped(luma(sv, pv, x, y)), clamped(luma(sv, pv, x, y)), 255, 2));
            assert(channel(img.pixels@, w as int, x, y, 3) == rgba_channel(clamped(luma(sv, pv, x, y)), clamped(luma(sv, pv, x, y)), clamped(luma(sv, pv, x, y)), 255, 3));
        }
    }
    Some(img)
}

/// Where pixel (x, y) reads component `c`: column x·h / max_h and row y·v / max_v of the
/// component's plane, h and v the component's sampling factors.
pub open spec fn chroma_index(s: ScanView, c: int, x: int, y: int) -> int {
    at(s.pw, x * s.comps[c].h_samp / s.max_h, y * s.comps[c].v_samp / s.max_v)
}

/// Whether pixel (x, y) can read component `c` from `plane`: the products before the
/// divisions fit in a `usize` and the sample lies in the plane.
pub open spec fn chroma_ok(s: ScanView, plane: Seq<i32>, c: int, x: int, y: int) -> bool {
    &&& x * s.comps[c].h_samp <= usize::MAX
    &&& y * s.comps[c].v_samp <= usize::MAX
    &&& chroma_index(s, c, x, y) < plane.len()
}

/// Whether pixel (x, y) of a colour scan can be read: the frame has three components and
/// there are three planes, the sampling maxima are not zero, and the luma and both chroma
/// samples can be read.
pub open spec fn color_ok(s: ScanView, planes: Seq<Seq<i32>>, x: int, y: int) -> bool {
    &&& s.comps.len() >= 3
    &&& planes.len() >= 3
    &&& s.max_h > 0
    &&& s.max_v > 0
    &&& luma_ok(s, planes, x, y)
    &&& chroma_ok(s, planes[1], 1, x, y)
    &&& chroma_ok(s, planes[2], 2, x, y)
}

pub open spec fn color_fits(s: ScanView, planes: Seq<Seq<i32>>) -> bool {
    forall|x: int, y: int| 0 <= x < s.width && 0 <= y < s.height ==> #[trigger] color_ok(s, planes, x, y)
}

/// The samples pixel (x, y) of a colour scan reads: its luma, and the blue and the red
/// chroma.
pub open spec fn ycc(s: ScanView, planes: Seq<Seq<i32>>, x: int, y: int) -> (int, int, int) {
    (luma(s, planes, x, y), planes[1][chroma_index(s, 1, x, y)] as int, planes[2][chroma_index(s, 2, x, y)] as int)
}

/// Component `c`'s sample for pixel (x, y), or `None` when it cannot be read.
fn chroma_sample(scan: &JpegScan, plane: &Vec<i32>, c: usize, x: usize, y: usize) -> (r: Option<i32>)
    requires
        c < scan.comps@.len(),
        scan.max_h > 0,
        scan.max_v > 0,
    ensures
        r is Some <==> chroma_ok(scan@, plane@, c as int, x as int, y as int),
        r matches Some(v) ==> v == plane@[chroma_index(scan@, c as int, x as int, y as int)],
{
    let plen = plane.len();
    let comp = &scan.comps[c];
    let hx = match x.checked_mul(comp.h_samp as usize) {
        Some(v) => v,
        None => return None,
    };
    let vy = match y.checked_mul(comp.v_samp as usize) {
        Some(v) => v,
        None => return None,
    };
    let idx = match sample_index(scan.pw, hx / scan.max_h, vy / scan.max_v) {
        Some(i) => i,
        None => return None,
    };
    if idx >= plen {
        return None;
    }
    Some(plane[idx])
}

/// The samples of each pixel of a colour scan, row by row: its luma and its blue and red
/// chroma, which the colour conversion turns into red, green and blue.
pub fn color_samples(scan: &JpegScan, planes: &Vec<Vec<i32>>) -> (r: Option<Vec<Vec<(i32, i32, i32)>>>)
    ensures
        r is Some <==> color_fits(scan@, planes_view(planes@)),
        r matches Some(rows) ==> {
            &&& rows@.len() == scan.height
            &&& forall|y: int| 0 <= y < scan.height ==> (#[trigger] rows@[y])@.len() == scan.width
            &&& forall|x: int, y: int|
                0 <= x < scan.width && 0 <= y < scan.height ==> {
                    let p = #[trigger] rows@[y]@[x];
                    (p.0 as int, p.1 as int, p.2 as int) == ycc(scan@, planes_view(planes@), x, y)
                }
        },
{
    let ghost sv = scan@;
    let ghost pv = planes_view(planes@);
    let w = scan.width as usize;
    let h = scan.height as usize;
    let pw = scan.pw;
    let mut rows: Vec<Vec<(i32, i32, i32)>> = Vec::new();
    let mut y: usize = 0;
    while y < h
        invariant
            sv == scan@,
            pv == planes_view(planes@),
            pw == sv.pw,
            w == sv.width,
            h == sv.height,
            y <= h,
            rows@.len() == y,
            forall|px: int, py: int| 0 <= px < w && 0 <= py < y ==> #[trigger] color_ok(sv, pv, px, py),
            forall|py: int| 0 <= py < y ==> (#[trigger] rows@[py])@.len() == w,
            forall|px: int, py: int|
                0 <= px < w && 0 <= py < y ==> {
                    let p = #[trigger] rows@[py]@[px];
                    (p.0 as int, p.1 as int, p.2 as int) == ycc(sv, pv, px, py)
                },
        decreases h - y,
    {
        let mut row: Vec<(i32, i32, i32)> = Vec::new();
        let mut x: usize = 0;
        while x < w
            invariant
                sv == scan@,
                pv == planes_view(planes@),
                pw == sv.pw,
                w == sv.width,
                h == sv.height,
                y < h,
                x <= w,
                row@.len() == x,
                forall|px: int| 0 <= px < x ==> #[trigger] color_ok(sv, pv, px, y as int),
                forall|px: int|
                    0 <= px < x ==> {
                        let p = #[trigger] row@[px];
                        (p.0 as int, p.1 as int, p.2 as int) == ycc(sv, pv, px, y as int)
                    },
            decreases w - x,
        {
            if scan.comps.len() < 3 || planes.len() < 3 || scan.max_h == 0 || scan.max_v == 0 {
                proof {
                    assert(!color_ok(sv, pv, x as int, y as int));
                }
                return None;
            }
            proof {
                assert(pv[0] == planes@[0]@);
                assert(pv[1] == planes@[1]@);
                assert(pv[2] == planes@[2]@);
            }
            let plen = planes[0].len();
            let idx = match sample_index(pw, x, y) {
                Some(i) => i,
                None => {
                    proof {
                        assert(!color_ok(sv, pv, x as int, y as int));
                    }
                    return None;
                },
            };
            if idx >= plen {
                proof {
                    assert(!color_ok(sv, pv, x as int, y as int));
                }
                return None;
            }
            let v = planes[0][idx];
            if v > i32::MAX - 128 {
                proof {
                    assert(!color_ok(sv, pv, x as int, y as int));
                }
                return None;
            }
            let cb = match chroma_sample(scan, &planes[1], 1, x, y) {
                Some(s) => s,
                None => {
                    proof {
                        assert(!color_ok(sv, pv, x as int, y as int));
                    }
                    return None;
                },
            };
            let cr = match chroma_sample(scan, &planes[2], 2, x, y) {
                Some(s) => s,
                None => {
                    proof {
                        assert(!color_ok(sv, pv, x as int, y as int));
                    }
                    return None;
                },
            };
            proof {
                assert(color_ok(sv, pv, x as int, y as int));
            }
            let ghost before = row@;
            row.push((v + 128, cb, cr));
            proof {
                assert forall|px: int| 0 <= px < x + 1 implies {
                    let p = #[trigger] row@[px];
                    (p.0 as int, p.1 as int, p.2 as int) == ycc(sv, pv, px, y as int)
                } by {
                    if px < x {
                        assert(row@[px] == before[px]);
                    }
                }
            }
            x = x + 1;
        }
        let ghost before = rows@;
        rows.push(row);
        proof {
            assert forall|px: int, py: int|
                0 <= px < w && 0 <= py < y + 1 implies {
                    let p = #[trigger] rows@[py]@[px];
                    (p.0 as int, p.1 as int, p.2 as int) == ycc(sv, pv, px, py)
                } by {
                if py < y {
                    assert(rows@[py] == before[py]);
                }
            }
            assert forall|py: int| 0 <= py < y + 1 implies (#[trigger] rows@[py])@.len() == w by {
                if py < y {
                    assert(rows@[py] == before[py]);
                }
            }
        }
        y = y + 1;
    }
    Some(rows)
}

} // verus!
