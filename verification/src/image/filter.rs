//! PNG row filters (none, sub, up, average, Paeth) and the unpacking of samples narrower
//! than a byte.
use vstd::prelude::*;
use super::{ImageError, fails_with};
use crate::text::{string_of, append_decimal, decimal};

verus! {

// ─── Row filters ────────────────────────────────────────────

/// The Paeth predictor: of a (left), b (up) and c (up-left), the one nearest to a + b - c,
/// ties going to a, then b.
pub open spec fn paeth_spec(a: u8, b: u8, c: u8) -> u8 {
    let p = a + b - c;
    let pa = if p >= a { p - a } else { a - p };
    let pb = if p >= b { p - b } else { b - p };
    let pc = if p >= c { p - c } else { c - p };
    if pa <= pb && pa <= pc {
        a
    } else if pb <= pc {
        b
    } else {
        c
    }
}

pub fn paeth(a: u8, b: u8, c: u8) -> (r: u8)
    ensures
        r == paeth_spec(a, b, c),
{
    let (ai, bi, ci) = (a as i32, b as i32, c as i32);
    let p = ai + bi - ci;
    let pa = if p >= ai { p - ai } else { ai - p };
    let pb = if p >= bi { p - bi } else { bi - p };
    let pc = if p >= ci { p - ci } else { ci - p };
    if pa <= pb && pa <= pc {
        a
    } else if pb <= pc {
        b
    } else {
        c
    }
}

/// `s[i]`, or 0 past its end (`get(i).copied().unwrap_or(0)`).
pub open spec fn byte_or_zero(s: Seq<u8>, i: int) -> u8 {
    if 0 <= i < s.len() {
        s[i]
    } else {
        0
    }
}

/// Byte `i` of a row after undoing its filter: `raw[i]` plus the prediction from the bytes
/// already rebuilt (`out`, `bpp` bytes to the left) and from the previous row (`prev`).
pub open spec fn unfilter_byte(filter: u8, raw: Seq<u8>, prev: Seq<u8>, out: Seq<u8>, bpp: int, i: int) -> u8 {
    let a = if i >= bpp {
        out[i - bpp]
    } else {
        0u8
    };
    let b = byte_or_zero(prev, i);
    let c = if i >= bpp {
        byte_or_zero(prev, i - bpp)
    } else {
        0u8
    };
    let pred: u8 = if filter == 1 {
        a
    } else if filter == 2 {
        b
    } else if filter == 3 {
        ((a as int + b as int) / 2) as u8
    } else if filter == 4 {
        paeth_spec(a, b, c)
    } else {
        0u8
    };
    ((raw[i] as int + pred as int) % 256) as u8
}

/// The first `n` bytes of a row with its filter undone.
pub open spec fn unfilter_prefix(filter: u8, raw: Seq<u8>, prev: Seq<u8>, bpp: int, n: int) -> Seq<u8>
    decreases n,
{
    if n <= 0 {
        seq![]
    } else {
        let out = unfilter_prefix(filter, raw, prev, bpp, n - 1);
        out.push(unfilter_byte(filter, raw, prev, out, bpp, n - 1))
    }
}

/// A row with its filter (0 none, 1 sub, 2 up, 3 average, 4 Paeth) undone.
pub open spec fn unfilter_spec(filter: u8, raw: Seq<u8>, prev: Seq<u8>, bpp: int) -> Seq<u8> {
    unfilter_prefix(filter, raw, prev, bpp, raw.len() as int)
}

proof fn lemma_unfilter_prefix_len(filter: u8, raw: Seq<u8>, prev: Seq<u8>, bpp: int, n: int)
    requires
        0 <= n,
    ensures
        unfilter_prefix(filter, raw, prev, bpp, n).len() == n,
    decreases n,
{
    if n > 0 {
        lemma_unfilter_prefix_len(filter, raw, prev, bpp, n - 1);
    }
}

/// Byte `i` of row `row` filtered with filter `filter` (the encoder's side): the byte less
/// the prediction from the row's own bytes `bpp` to the left and from the previous row
/// `prev`, modulo 256.
pub open spec fn filtered_byte(filter: u8, row: Seq<u8>, prev: Seq<u8>, bpp: int, i: int) -> u8 {
    let a = if i >= bpp {
        row[i - bpp]
    } else {
        0u8
    };
    let b = byte_or_zero(prev, i);
    let c = if i >= bpp {
        byte_or_zero(prev, i - bpp)
    } else {
        0u8
    };
    let pred: u8 = if filter == 1 {
        a
    } else if filter == 2 {
        b
    } else if filter == 3 {
        ((a as int + b as int) / 2) as u8
    } else if filter == 4 {
        paeth_spec(a, b, c)
    } else {
        0u8
    };
    (if row[i] >= pred {
        row[i] - pred
    } else {
        row[i] + 256 - pred
    }) as u8
}

/// Row `row` filtered with filter `filter` (0 none, 1 sub, 2 up, 3 average, 4 Paeth).
pub open spec fn filter_row(filter: u8, row: Seq<u8>, prev: Seq<u8>, bpp: int) -> Seq<u8> {
    Seq::new(row.len(), |i: int| filtered_byte(filter, row, prev, bpp, i))
}

proof fn lemma_unfilter_prefix_inverts(filter: u8, row: Seq<u8>, prev: Seq<u8>, bpp: int, n: int)
    requires
        bpp >= 1,
        0 <= n <= row.len(),
    ensures
        unfilter_prefix(filter, filter_row(filter, row, prev, bpp), prev, bpp, n) == row.take(n),
    decreases n,
{
    if n == 0 {
        assert(row.take(0) =~= seq![]);
    } else {
        let raw = filter_row(filter, row, prev, bpp);
        lemma_unfilter_prefix_inverts(filter, row, prev, bpp, n - 1);
        let out = row.take(n - 1);
        assert(n - 1 >= bpp ==> out[n - 1 - bpp] == row[n - 1 - bpp]);
        assert(unfilter_byte(filter, raw, prev, out, bpp, n - 1) == row[n - 1]);
        assert(row.take(n) =~= out.push(row[n - 1]));
    }
}

/// Undoing a filter gives back the row that was filtered, for each of the five filters.
pub proof fn lemma_unfilter_inverts_filter(filter: u8, row: Seq<u8>, prev: Seq<u8>, bpp: int)
    requires
        bpp >= 1,
    ensures
        unfilter_spec(filter, filter_row(filter, row, prev, bpp), prev, bpp) == row,
{
    lemma_unfilter_prefix_inverts(filter, row, prev, bpp, row.len() as int);
    assert(row.take(row.len() as int) =~= row);
}

/// Undoes the filter of one row; an unknown filter type is an error.
pub fn unfilter(filter: u8, raw: &[u8], prev: &[u8], bpp: usize) -> (r: Result<Vec<u8>, ImageError>)
    requires
        bpp >= 1,
    ensures
        filter <= 4 ==> (r matches Ok(v) && v@ == unfilter_spec(filter, raw@, prev@, bpp as int)),
        filter > 4 ==> fails_with(r, "Unknown PNG filter type "@ + decimal(filter as nat)),
{
    if filter > 4 {
        let mut msg = string_of("Unknown PNG filter type ");
        append_decimal(&mut msg, filter as usize);
        return Err(ImageError(msg));
    }
    let n = raw.len();
    let mut out: Vec<u8> = Vec::new();
    let mut i: usize = 0;
    while i < n
        invariant
            n == raw@.len(),
            i <= n,
            bpp >= 1,
            filter <= 4,
            out@ == unfilter_prefix(filter, raw@, prev@, bpp as int, i as int),
            out@.len() == i,
        decreases n - i,
    {
        let a: u8 = if i >= bpp {
            out[i - bpp]
        } else {
            0
        };
        let b: u8 = if i < prev.len() {
            prev[i]
        } else {
            0
        };
        let c: u8 = if i >= bpp && i - bpp < prev.len() {
            prev[i - bpp]
        } else {
            0
        };
        let pred: u8 = if filter == 1 {
            a
        } else if filter == 2 {
            b
        } else if filter == 3 {
            ((a as u16 + b as u16) / 2) as u8
        } else if filter == 4 {
            paeth(a, b, c)
        } else {
            0
        };
        let v = raw[i].wrapping_add(pred);
        proof {
            assert(v == unfilter_byte(filter, raw@, prev@, out@, bpp as int, i as int));
        }
        out.push(v);
        i = i + 1;
    }
    Ok(out)
}

// ─── Sub-byte samples ───────────────────────────────────────

/// Sample `x` of a row of 1, 2 or 4-bit samples, scaled to 0..255; for other depths, byte
/// `x` (0 past the end of the row).
pub open spec fn sub_byte_spec(row: Seq<u8>, x: int, bit_depth: u8) -> u8 {
    if bit_depth == 1 {
        let b = byte_or_zero(row, x / 8);
        (((b >> ((7 - x % 8) as u8)) & 1u8) as int * 255) as u8
    } else if bit_depth == 2 {
        let b = byte_or_zero(row, x / 4);
        (((b >> ((6 - (x % 4) * 2) as u8)) & 3u8) as int * 85) as u8
    } else if bit_depth == 4 {
        let b = byte_or_zero(row, x / 2);
        ((if x % 2 == 0 {
            (b >> 4u8) & 0xFu8
        } else {
            b & 0xFu8
        }) as int * 17) as u8
    } else {
        byte_or_zero(row, x)
    }
}

pub fn sub_byte(row: &[u8], x: usize, bit_depth: u8) -> (r: u8)
    ensures
        r == sub_byte_spec(row@, x as int, bit_depth),
{
    if bit_depth == 1 {
        let b: u8 = if x / 8 < row.len() {
            row[x / 8]
        } else {
            0
        };
        let s = ((7 - x % 8) as u8);
        let v = (b >> s) & 1;
        proof {
            assert(v <= 1u8) by (bit_vector)
                requires
                    v == (b >> s) & 1u8,
            ;
        }
        v * 255
    } else if bit_depth == 2 {
        let b: u8 = if x / 4 < row.len() {
            row[x / 4]
        } else {
            0
        };
        let s = ((6 - (x % 4) * 2) as u8);
        let v = (b >> s) & 3;
        proof {
            assert(v <= 3u8) by (bit_vector)
                requires
                    v == (b >> s) & 3u8,
            ;
        }
        v * 85
    } else if bit_depth == 4 {
        let b: u8 = if x / 2 < row.len() {
            row[x / 2]
        } else {
            0
        };
        let v = if x % 2 == 0 {
            (b >> 4) & 0xF
        } else {
            b & 0xF
        };
        proof {
            assert(((b >> 4u8) & 0xFu8) <= 15u8) by (bit_vector);
            assert((b & 0xFu8) <= 15u8) by (bit_vector);
        }
        v * 17
    } else {
        if x < row.len() {
            row[x]
        } else {
            0
        }
    }
}

/// Sample `x` of a row of 1, 2 or 4-bit samples as it is stored, unscaled; for other
/// depths, byte `x` (0 past the end of the row).
pub open spec fn sub_index_spec(row: Seq<u8>, x: int, bit_depth: u8) -> u8 {
    if bit_depth == 1 {
        (byte_or_zero(row, x / 8) >> ((7 - x % 8) as u8)) & 1u8
    } else if bit_depth == 2 {
        (byte_or_zero(row, x / 4) >> ((6 - (x % 4) * 2) as u8)) & 3u8
    } else if bit_depth == 4 {
        let b = byte_or_zero(row, x / 2);
        if x % 2 == 0 {
            (b >> 4u8) & 0xFu8
        } else {
            b & 0xFu8
        }
    } else {
        byte_or_zero(row, x)
    }
}

pub fn sub_index(row: &[u8], x: usize, bit_depth: u8) -> (r: u8)
    ensures
        r == sub_index_spec(row@, x as int, bit_depth),
{
    if bit_depth == 1 {
        let b: u8 = if x / 8 < row.len() {
            row[x / 8]
        } else {
            0
        };
        (b >> ((7 - x % 8) as u8)) & 1
    } else if bit_depth == 2 {
        let b: u8 = if x / 4 < row.len() {
            row[x / 4]
        } else {
            0
        };
        (b >> ((6 - (x % 4) * 2) as u8)) & 3
    } else if bit_depth == 4 {
        let b: u8 = if x / 2 < row.len() {
            row[x / 2]
        } else {
            0
        };
        if x % 2 == 0 {
            (b >> 4) & 0xF
        } else {
            b & 0xF
        }
    } else if x < row.len() {
        row[x]
    } else {
        0
    }
}

/// A palette index: the sample as stored at depths below 8 (1, 2 or 4 bits), or at depths
/// of 8 and more the first byte of the pixel.
pub open spec fn sub_byte_or_8_spec(row: Seq<u8>, x: int, bit_depth: u8, channels: int) -> u8 {
    if bit_depth < 8 {
        sub_index_spec(row, x, bit_depth)
    } else {
        byte_or_zero(row, x * channels)
    }
}

pub fn sub_byte_or_8(row: &[u8], x: usize, bit_depth: u8, channels: usize) -> (r: u8)
    requires
        x * channels <= usize::MAX,
    ensures
        r == sub_byte_or_8_spec(row@, x as int, bit_depth, channels as int),
{
    if bit_depth < 8 {
        sub_index(row, x, bit_depth)
    } else if x * channels < row.len() {
        row[x * channels]
    } else {
        0
    }
}

} // verus!
