//! DEFLATE decompression (RFC 1951) as PNG uses it: a bit reader that reads least
//! significant bit first, canonical Huffman codes, and stored, fixed and dynamic blocks.
//!
//! `block_from`, `code_lengths` and `blocks_from` are interpreters over the input bits that
//! say what each step produces, or which error it reports.
use vstd::prelude::*;
use vstd::arithmetic::power2::{pow2, lemma_pow2_unfold, lemma_pow2_pos};
use super::{ImageError, fails_with, error};
use crate::text::{string_of, append_decimal, decimal};

verus! {

// ─── Bits ───────────────────────────────────────────────────

/// Bit `p` of `data`, counting from the least significant bit of the first byte.
pub open spec fn bit_at(data: Seq<u8>, p: int) -> int {
    ((data[p / 8] >> ((p % 8) as u8)) & 1u8) as int
}

/// The `n` bits of `data` from bit `p` on, the first one least significant.
pub open spec fn bits_val(data: Seq<u8>, p: int, n: int) -> int
    decreases n,
{
    if n <= 0 {
        0
    } else {
        bits_val(data, p, n - 1) + bit_at(data, p + n - 1) * pow2((n - 1) as nat)
    }
}

/// The eight bits at a byte boundary are that byte.
pub proof fn lemma_byte_bits(data: Seq<u8>, i: int)
    requires
        0 <= i < data.len(),
    ensures
        bits_val(data, 8 * i, 8) == data[i] as int,
{
    vstd::arithmetic::power2::lemma2_to64();
    let b = data[i];
    assert((8 * i + 0) / 8 == i && (8 * i + 0) % 8 == 0);
    assert((8 * i + 1) / 8 == i && (8 * i + 1) % 8 == 1);
    assert((8 * i + 2) / 8 == i && (8 * i + 2) % 8 == 2);
    assert((8 * i + 3) / 8 == i && (8 * i + 3) % 8 == 3);
    assert((8 * i + 4) / 8 == i && (8 * i + 4) % 8 == 4);
    assert((8 * i + 5) / 8 == i && (8 * i + 5) % 8 == 5);
    assert((8 * i + 6) / 8 == i && (8 * i + 6) % 8 == 6);
    assert((8 * i + 7) / 8 == i && (8 * i + 7) % 8 == 7);
    assert(bit_at(data, 8 * i) == ((b >> 0u8) & 1u8) as int);
    assert(bit_at(data, 8 * i + 1) == ((b >> 1u8) & 1u8) as int);
    assert(bit_at(data, 8 * i + 2) == ((b >> 2u8) & 1u8) as int);
    assert(bit_at(data, 8 * i + 3) == ((b >> 3u8) & 1u8) as int);
    assert(bit_at(data, 8 * i + 4) == ((b >> 4u8) & 1u8) as int);
    assert(bit_at(data, 8 * i + 5) == ((b >> 5u8) & 1u8) as int);
    assert(bit_at(data, 8 * i + 6) == ((b >> 6u8) & 1u8) as int);
    assert(bit_at(data, 8 * i + 7) == ((b >> 7u8) & 1u8) as int);
    assert(bits_val(data, 8 * i, 1) == bits_val(data, 8 * i, 0) + bit_at(data, 8 * i + 0) * pow2(0));
    assert(bits_val(data, 8 * i, 2) == bits_val(data, 8 * i, 1) + bit_at(data, 8 * i + 1) * pow2(1));
    assert(bits_val(data, 8 * i, 3) == bits_val(data, 8 * i, 2) + bit_at(data, 8 * i + 2) * pow2(2));
    assert(bits_val(data, 8 * i, 4) == bits_val(data, 8 * i, 3) + bit_at(data, 8 * i + 3) * pow2(3));
    assert(bits_val(data, 8 * i, 5) == bits_val(data, 8 * i, 4) + bit_at(data, 8 * i + 4) * pow2(4));
    assert(bits_val(data, 8 * i, 6) == bits_val(data, 8 * i, 5) + bit_at(data, 8 * i + 5) * pow2(5));
    assert(bits_val(data, 8 * i, 7) == bits_val(data, 8 * i, 6) + bit_at(data, 8 * i + 6) * pow2(6));
    assert(bits_val(data, 8 * i, 8) == bits_val(data, 8 * i, 7) + bit_at(data, 8 * i + 7) * pow2(7));
    assert(b as int == ((b >> 0u8) & 1u8) as int + ((b >> 1u8) & 1u8) as int * 2 + ((b >> 2u8) & 1u8) as int * 4
        + ((b >> 3u8) & 1u8) as int * 8 + ((b >> 4u8) & 1u8) as int * 16 + ((b >> 5u8) & 1u8) as int * 32
        + ((b >> 6u8) & 1u8) as int * 64 + ((b >> 7u8) & 1u8) as int * 128) by (bit_vector);
}

/// Reads a DEFLATE stream bit by bit.
pub struct BitReader<'a> {
    pub data: &'a [u8],
    pub byte: usize,
    pub off: u8,
}

impl<'a> BitReader<'a> {
    pub open spec fn wf(&self) -> bool {
        &&& self.byte <= self.data@.len()
        &&& self.off < 8
        &&& self.byte == self.data@.len() ==> self.off == 0
    }

    /// The bit position reached.
    pub open spec fn pos(&self) -> int {
        self.byte as int * 8 + self.off as int
    }

    pub open spec fn total(&self) -> int {
        self.data@.len() as int * 8
    }

    pub fn new(data: &'a [u8]) -> (r: Self)
        ensures
            r.wf(),
            r.data@ == data@,
            r.pos() == 0,
    {
        BitReader { data, byte: 0, off: 0 }
    }

    fn next_bit(&mut self) -> (b: u32)
        requires
            old(self).wf(),
            old(self).pos() < old(self).total(),
        ensures
            final(self).wf(),
            final(self).data@ == old(self).data@,
            final(self).pos() == old(self).pos() + 1,
            b as int == bit_at(old(self).data@, old(self).pos()),
            b <= 1,
    {
        let byte = self.data[self.byte];
        let off = self.off;
        let v = (byte >> off) & 1u8;
        proof {
            let p = self.pos();
            assert(p / 8 == self.byte as int && p % 8 == self.off as int);
            assert(v <= 1u8) by (bit_vector)
                requires
                    v == (byte >> off) & 1u8,
            ;
        }
        if self.off == 7 {
            self.off = 0;
            self.byte = self.byte + 1;
        } else {
            self.off = self.off + 1;
        }
        v as u32
    }

    /// The next `n` bits (least significant first), or an error when the stream ends first.
    pub fn read_bits(&mut self, n: usize) -> (r: Result<u32, ImageError>)
        requires
            old(self).wf(),
            n <= 16,
        ensures
            final(self).wf(),
            final(self).data@ == old(self).data@,
            if old(self).pos() + n > old(self).total() && n > 0 {
                fails_with(r, "Unexpected end of DEFLATE stream"@)
            } else {
                &&& r matches Ok(v) && v as int == bits_val(old(self).data@, old(self).pos(), n as int)
                &&& final(self).pos() == old(self).pos() + n
            },
            r matches Ok(v) ==> v <= 0xFFFF,
    {
        if n == 0 {
            return Ok(0);
        }
        let left: u128 = (self.data.len() - self.byte) as u128 * 8 - self.off as u128;
        assert(left == self.total() - self.pos());
        if left < n as u128 {
            return Err(error("Unexpected end of DEFLATE stream"));
        }
        let ghost p0 = self.pos();
        let ghost d = self.data@;
        let mut v: u32 = 0;
        let mut m: u32 = 1;
        let mut k: usize = 0;
        proof {
            vstd::arithmetic::power2::lemma2_to64();
        }
        while k < n
            invariant
                self.wf(),
                self.data@ == d,
                k <= n <= 16,
                p0 + n <= self.total(),
                self.pos() == p0 + k,
                m as int == pow2(k as nat),
                v as int == bits_val(d, p0, k as int),
                v < m,
            decreases n - k,
        {
            proof {
                lemma_pow2_unfold((k + 1) as nat);
                vstd::arithmetic::power2::lemma_pow2_strictly_increases(k as nat, 16);
                vstd::arithmetic::power2::lemma2_to64();
            }
            let b = self.next_bit();
            assert(b * m <= m) by (nonlinear_arith)
                requires
                    b <= 1,
            ;
            v = v + b * m;
            m = m * 2;
            k = k + 1;
        }
        proof {
            lemma_pow2_le16(n as nat);
        }
        Ok(v)
    }

    pub fn read_byte(&mut self) -> (r: Result<u8, ImageError>)
        requires
            old(self).wf(),
        ensures
            final(self).wf(),
            final(self).data@ == old(self).data@,
            if old(self).pos() + 8 > old(self).total() {
                fails_with(r, "Unexpected end of DEFLATE stream"@)
            } else {
                &&& r matches Ok(v) && v as int == bits_val(old(self).data@, old(self).pos(), 8)
                &&& final(self).pos() == old(self).pos() + 8
            },
    {
        let v = self.read_bits(8)?;
        proof {
            lemma_bits_val_bound(self.data@, old(self).pos(), 8);
            vstd::arithmetic::power2::lemma2_to64();
        }
        Ok(v as u8)
    }

    /// A little-endian 16-bit value.
    pub fn read_u16_le(&mut self) -> (r: Result<u16, ImageError>)
        requires
            old(self).wf(),
        ensures
            final(self).wf(),
            final(self).data@ == old(self).data@,
            if old(self).pos() + 16 > old(self).total() {
                fails_with(r, "Unexpected end of DEFLATE stream"@)
            } else {
                &&& r matches Ok(v) && v as int == bits_val(old(self).data@, old(self).pos(), 8)
                    + 256 * bits_val(old(self).data@, old(self).pos() + 8, 8)
                &&& final(self).pos() == old(self).pos() + 16
            },
    {
        let lo = self.read_byte()? as u16;
        let hi = self.read_byte()? as u16;
        proof {
            assert(lo | (hi << 8) == lo + 256 * hi) by (bit_vector)
                requires
                    lo < 256,
                    hi < 256,
            ;
        }
        Ok(lo | (hi << 8))
    }

    /// Skips to the next byte boundary.
    pub fn byte_align(&mut self)
        requires
            old(self).wf(),
        ensures
            final(self).wf(),
            final(self).data@ == old(self).data@,
            final(self).pos() == if old(self).pos() % 8 == 0 {
                old(self).pos()
            } else {
                old(self).pos() - old(self).pos() % 8 + 8
            },
    {
        let ghost p = self.pos();
        assert((self.byte as int * 8 + self.off as int) % 8 == self.off as int) by (nonlinear_arith)
            requires
                0 <= self.off < 8,
                self.byte >= 0,
        ;
        if self.off > 0 && self.byte < self.data.len() {
            self.off = 0;
            self.byte = self.byte + 1;
        }
    }
}

pub proof fn lemma_bits_val_bound(data: Seq<u8>, p: int, n: int)
    requires
        0 <= n,
        0 <= p,
        p + n <= data.len() * 8,
    ensures
        0 <= bits_val(data, p, n) < pow2(n as nat),
    decreases n,
{
    if n > 0 {
        lemma_bits_val_bound(data, p, n - 1);
        lemma_pow2_unfold(n as nat);
        let byte = data[(p + n - 1) / 8];
        let sh = ((p + n - 1) % 8) as u8;
        assert(((byte >> sh) & 1u8) <= 1u8) by (bit_vector);
        let bit = bit_at(data, p + n - 1);
        assert(bit <= 1);
        lemma_pow2_pos((n - 1) as nat);
        assert(0 <= bit * pow2((n - 1) as nat) <= pow2((n - 1) as nat)) by (nonlinear_arith)
            requires
                0 <= bit <= 1,
                pow2((n - 1) as nat) > 0,
        ;
        assert(pow2(n as nat) == 2 * pow2((n - 1) as nat));
    } else {
        lemma_pow2_pos(0);
    }
}

// ─── Canonical Huffman codes ────────────────────────────────

/// How many of the first `n` code lengths equal `len`.
pub open spec fn count_len(lengths: Seq<u8>, len: int, n: int) -> int
    decreases n,
{
    if n <= 0 {
        0
    } else {
        count_len(lengths, len, n - 1) + if lengths[n - 1] as int == len {
            1int
        } else {
            0int
        }
    }
}

/// The first code of length `b` (RFC 1951, 3.2.2): codes are handed out by length, and in
/// symbol order within a length.
pub open spec fn first_code(lengths: Seq<u8>, b: int) -> int
    decreases b,
{
    if b <= 0 {
        0
    } else {
        (first_code(lengths, b - 1) + if b - 1 >= 1 {
            count_len(lengths, b - 1, lengths.len() as int)
        } else {
            0
        }) * 2
    }
}

/// The (code, length, symbol) entries of the symbols among the first `n` that have a code,
/// in symbol order.
pub open spec fn huff_entries(lengths: Seq<u8>, n: int) -> Seq<(u32, u8, u16)>
    decreases n,
{
    if n <= 0 {
        seq![]
    } else {
        let e = huff_entries(lengths, n - 1);
        let l = lengths[n - 1];
        if l == 0 {
            e
        } else {
            e.push(
                (
                    (first_code(lengths, l as int) + count_len(lengths, l as int, n - 1)) as u32,
                    l,
                    (n - 1) as u16,
                ),
            )
        }
    }
}

/// Code lengths a tree can be built from: at most 15 bits, and not too many symbols for the
/// codes to fit in 32 bits.
pub open spec fn lengths_ok(lengths: Seq<u8>) -> bool {
    &&& lengths.len() <= 0x8000
    &&& forall|i: int| 0 <= i < lengths.len() ==> #[trigger] lengths[i] <= 15
}

proof fn lemma_pow2_le16(e: nat)
    requires
        e <= 16,
    ensures
        pow2(e) <= 0x10000,
{
    vstd::arithmetic::power2::lemma2_to64();
    if e < 16 {
        vstd::arithmetic::power2::lemma_pow2_strictly_increases(e, 16);
    }
}

proof fn lemma_count_len_bound(lengths: Seq<u8>, len: int, n: int)
    requires
        0 <= n <= lengths.len(),
    ensures
        0 <= count_len(lengths, len, n) <= n,
    decreases n,
{
    if n > 0 {
        lemma_count_len_bound(lengths, len, n - 1);
    }
}

proof fn lemma_first_code_bound(lengths: Seq<u8>, b: int)
    requires
        0 <= b <= 16,
    ensures
        0 <= first_code(lengths, b) <= (pow2((b + 1) as nat) - 2) * lengths.len(),
    decreases b,
{
    if b > 0 {
        lemma_first_code_bound(lengths, b - 1);
        lemma_count_len_bound(lengths, b - 1, lengths.len() as int);
        lemma_pow2_unfold((b + 1) as nat);
        lemma_pow2_pos(b as nat);
        let n = lengths.len() as int;
        let f = first_code(lengths, b - 1);
        let c = if b - 1 >= 1 {
            count_len(lengths, b - 1, n)
        } else {
            0
        };
        let q = pow2(b as nat);
        assert((f + c) * 2 <= (2 * q - 2) * n) by (nonlinear_arith)
            requires
                0 <= f <= (q - 2) * n,
                0 <= c <= n,
                0 <= n,
        ;
    } else {
        vstd::arithmetic::power2::lemma2_to64();
    }
}

/// A Huffman code as a list of (code, length, symbol) entries.
pub struct HuffTree {
    pub entries: Vec<(u32, u8, u16)>,
}

impl HuffTree {
    /// The canonical code for the given code lengths (a length of 0 leaves a symbol out).
    pub fn build(lengths: &[u8]) -> (t: Self)
        requires
            lengths_ok(lengths@),
        ensures
            t.entries@ == huff_entries(lengths@, lengths@.len() as int),
    {
        let ghost ls = lengths@;
        let n = lengths.len();
        let mut max_len: usize = 0;
        let mut i: usize = 0;
        while i < n
            invariant
                ls == lengths@,
                n == ls.len(),
                i <= n,
                lengths_ok(ls),
                max_len <= 15,
                forall|k: int| 0 <= k < i ==> ls[k] <= max_len,
            decreases n - i,
        {
            if lengths[i] as usize > max_len {
                max_len = lengths[i] as usize;
            }
            i = i + 1;
        }
        let mut bl_count: Vec<u32> = vec![0u32; max_len + 1];
        let mut i: usize = 0;
        while i < n
            invariant
                ls == lengths@,
                n == ls.len(),
                i <= n,
                lengths_ok(ls),
                max_len <= 15,
                forall|k: int| 0 <= k < n ==> ls[k] <= max_len,
                bl_count@.len() == max_len + 1,
                bl_count@[0] == 0,
                forall|l: int| 1 <= l <= max_len ==> #[trigger] bl_count@[l] == count_len(ls, l, i as int),
            decreases n - i,
        {
            let l = lengths[i] as usize;
            proof {
                lemma_count_len_bound(ls, l as int, i as int);
            }
            if l > 0 {
                let c = bl_count[l];
                bl_count.set(l, c + 1);
            }
            i = i + 1;
        }
        let mut next_code: Vec<u32> = vec![0u32; max_len + 2];
        let mut b: usize = 1;
        while b <= max_len
            invariant
                ls == lengths@,
                1 <= b <= max_len + 1,
                max_len <= 15,
                n == ls.len(),
                lengths_ok(ls),
                bl_count@.len() == max_len + 1,
                bl_count@[0] == 0,
                forall|l: int| 1 <= l <= max_len ==> #[trigger] bl_count@[l] == count_len(ls, l, n as int),
                next_code@.len() == max_len + 2,
                forall|l: int| 0 <= l < b ==> #[trigger] next_code@[l] == first_code(ls, l),
                forall|l: int| b <= l < max_len + 2 ==> #[trigger] next_code@[l] == 0,
            decreases max_len + 1 - b,
        {
            proof {
                lemma_first_code_bound(ls, b as int);
                lemma_first_code_bound(ls, b - 1);
                lemma_count_len_bound(ls, b - 1, n as int);
                vstd::arithmetic::power2::lemma2_to64();
                lemma_pow2_le16(b as nat);
                assert((pow2(b as nat) - 2) * n <= 0x10000 * 0x8000) by (nonlinear_arith)
                    requires
                        pow2(b as nat) <= 0x10000,
                        n <= 0x8000,
                ;
                if b - 1 >= 1 {
                    assert(bl_count@[b - 1] == count_len(ls, b - 1, n as int));
                }
                assert((pow2(b as nat) - 1) * n < 0x8000_0000) by (nonlinear_arith)
                    requires
                        pow2(b as nat) <= 0x10000,
                        n <= 0x8000,
                ;
                assert(next_code@[b - 1] + bl_count@[b - 1] <= (pow2(b as nat) - 1) * n) by (nonlinear_arith)
                    requires
                        next_code@[b - 1] <= (pow2(b as nat) - 2) * n,
                        bl_count@[b - 1] <= n,
                ;
            }
            let v = (next_code[b - 1] + bl_count[b - 1]) << 1;
            proof {
                let x = (next_code@[b - 1] + bl_count@[b - 1]) as u32;
                assert(x << 1 == x * 2) by (bit_vector)
                    requires
                        x < 0x8000_0000,
                ;
            }
            next_code.set(b, v);
            b = b + 1;
        }
        let mut entries: Vec<(u32, u8, u16)> = Vec::new();
        let mut sym: usize = 0;
        while sym < n
            invariant
                ls == lengths@,
                sym <= n,
                n == ls.len(),
                lengths_ok(ls),
                max_len <= 15,
                forall|k: int| 0 <= k < n ==> ls[k] <= max_len,
                next_code@.len() == max_len + 2,
                forall|l: int|
                    1 <= l <= max_len ==> #[trigger] next_code@[l] == first_code(ls, l) + count_len(
                        ls,
                        l,
                        sym as int,
                    ),
                entries@ == huff_entries(ls, sym as int),
            decreases n - sym,
        {
            let len = lengths[sym];
            if len != 0 {
                let l = len as usize;
                proof {
                    lemma_first_code_bound(ls, l as int);
                    lemma_count_len_bound(ls, l as int, sym as int);
                    vstd::arithmetic::power2::lemma2_to64();
                    lemma_pow2_le16((l + 1) as nat);
                    assert((pow2((l + 1) as nat) - 2) * n <= 0x10000 * 0x8000) by (nonlinear_arith)
                        requires
                            pow2((l + 1) as nat) <= 0x10000,
                            n <= 0x8000,
                    ;
                }
                let code = next_code[l];
                next_code.set(l, code + 1);
                entries.push((code, len, sym as u16));
            }
            sym = sym + 1;
        }
        HuffTree { entries }
    }
}

/// The symbol of the first entry with this code and length.
pub open spec fn match_from(es: Seq<(u32, u8, u16)>, code: int, len: int, i: int) -> Option<u16>
    decreases es.len() - i,
{
    if i < 0 || i >= es.len() {
        None
    } else if es[i].1 as int == len && es[i].0 as int == code {
        Some(es[i].2)
    } else {
        match_from(es, code, len, i + 1)
    }
}

/// Decoding a symbol after `len` bits that read `code`: one more bit (most significant
/// first), then a lookup; at most 16 bits.
pub open spec fn decode_from(es: Seq<(u32, u8, u16)>, data: Seq<u8>, p: int, code: int, len: int) -> Result<(u16, int), Seq<char>>
    decreases 16 - len,
{
    if len >= 16 {
        Err("Invalid Huffman code in PNG DEFLATE stream"@)
    } else if p + 1 > data.len() * 8 {
        Err("Unexpected end of DEFLATE stream"@)
    } else {
        let c2 = code * 2 + bit_at(data, p);
        match match_from(es, c2, len + 1, 0) {
            Some(s) => Ok((s, p + 1)),
            None => decode_from(es, data, p + 1, c2, len + 1),
        }
    }
}

/// The symbol the code `es` reads at bit `p`, and the bit after it.
pub open spec fn huff_decode(es: Seq<(u32, u8, u16)>, data: Seq<u8>, p: int) -> Result<(u16, int), Seq<char>> {
    decode_from(es, data, p, 0, 0)
}

proof fn lemma_decode_from_advances(es: Seq<(u32, u8, u16)>, data: Seq<u8>, p: int, code: int, len: int)
    ensures
        decode_from(es, data, p, code, len) matches Ok((_, q)) ==> p < q <= data.len() * 8,
    decreases 16 - len,
{
    if len < 16 && p + 1 <= data.len() * 8 {
        let c2 = code * 2 + bit_at(data, p);
        if match_from(es, c2, len + 1, 0) is None {
            lemma_decode_from_advances(es, data, p + 1, c2, len + 1);
        }
    }
}

pub proof fn lemma_decode_advances(es: Seq<(u32, u8, u16)>, data: Seq<u8>, p: int)
    ensures
        huff_decode(es, data, p) matches Ok((_, q)) ==> p < q <= data.len() * 8,
{
    lemma_decode_from_advances(es, data, p, 0, 0);
}

fn find_code(entries: &Vec<(u32, u8, u16)>, code: u32, len: u8) -> (r: Option<u16>)
    ensures
        r == match_from(entries@, code as int, len as int, 0),
{
    let mut i: usize = 0;
    while i < entries.len()
        invariant
            i <= entries@.len(),
            match_from(entries@, code as int, len as int, 0) == match_from(
                entries@,
                code as int,
                len as int,
                i as int,
            ),
        decreases entries.len() - i,
    {
        let (c, l, sym) = entries[i];
        if l == len && c == code {
            return Some(sym);
        }
        i = i + 1;
    }
    None
}

impl HuffTree {
    /// Reads one symbol.
    pub fn decode(&self, bits: &mut BitReader) -> (r: Result<u16, ImageError>)
        requires
            old(bits).wf(),
        ensures
            final(bits).wf(),
            final(bits).data@ == old(bits).data@,
            match huff_decode(self.entries@, old(bits).data@, old(bits).pos()) {
                Ok((s, q)) => r == Ok::<u16, ImageError>(s) && final(bits).pos() == q,
                Err(m) => fails_with(r, m),
            },
    {
        let ghost es = self.entries@;
        let ghost d = bits.data@;
        let ghost p0 = bits.pos();
        let mut code: u32 = 0;
        let mut len: u8 = 0;
        let mut step: usize = 0;
        proof {
            vstd::arithmetic::power2::lemma2_to64();
        }
        while step < 16
            invariant
                es == self.entries@,
                bits.wf(),
                bits.data@ == d,
                d == old(bits).data@,
                p0 == old(bits).pos(),
                step <= 16,
                len == step,
                code < pow2(len as nat),
                huff_decode(es, d, p0) == decode_from(es, d, bits.pos(), code as int, len as int),
            decreases 16 - step,
        {
            proof {
                vstd::arithmetic::power2::lemma2_to64();
                lemma_pow2_le16(len as nat);
            }
            let ghost pos = bits.pos();
            let b = match bits.read_bits(1) {
                Ok(b) => b,
                Err(e) => {
                    return Err(e);
                },
            };
            proof {
                lemma_bits_val_bound(d, pos, 1);
                reveal_with_fuel(bits_val, 2);
                assert(b <= 1);
                assert((code << 1) | b == code * 2 + b) by (bit_vector)
                    requires
                        code < 0x10000,
                        b <= 1,
                ;
            }
            let ghost code0 = code as int;
            let ghost len0 = len as int;
            code = (code << 1) | b;
            len = len + 1;
            proof {
                vstd::arithmetic::power2::lemma2_to64();
                assert(pow2(0) == 1);
                assert(bits_val(d, pos, 0) == 0);
                assert(bits_val(d, pos, 1) == bits_val(d, pos, 0) + bit_at(d, pos) * pow2(0));
            }
            assert(code as int == code0 * 2 + bit_at(d, pos));
            let found = find_code(&self.entries, code, len);
            assert(decode_from(es, d, pos, code0, len0) == match match_from(es, code as int, len as int, 0) {
                Some(s) => Ok((s, pos + 1)),
                None => decode_from(es, d, pos + 1, code as int, len as int),
            });
            if let Some(sym) = found {
                return Ok(sym);
            }
            step = step + 1;
            proof {
                lemma_pow2_unfold(len as nat);
            }
        }
        Err(error("Invalid Huffman code in PNG DEFLATE stream"))
    }
}

// ─── DEFLATE ────────────────────────────────────────────────

pub const LEN_BASE: [u16; 29] = [
    3, 4, 5, 6, 7, 8, 9, 10, 11, 13, 15, 17, 19, 23, 27, 31, 35, 43, 51, 59, 67, 83, 99, 115, 131,
    163, 195, 227, 258,
];

pub const LEN_EXTRA: [u8; 29] = [
    0, 0, 0, 0, 0, 0, 0, 0, 1, 1, 1, 1, 2, 2, 2, 2, 3, 3, 3, 3, 4, 4, 4, 4, 5, 5, 5, 5, 0,
];

pub const DIST_BASE: [u32; 30] = [
    1, 2, 3, 4, 5, 7, 9, 13, 17, 25, 33, 49, 65, 97, 129, 193, 257, 385, 513, 769, 1025, 1537,
    2049, 3073, 4097, 6145, 8193, 12289, 16385, 24577,
];

pub const DIST_EXTRA: [u8; 30] = [
    0, 0, 0, 0, 1, 1, 2, 2, 3, 3, 4, 4, 5, 5, 6, 6, 7, 7, 8, 8, 9, 9, 10, 10, 11, 11, 12, 12, 13,
    13,
];

pub open spec fn end_of_stream() -> Seq<char> {
    "Unexpected end of DEFLATE stream"@
}

/// Reading `n` bits at bit `p`: their value and the bit after them.
pub open spec fn read_spec(d: Seq<u8>, p: int, n: int) -> Result<(int, int), Seq<char>> {
    if n > 0 && p + n > d.len() * 8 {
        Err(end_of_stream())
    } else {
        Ok((bits_val(d, p, n), p + n))
    }
}

/// `out` followed by `len` bytes copied from `dst` bytes back (the copy may overlap what it
/// writes, repeating the last `dst` bytes).
pub open spec fn copy_back(out: Seq<u8>, dst: int, len: int) -> Seq<u8> {
    out + Seq::new(len as nat, |k: int| out[out.len() - dst + k % dst])
}

/// Decoding the rest of a Huffman block from bit `p`, with `out` produced so far: the bit
/// after the end-of-block symbol and the output, or the error met.
pub open spec fn block_from(
    lit: Seq<(u32, u8, u16)>,
    dist: Seq<(u32, u8, u16)>,
    d: Seq<u8>,
    p: int,
    out: Seq<u8>,
) -> Result<(int, Seq<u8>), Seq<char>>
    decreases d.len() * 8 - p,
{
    match huff_decode(lit, d, p) {
        Err(m) => Err(m),
        Ok((sym, p1)) => {
            proof {
                lemma_decode_advances(lit, d, p);
            }
            if sym <= 255 {
                block_from(lit, dist, d, p1, out.push(sym as u8))
            } else if sym == 256 {
                Ok((p1, out))
            } else if sym <= 285 {
                let li = sym - 257;
                match read_spec(d, p1, LEN_EXTRA[li as int] as int) {
                    Err(m) => Err(m),
                    Ok((e, p2)) => {
                        let len = LEN_BASE[li as int] as int + e;
                        match huff_decode(dist, d, p2) {
                            Err(m) => Err(m),
                            Ok((di, p3)) => {
                                proof {
                                    lemma_decode_advances(dist, d, p2);
                                }
                                if di >= 30 {
                                    Err("DEFLATE dist code out of range"@)
                                } else {
                                    match read_spec(d, p3, DIST_EXTRA[di as int] as int) {
                                        Err(m) => Err(m),
                                        Ok((e2, p4)) => {
                                            let dst = DIST_BASE[di as int] as int + e2;
                                            if dst > out.len() {
                                                Err("DEFLATE invalid back-reference"@)
                                            } else {
                                                block_from(lit, dist, d, p4, copy_back(out, dst, len))
                                            }
                                        },
                                    }
                                }
                            },
                        }
                    },
                }
            } else {
                Err("DEFLATE bad symbol "@ + decimal(sym as nat))
            }
        },
    }
}

proof fn lemma_dist_base(i: int)
    requires
        0 <= i < 30,
    ensures
        DIST_BASE[i] >= 1,
{
    assert(DIST_BASE[i] >= 1);
}

/// Decodes the symbols of one Huffman-coded block into `out`, up to its end-of-block symbol.
pub fn inflate_block(bits: &mut BitReader, lit: &HuffTree, dist: &HuffTree, out: &mut Vec<u8>) -> (r: Result<(), ImageError>)
    requires
        old(bits).wf(),
    ensures
        final(bits).wf(),
        final(bits).data@ == old(bits).data@,
        match block_from(lit.entries@, dist.entries@, old(bits).data@, old(bits).pos(), old(out)@) {
            Ok((q, o)) => r is Ok && final(bits).pos() == q && final(out)@ == o,
            Err(m) => fails_with(r, m),
        },
{
    let ghost d = bits.data@;
    let ghost target = block_from(lit.entries@, dist.entries@, d, bits.pos(), out@);
    loop
        invariant
            bits.wf(),
            bits.data@ == d,
            d == old(bits).data@,
            target == block_from(lit.entries@, dist.entries@, old(bits).data@, old(bits).pos(), old(out)@),
            target == block_from(lit.entries@, dist.entries@, d, bits.pos(), out@),
        decreases d.len() * 8 - bits.pos(),
    {
        let ghost p = bits.pos();
        let ghost o = out@;
        proof {
            lemma_decode_advances(lit.entries@, d, p);
        }
        let sym = match lit.decode(bits) {
            Ok(s) => s,
            Err(e) => {
                return Err(e);
            },
        };
        if sym <= 255 {
            out.push(sym as u8);
        } else if sym == 256 {
            return Ok(());
        } else if sym <= 285 {
            let li = (sym - 257) as usize;
            let e = match bits.read_bits(LEN_EXTRA[li] as usize) {
                Ok(v) => v,
                Err(e) => {
                    return Err(e);
                },
            };
            let len = LEN_BASE[li] as usize + e as usize;
            let ghost p2 = bits.pos();
            proof {
                lemma_decode_advances(dist.entries@, d, p2);
            }
            let di = match dist.decode(bits) {
                Ok(v) => v as usize,
                Err(e) => {
                    return Err(e);
                },
            };
            if di >= 30 {
                return Err(error("DEFLATE dist code out of range"));
            }
            let e2 = match bits.read_bits(DIST_EXTRA[di] as usize) {
                Ok(v) => v,
                Err(e) => {
                    return Err(e);
                },
            };
            proof {
                lemma_dist_base(di as int);
            }
            let dst = DIST_BASE[di] as usize + e2 as usize;
            if dst > out.len() {
                return Err(error("DEFLATE invalid back-reference"));
            }
            let start = out.len() - dst;
            let mut k: usize = 0;
            while k < len
                invariant
                    k <= len,
                    o.len() <= usize::MAX,
                    dst >= 1,
                    dst <= o.len(),
                    start == o.len() - dst,
                    out@ == copy_back(o, dst as int, k as int),
                decreases len - k,
            {
                proof {
                    assert(k % dst < dst) by (nonlinear_arith)
                        requires
                            dst >= 1,
                    ;
                    assert(start + k % dst < o.len());
                    assert(out@[start + k % dst] == o[start + k % dst]);
                }
                let b = out[start + k % dst];
                out.push(b);
                k = k + 1;
                proof {
                    assert(out@ =~= copy_back(o, dst as int, k as int));
                }
            }
        } else {
            let mut msg = string_of("DEFLATE bad symbol ");
            append_decimal(&mut msg, sym as usize);
            return Err(ImageError(msg));
        }
    }
}

/// The code lengths of the fixed literal/length code: 8, 9, 7 and 8 bits by range.
pub open spec fn fixed_lit_lengths() -> Seq<u8> {
    Seq::new(
        288,
        |i: int|
            if i <= 143 {
                8u8
            } else if i <= 255 {
                9u8
            } else if i <= 279 {
                7u8
            } else {
                8u8
            },
    )
}

/// The code lengths of the fixed distance code: 5 bits each.
pub open spec fn fixed_dist_lengths() -> Seq<u8> {
    Seq::new(32, |i: int| 5u8)
}

/// The fixed Huffman codes of RFC 1951, 3.2.6.
pub fn fixed_trees() -> (t: (HuffTree, HuffTree))
    ensures
        t.0.entries@ == huff_entries(fixed_lit_lengths(), 288),
        t.1.entries@ == huff_entries(fixed_dist_lengths(), 32),
{
    let mut lit: Vec<u8> = Vec::new();
    let mut i: usize = 0;
    while i < 288
        invariant
            i <= 288,
            lit@ == fixed_lit_lengths().take(i as int),
        decreases 288 - i,
    {
        let v: u8 = if i <= 143 {
            8
        } else if i <= 255 {
            9
        } else if i <= 279 {
            7
        } else {
            8
        };
        lit.push(v);
        i = i + 1;
        assert(lit@ =~= fixed_lit_lengths().take(i as int));
    }
    assert(lit@ =~= fixed_lit_lengths());
    let dist: Vec<u8> = vec![5u8; 32];
    assert(dist@ =~= fixed_dist_lengths());
    (HuffTree::build(lit.as_slice()), HuffTree::build(dist.as_slice()))
}

/// The order in which the code-length code's lengths are stored.
pub const CL_ORDER: [usize; 19] = [16, 17, 18, 0, 8, 7, 9, 6, 10, 5, 11, 4, 12, 3, 13, 2, 14, 1, 15];

/// The code-length code's lengths after the first `k` of them are read, 3 bits each, from
/// bit `p`.
pub open spec fn cl_lengths(d: Seq<u8>, p: int, k: int) -> Seq<u8>
    decreases k,
{
    if k <= 0 {
        Seq::new(19, |i: int| 0u8)
    } else {
        cl_lengths(d, p, k - 1).update(CL_ORDER[k - 1] as int, bits_val(d, p + 3 * (k - 1), 3) as u8)
    }
}

/// `lens` extended by `rep` copies of `v`, but never past `total` lengths.
pub open spec fn fill_lens(lens: Seq<u8>, v: u8, rep: int, total: int) -> Seq<u8> {
    let k = if lens.len() + rep <= total {
        rep
    } else {
        total - lens.len()
    };
    lens + Seq::new(k as nat, |i: int| v)
}

/// Reading the literal/length and distance code lengths with the code-length code `cl`,
/// until `total` lengths are known.
pub open spec fn code_lengths(cl: Seq<(u32, u8, u16)>, d: Seq<u8>, p: int, lens: Seq<u8>, total: int) -> Result<(Seq<u8>, int), Seq<char>>
    decreases d.len() * 8 - p,
{
    if lens.len() >= total {
        Ok((lens, p))
    } else {
        match huff_decode(cl, d, p) {
            Err(m) => Err(m),
            Ok((sym, p1)) => {
                proof {
                    lemma_decode_advances(cl, d, p);
                }
                if sym <= 15 {
                    code_lengths(cl, d, p1, lens.push(sym as u8), total)
                } else if sym == 16 {
                    match read_spec(d, p1, 2) {
                        Err(m) => Err(m),
                        Ok((r, p2)) => code_lengths(
                            cl,
                            d,
                            p2,
                            fill_lens(
                                lens,
                                if lens.len() > 0 {
                                    lens.last()
                                } else {
                                    0u8
                                },
                                r + 3,
                                total,
                            ),
                            total,
                        ),
                    }
                } else if sym == 17 {
                    match read_spec(d, p1, 3) {
                        Err(m) => Err(m),
                        Ok((r, p2)) => code_lengths(cl, d, p2, fill_lens(lens, 0, r + 3, total), total),
                    }
                } else if sym == 18 {
                    match read_spec(d, p1, 7) {
                        Err(m) => Err(m),
                        Ok((r, p2)) => code_lengths(cl, d, p2, fill_lens(lens, 0, r + 11, total), total),
                    }
                } else {
                    Err("Invalid code-length symbol"@)
                }
            },
        }
    }
}

/// The two codes of a dynamic block header at bit `p`, and the bit after the header.
pub open spec fn dynamic_spec(d: Seq<u8>, p: int) -> Result<(Seq<(u32, u8, u16)>, Seq<(u32, u8, u16)>, int), Seq<char>> {
    if p + 14 > d.len() * 8 {
        Err(end_of_stream())
    } else {
        let hlit = bits_val(d, p, 5) + 257;
        let hdist = bits_val(d, p + 5, 5) + 1;
        let hclen = bits_val(d, p + 10, 4) + 4;
        let q = p + 14;
        if q + 3 * hclen > d.len() * 8 {
            Err(end_of_stream())
        } else {
            let cl = huff_entries(cl_lengths(d, q, hclen), 19);
            match code_lengths(cl, d, q + 3 * hclen, seq![], hlit + hdist) {
                Err(m) => Err(m),
                Ok((lens, r)) => Ok(
                    (
                        huff_entries(lens.take(hlit), hlit),
                        huff_entries(lens.skip(hlit), hdist),
                        r,
                    ),
                ),
            }
        }
    }
}

proof fn lemma_cl_lengths_small(d: Seq<u8>, q: int, k: int)
    requires
        0 <= k <= 19,
        0 <= q,
        q + 3 * k <= d.len() * 8,
    ensures
        cl_lengths(d, q, k).len() == 19,
        forall|i: int| 0 <= i < 19 ==> #[trigger] cl_lengths(d, q, k)[i] <= 7,
    decreases k,
{
    if k > 0 {
        lemma_cl_lengths_small(d, q, k - 1);
        lemma_bits_val_bound(d, q + 3 * (k - 1), 3);
        vstd::arithmetic::power2::lemma2_to64();
        assert(CL_ORDER[k - 1] < 19);
    }
}

proof fn lemma_code_lengths_small(cl: Seq<(u32, u8, u16)>, d: Seq<u8>, p: int, lens: Seq<u8>, total: int)
    requires
        0 <= p,
        lens.len() <= total,
        forall|i: int| 0 <= i < lens.len() ==> #[trigger] lens[i] <= 15,
    ensures
        code_lengths(cl, d, p, lens, total) matches Ok((l, _)) ==> l.len() == total && forall|i: int|
            0 <= i < l.len() ==> #[trigger] l[i] <= 15,
    decreases d.len() * 8 - p,
{
    if lens.len() < total {
        lemma_decode_advances(cl, d, p);
        match huff_decode(cl, d, p) {
            Err(_) => {},
            Ok((sym, p1)) => {
                if sym <= 15 {
                    let l2 = lens.push(sym as u8);
                    assert forall|i: int| 0 <= i < l2.len() implies #[trigger] l2[i] <= 15 by {
                        if i < lens.len() {
                            assert(l2[i] == lens[i]);
                        }
                    }
                    lemma_code_lengths_small(cl, d, p1, l2, total);
                } else if 16 <= sym <= 18 {
                    let n: int = if sym == 16 {
                        2
                    } else if sym == 17 {
                        3
                    } else {
                        7
                    };
                    if let Ok((r, p2)) = read_spec(d, p1, n) {
                        let v: u8 = if sym == 16 && lens.len() > 0 {
                            lens.last()
                        } else {
                            0u8
                        };
                        let base: int = if sym == 18 {
                            11
                        } else {
                            3
                        };
                        let l2 = fill_lens(lens, v, r + base, total);
                        lemma_bits_val_bound(d, p1, n);
                        assert forall|i: int| 0 <= i < l2.len() implies #[trigger] l2[i] <= 15 by {
                            if i < lens.len() {
                                assert(l2[i] == lens[i]);
                            }
                        }
                        if sym == 16 {
                            assert(l2 == fill_lens(lens, if lens.len() > 0 { lens.last() } else { 0u8 }, r + 3, total));
                        }
                        lemma_code_lengths_small(cl, d, p2, l2, total);
                    }
                }
            },
        }
    }
}

/// Reads the header of a dynamic block: the sizes of the two codes, the code-length code,
/// and the code lengths it encodes (with their run-length repeats).
pub fn dynamic_trees(bits: &mut BitReader) -> (r: Result<(HuffTree, HuffTree), ImageError>)
    requires
        old(bits).wf(),
    ensures
        final(bits).wf(),
        final(bits).data@ == old(bits).data@,
        match dynamic_spec(old(bits).data@, old(bits).pos()) {
            Ok((l, dd, q)) => r matches Ok((a, b)) && a.entries@ == l && b.entries@ == dd
                && final(bits).pos() == q,
            Err(m) => fails_with(r, m),
        },
{
    let ghost d = bits.data@;
    let ghost p = bits.pos();
    let hlit = match bits.read_bits(5) {
        Ok(v) => v as usize + 257,
        Err(e) => {
            return Err(e);
        },
    };
    let hdist = match bits.read_bits(5) {
        Ok(v) => v as usize + 1,
        Err(e) => {
            return Err(e);
        },
    };
    let hclen = match bits.read_bits(4) {
        Ok(v) => v as usize + 4,
        Err(e) => {
            return Err(e);
        },
    };
    let ghost q = bits.pos();
    proof {
        lemma_bits_val_bound(d, p, 5);
        lemma_bits_val_bound(d, p + 5, 5);
        lemma_bits_val_bound(d, p + 10, 4);
        vstd::arithmetic::power2::lemma2_to64();
    }
    let mut cl: Vec<u8> = vec![0u8; 19];
    let mut i: usize = 0;
    assert(cl@ =~= cl_lengths(d, q, 0));
    while i < hclen
        invariant
            bits.wf(),
            bits.data@ == d,
            d == old(bits).data@,
            p == old(bits).pos(),
            q == p + 14,
            hclen <= 19,
            hclen == bits_val(d, p + 10, 4) + 4,
            i <= hclen,
            bits.pos() == q + 3 * i,
            cl@ == cl_lengths(d, q, i as int),
            cl@.len() == 19,
        decreases hclen - i,
    {
        let v = match bits.read_bits(3) {
            Ok(v) => v,
            Err(e) => {
                return Err(e);
            },
        };
        proof {
            lemma_bits_val_bound(d, q + 3 * i, 3);
            vstd::arithmetic::power2::lemma2_to64();
            assert(CL_ORDER[i as int] < 19);
        }
        cl.set(CL_ORDER[i], v as u8);
        i = i + 1;
    }
    proof {
        lemma_cl_lengths_small(d, q, hclen as int);
    }
    let cl_tree = HuffTree::build(cl.as_slice());
    let total = hlit + hdist;
    let mut lens: Vec<u8> = Vec::new();
    let ghost target = code_lengths(cl_tree.entries@, d, bits.pos(), lens@, total as int);
    proof {
        assert(bits.pos() == q + 3 * hclen);
        assert(cl_tree.entries@ == huff_entries(cl_lengths(d, q, hclen as int), 19));
    }
    while lens.len() < total
        invariant
            bits.wf(),
            bits.data@ == d,
            d == old(bits).data@,
            p == old(bits).pos(),
            q == p + 14,
            p + 14 <= d.len() * 8,
            q + 3 * hclen <= d.len() * 8,
            hlit == bits_val(d, p, 5) + 257,
            hdist == bits_val(d, p + 5, 5) + 1,
            hclen == bits_val(d, p + 10, 4) + 4,
            total == hlit + hdist,
            cl_tree.entries@ == huff_entries(cl_lengths(d, q, hclen as int), 19),
            target == code_lengths(cl_tree.entries@, d, q + 3 * hclen, seq![], total as int),
            total <= 320,
            lens@.len() <= total,
            target == code_lengths(cl_tree.entries@, d, bits.pos(), lens@, total as int),
        decreases total - lens@.len(),
    {
        let ghost pos = bits.pos();
        let sym = match cl_tree.decode(bits) {
            Ok(s) => s,
            Err(e) => {
                return Err(e);
            },
        };
        if sym <= 15 {
            lens.push(sym as u8);
        } else if sym <= 18 {
            let (n, base): (usize, usize) = if sym == 16 {
                (2, 3)
            } else if sym == 17 {
                (3, 3)
            } else {
                (7, 11)
            };
            let ghost p1 = bits.pos();
            let rep = match bits.read_bits(n) {
                Ok(v) => v as usize + base,
                Err(e) => {
                    return Err(e);
                },
            };
            let v: u8 = if sym == 16 && lens.len() > 0 {
                lens[lens.len() - 1]
            } else {
                0
            };
            let ghost l0 = lens@;
            let mut k: usize = 0;
            while k < rep
                invariant
                    k <= rep,
                    l0.len() < total,
                    lens@ == fill_lens(l0, v, k as int, total as int),
                decreases rep - k,
            {
                if lens.len() < total {
                    lens.push(v);
                }
                k = k + 1;
                assert(lens@ =~= fill_lens(l0, v, k as int, total as int));
            }
            proof {
                if sym == 16 {
                    assert(v == if l0.len() > 0 { l0.last() } else { 0u8 });
                }
            }
        } else {
            return Err(error("Invalid code-length symbol"));
        }
    }
    proof {
        lemma_code_lengths_small(cl_tree.entries@, d, q + 3 * hclen, seq![], total as int);
    }
    let lit_lens = vstd::slice::slice_subrange(lens.as_slice(), 0, hlit);
    let dist_lens = vstd::slice::slice_subrange(lens.as_slice(), hlit, total);
    proof {
        assert(lit_lens@ =~= lens@.take(hlit as int));
        assert(dist_lens@ =~= lens@.skip(hlit as int));
    }
    let lit = HuffTree::build(lit_lens);
    let dist = HuffTree::build(dist_lens);
    Ok((lit, dist))
}

pub proof fn lemma_block_from_advances(
    lit: Seq<(u32, u8, u16)>,
    dist: Seq<(u32, u8, u16)>,
    d: Seq<u8>,
    p: int,
    out: Seq<u8>,
)
    ensures
        block_from(lit, dist, d, p, out) matches Ok((q, _)) ==> p < q <= d.len() * 8,
    decreases d.len() * 8 - p,
{
    lemma_decode_advances(lit, d, p);
    if let Ok((sym, p1)) = huff_decode(lit, d, p) {
        if sym <= 255 {
            lemma_block_from_advances(lit, dist, d, p1, out.push(sym as u8));
        } else if 257 <= sym <= 285 {
            let li = sym - 257;
            if let Ok((e, p2)) = read_spec(d, p1, LEN_EXTRA[li as int] as int) {
                lemma_decode_advances(dist, d, p2);
                if let Ok((di, p3)) = huff_decode(dist, d, p2) {
                    if di < 30 {
                        if let Ok((e2, p4)) = read_spec(d, p3, DIST_EXTRA[di as int] as int) {
                            let dst = DIST_BASE[di as int] as int + e2;
                            if dst <= out.len() {
                                let len = LEN_BASE[li as int] as int + e;
                                lemma_block_from_advances(lit, dist, d, p4, copy_back(out, dst, len));
                            }
                        }
                    }
                }
            }
        }
    }
}

/// Decoding a Huffman block only appends to the output it was given.
pub proof fn lemma_block_from_extends(
    lit: Seq<(u32, u8, u16)>,
    dist: Seq<(u32, u8, u16)>,
    d: Seq<u8>,
    p: int,
    out: Seq<u8>,
)
    ensures
        block_from(lit, dist, d, p, out) matches Ok((_, res)) ==> out.len() <= res.len() && res.subrange(
            0,
            out.len() as int,
        ) =~= out,
    decreases d.len() * 8 - p,
{
    lemma_decode_advances(lit, d, p);
    if let Ok((sym, p1)) = huff_decode(lit, d, p) {
        if sym <= 255 {
            lemma_block_from_extends(lit, dist, d, p1, out.push(sym as u8));
            if let Ok((_, res)) = block_from(lit, dist, d, p1, out.push(sym as u8)) {
                assert(res.subrange(0, out.len() as int) =~= res.subrange(0, out.len() + 1int).subrange(
                    0,
                    out.len() as int,
                ));
            }
        } else if 257 <= sym <= 285 {
            let li = sym - 257;
            if let Ok((e, p2)) = read_spec(d, p1, LEN_EXTRA[li as int] as int) {
                lemma_decode_advances(dist, d, p2);
                if let Ok((di, p3)) = huff_decode(dist, d, p2) {
                    if di < 30 {
                        if let Ok((e2, p4)) = read_spec(d, p3, DIST_EXTRA[di as int] as int) {
                            let dst = DIST_BASE[di as int] as int + e2;
                            if dst <= out.len() {
                                let len = LEN_BASE[li as int] as int + e;
                                let o2 = copy_back(out, dst, len);
                                lemma_block_from_extends(lit, dist, d, p4, o2);
                                if let Ok((_, res)) = block_from(lit, dist, d, p4, o2) {
                                    assert(res.subrange(0, out.len() as int) =~= res.subrange(
                                        0,
                                        o2.len() as int,
                                    ).subrange(0, out.len() as int));
                                }
                            }
                        }
                    }
                }
            }
        }
    }
}

/// A back-reference repeats: each byte it adds equals the byte `dst` places before it.
pub proof fn lemma_copy_back_repeats(out: Seq<u8>, dst: int, len: int)
    requires
        1 <= dst <= out.len(),
        0 <= len,
    ensures
        copy_back(out, dst, len).len() == out.len() + len,
        copy_back(out, dst, len).subrange(0, out.len() as int) =~= out,
        forall|j: int|
            out.len() <= j < out.len() + len ==> #[trigger] copy_back(out, dst, len)[j] == copy_back(
                out,
                dst,
                len,
            )[j - dst],
{
    let n = out.len() as int;
    let cb = copy_back(out, dst, len);
    assert forall|j: int| n <= j < n + len implies #[trigger] cb[j] == cb[j - dst] by {
        let x = j - n;
        assert(cb[j] == out[n - dst + x % dst]);
        if j - dst >= n {
            vstd::arithmetic::div_mod::lemma_mod_add_multiples_vanish(x - dst, dst);
            assert(cb[j - dst] == out[n - dst + (x - dst) % dst]);
        } else {
            vstd::arithmetic::div_mod::lemma_small_mod(x as nat, dst as nat);
        }
    }
}

pub proof fn lemma_code_lengths_advances(cl: Seq<(u32, u8, u16)>, d: Seq<u8>, p: int, lens: Seq<u8>, total: int)
    ensures
        code_lengths(cl, d, p, lens, total) matches Ok((_, q)) ==> p <= q,
    decreases d.len() * 8 - p,
{
    if lens.len() < total {
        lemma_decode_advances(cl, d, p);
        if let Ok((sym, p1)) = huff_decode(cl, d, p) {
            if sym <= 15 {
                lemma_code_lengths_advances(cl, d, p1, lens.push(sym as u8), total);
            } else if sym == 16 {
                if let Ok((r, p2)) = read_spec(d, p1, 2) {
                    lemma_code_lengths_advances(cl, d, p2, fill_lens(lens, if lens.len() > 0 { lens.last() } else { 0u8 }, r + 3, total), total);
                }
            } else if sym == 17 {
                if let Ok((r, p2)) = read_spec(d, p1, 3) {
                    lemma_code_lengths_advances(cl, d, p2, fill_lens(lens, 0, r + 3, total), total);
                }
            } else if sym == 18 {
                if let Ok((r, p2)) = read_spec(d, p1, 7) {
                    lemma_code_lengths_advances(cl, d, p2, fill_lens(lens, 0, r + 11, total), total);
                }
            }
        }
    }
}

pub proof fn lemma_dynamic_advances(d: Seq<u8>, p: int)
    requires
        0 <= p,
    ensures
        dynamic_spec(d, p) matches Ok((_, _, q)) ==> p < q,
{
    if p + 14 <= d.len() * 8 {
        let hlit = bits_val(d, p, 5) + 257;
        let hdist = bits_val(d, p + 5, 5) + 1;
        let hclen = bits_val(d, p + 10, 4) + 4;
        let q = p + 14;
        let cl = huff_entries(cl_lengths(d, q, hclen), 19);
        lemma_code_lengths_advances(cl, d, q + 3 * hclen, seq![], hlit + hdist);
        lemma_bits_val_bound(d, p + 10, 4);
    }
}

/// The bytes of a stored block: `n` bytes from bit `p` on.
pub open spec fn stored_bytes(d: Seq<u8>, p: int, n: int) -> Seq<u8> {
    Seq::new(n as nat, |k: int| bits_val(d, p + 8 * k, 8) as u8)
}

/// `p` rounded up to a byte boundary.
pub open spec fn aligned(p: int) -> int {
    if p % 8 == 0 {
        p
    } else {
        p - p % 8 + 8
    }
}

/// One block at bit `q` (after its 3-bit header) of type `btype`: the bit after it and the
/// output so far, or the error met.
pub open spec fn block_body(d: Seq<u8>, q: int, btype: int, out: Seq<u8>) -> Result<(int, Seq<u8>), Seq<char>> {
    if btype == 0 {
        let a = aligned(q);
        if a + 32 > d.len() * 8 {
            Err(end_of_stream())
        } else {
            let len = bits_val(d, a, 8) + 256 * bits_val(d, a + 8, 8);
            let nlen = bits_val(d, a + 16, 8) + 256 * bits_val(d, a + 24, 8);
            if (len as u16 ^ nlen as u16) != 0xFFFFu16 {
                Err("DEFLATE stored block LEN/NLEN mismatch"@)
            } else if a + 32 + 8 * len > d.len() * 8 {
                Err(end_of_stream())
            } else {
                Ok((a + 32 + 8 * len, out + stored_bytes(d, a + 32, len)))
            }
        }
    } else if btype == 1 {
        block_from(
            huff_entries(fixed_lit_lengths(), 288),
            huff_entries(fixed_dist_lengths(), 32),
            d,
            q,
            out,
        )
    } else if btype == 2 {
        match dynamic_spec(d, q) {
            Err(m) => Err(m),
            Ok((l, dd, q2)) => block_from(l, dd, d, q2, out),
        }
    } else {
        Err("DEFLATE invalid block type"@)
    }
}

pub proof fn lemma_block_body_advances(d: Seq<u8>, q: int, btype: int, out: Seq<u8>)
    requires
        0 <= q,
    ensures
        block_body(d, q, btype, out) matches Ok((r, _)) ==> q <= r <= d.len() * 8,
{
    if btype == 0 {
        let a = aligned(q);
        if a + 32 <= d.len() * 8 {
            lemma_bits_val_bound(d, a, 8);
            lemma_bits_val_bound(d, a + 8, 8);
        }
    } else if btype == 1 {
        lemma_block_from_advances(
            huff_entries(fixed_lit_lengths(), 288),
            huff_entries(fixed_dist_lengths(), 32),
            d,
            q,
            out,
        );
    } else if btype == 2 {
        lemma_dynamic_advances(d, q);
        if let Ok((l, dd, q2)) = dynamic_spec(d, q) {
            lemma_block_from_advances(l, dd, d, q2, out);
        }
    }
}

/// Inflating the blocks from bit `p` on, with `out` produced so far.
pub open spec fn blocks_from(d: Seq<u8>, p: int, out: Seq<u8>) -> Result<Seq<u8>, Seq<char>>
    decreases d.len() * 8 - p,
{
    if p < 0 || p + 3 > d.len() * 8 {
        Err(end_of_stream())
    } else {
        let bfinal = bits_val(d, p, 1);
        let btype = bits_val(d, p + 1, 2);
        match block_body(d, p + 3, btype, out) {
            Err(m) => Err(m),
            Ok((q, o)) => {
                proof {
                    lemma_block_body_advances(d, p + 3, btype, out);
                }
                if bfinal == 1 {
                    Ok(o)
                } else {
                    blocks_from(d, q, o)
                }
            },
        }
    }
}

/// The bytes a raw DEFLATE stream inflates to, or the error met.
pub open spec fn inflate_spec(d: Seq<u8>) -> Result<Seq<u8>, Seq<char>> {
    blocks_from(d, 0, seq![])
}

/// Inflates one block of type `btype` whose header is read.
fn inflate_one_block(bits: &mut BitReader, btype: u32, output: &mut Vec<u8>) -> (r: Result<(), ImageError>)
    requires
        old(bits).wf(),
    ensures
        final(bits).wf(),
        final(bits).data@ == old(bits).data@,
        match block_body(old(bits).data@, old(bits).pos(), btype as int, old(output)@) {
            Ok((q, o)) => r is Ok && final(bits).pos() == q && final(output)@ == o,
            Err(m) => fails_with(r, m),
        },
{
    let ghost d = bits.data@;
    let ghost o0 = output@;
    if btype == 0 {
        bits.byte_align();
        let ghost a = bits.pos();
        let len = match bits.read_u16_le() {
            Ok(v) => v,
            Err(e) => {
                return Err(e);
            },
        };
        let nlen = match bits.read_u16_le() {
            Ok(v) => v,
            Err(e) => {
                return Err(e);
            },
        };
        if (len ^ nlen) != 0xFFFF {
            return Err(error("DEFLATE stored block LEN/NLEN mismatch"));
        }
        let mut k: u16 = 0;
        while k < len
            invariant
                bits.wf(),
                bits.data@ == d,
                d == old(bits).data@,
                o0 == old(output)@,
                a == aligned(old(bits).pos()),
                len as int == bits_val(d, a, 8) + 256 * bits_val(d, a + 8, 8),
                nlen as int == bits_val(d, a + 16, 8) + 256 * bits_val(d, a + 24, 8),
                (len ^ nlen) == 0xFFFFu16,
                a + 32 <= d.len() * 8,
                btype == 0,
                k <= len,
                bits.pos() == a + 32 + 8 * k,
                output@ == o0 + stored_bytes(d, a + 32, k as int),
            decreases len - k,
        {
            let b = match bits.read_byte() {
                Ok(v) => v,
                Err(e) => {
                    return Err(e);
                },
            };
            output.push(b);
            k = k + 1;
            assert(output@ =~= o0 + stored_bytes(d, a + 32, k as int));
        }
        Ok(())
    } else if btype == 1 {
        let (lit, dist) = fixed_trees();
        inflate_block(bits, &lit, &dist, output)
    } else if btype == 2 {
        let (lit, dist) = match dynamic_trees(bits) {
            Ok(t) => t,
            Err(e) => {
                return Err(e);
            },
        };
        inflate_block(bits, &lit, &dist, output)
    } else {
        Err(error("DEFLATE invalid block type"))
    }
}

/// Inflates a raw DEFLATE stream.
#[verifier::rlimit(30)]
pub fn inflate_deflate(data: &[u8]) -> (r: Result<Vec<u8>, ImageError>)
    ensures
        match inflate_spec(data@) {
            Ok(o) => r matches Ok(v) && v@ == o,
            Err(m) => fails_with(r, m),
        },
{
    let mut bits = BitReader::new(data);
    let ghost d = data@;
    let mut output: Vec<u8> = Vec::new();
    let ghost target = inflate_spec(d);
    loop
        invariant
            bits.wf(),
            bits.data@ == d,
            d == data@,
            target == inflate_spec(data@),
            target == blocks_from(d, bits.pos(), output@),
        decreases d.len() * 8 - bits.pos(),
    {
        let ghost p = bits.pos();
        let bfinal = match bits.read_bits(1) {
            Ok(v) => v,
            Err(e) => {
                return Err(e);
            },
        };
        let btype = match bits.read_bits(2) {
            Ok(v) => v,
            Err(e) => {
                return Err(e);
            },
        };
        proof {
            lemma_block_body_advances(d, p + 3, btype as int, output@);
        }
        match inflate_one_block(&mut bits, btype, &mut output) {
            Ok(()) => {},
            Err(e) => {
                return Err(e);
            },
        }
        if bfinal == 1 {
            return Ok(output);
        }
    }
}

/// The bytes a zlib stream (2-byte header, DEFLATE data, 4-byte checksum) inflates to; the
/// header and checksum are not checked.
pub open spec fn zlib_spec(d: Seq<u8>) -> Result<Seq<u8>, Seq<char>> {
    if d.len() < 6 {
        Err("ZLIB data too short"@)
    } else {
        inflate_spec(d.subrange(2, d.len() - 4))
    }
}

pub fn inflate_zlib(data: &[u8]) -> (r: Result<Vec<u8>, ImageError>)
    ensures
        match zlib_spec(data@) {
            Ok(o) => r matches Ok(v) && v@ == o,
            Err(m) => fails_with(r, m),
        },
{
    if data.len() < 6 {
        return Err(error("ZLIB data too short"));
    }
    let inner = vstd::slice::slice_subrange(data, 2, data.len() - 4);
    inflate_deflate(inner)
}

} // verus!
