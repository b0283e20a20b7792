//! JPEG entropy coding: Huffman tables built from a DHT segment (ISO/IEC 10918-1, Annex C),
//! and the bit reader over scan data that drops stuffed zero bytes and restart markers and
//! stops at any other marker.
//!
//! The decoders' steps are stated as functions of their state. A step either succeeds, fails
//! with an error message, or would crash the decoder (`Step::Crash`: an arithmetic overflow,
//! an index out of range or a shift past the word size); callers must avoid the last.
use vstd::prelude::*;
use super::ImageError;
use crate::text::{string_of, append_str};

verus! {

/// The outcome of a decoding step.
pub enum Step<T> {
    Done(T),
    Fail(Seq<char>),
    Crash,
}

/// Whether an executed step agrees with its spec: `None` for a crash, the same error, or
/// (for success) a value `ok` accepts.
pub open spec fn agrees<T, U>(r: Option<Result<T, ImageError>>, s: Step<U>, ok: spec_fn(T, U) -> bool) -> bool {
    match s {
        Step::Done(u) => r matches Some(Ok(t)) && ok(t, u),
        Step::Fail(m) => r matches Some(Err(e)) && e.0@ == m,
        Step::Crash => r is None,
    }
}

// ─── Huffman tables ─────────────────────────────────────────

/// The number of codes of length at most `l` (the first `l` counts summed).
pub open spec fn cum(lengths: Seq<u8>, l: int) -> int
    decreases l,
{
    if l <= 0 {
        0
    } else {
        cum(lengths, l - 1) + lengths[l - 1] as int
    }
}

/// The length of code `k`: codes are listed by length, shortest first.
pub open spec fn size_of(lengths: Seq<u8>, k: int) -> int {
    choose|l: int| 1 <= l <= 16 && cum(lengths, l - 1) <= k < #[trigger] cum(lengths, l)
}

/// The code of symbol `k` (Annex C): one more than the previous code, shifted left by the
/// growth in length; codes are 16-bit, so the shift drops high bits.
pub open spec fn code_of(lengths: Seq<u8>, k: int) -> int
    decreases k,
{
    if k <= 0 {
        0
    } else {
        let c = code_of(lengths, k - 1) + 1;
        let grow = size_of(lengths, k) - size_of(lengths, k - 1);
        if grow <= 0 {
            c
        } else {
            (c * vstd::arithmetic::power2::pow2(grow as nat)) % 0x10000
        }
    }
}

/// Whether building the table crashes: more than 256 symbols, or a code reaching 0xFFFF
/// (the increment after it overflows).
pub open spec fn build_crashes(lengths: Seq<u8>) -> bool {
    cum(lengths, 16) > 256 || exists|k: int| 0 <= k < cum(lengths, 16) && #[trigger] code_of(lengths, k) == 0xFFFF
}

/// `maxcode[l]`: the last code of length `l`, or -1 when there is none.
pub open spec fn maxcode_of(lengths: Seq<u8>, l: int) -> int {
    if l == 17 {
        0x3FFFF
    } else if 1 <= l <= 16 && lengths[l - 1] != 0 {
        code_of(lengths, cum(lengths, l) - 1)
    } else {
        -1
    }
}

/// `delta[l]`: the index of the first symbol of length `l` less its code.
pub open spec fn delta_of(lengths: Seq<u8>, l: int) -> int {
    if 1 <= l <= 16 && lengths[l - 1] != 0 {
        cum(lengths, l - 1) - code_of(lengths, cum(lengths, l - 1))
    } else {
        0
    }
}

/// A JPEG Huffman table: per code length, the last code and the offset from code to symbol
/// index, and the symbols.
pub struct HuffTable {
    pub delta: Vec<i32>,
    pub maxcode: Vec<i32>,
    pub huffval: Vec<u8>,
}

/// What a table holds, as sequences.
#[verifier::ext_equal]
pub struct TableView {
    pub delta: Seq<i32>,
    pub maxcode: Seq<i32>,
    pub huffval: Seq<u8>,
}

impl View for HuffTable {
    type V = TableView;

    open spec fn view(&self) -> TableView {
        TableView { delta: self.delta@, maxcode: self.maxcode@, huffval: self.huffval@ }
    }
}

/// A table with no symbols.
pub open spec fn empty_table() -> TableView {
    TableView { delta: Seq::new(17, |l: int| 0i32), maxcode: Seq::new(18, |l: int| 0i32), huffval: Seq::empty() }
}

/// The table of a DHT segment with code counts `lengths` and symbols `values`.
pub open spec fn table_of(lengths: Seq<u8>, values: Seq<u8>) -> TableView {
    TableView {
        delta: Seq::new(17, |l: int| delta_of(lengths, l) as i32),
        maxcode: Seq::new(18, |l: int| maxcode_of(lengths, l) as i32),
        huffval: values,
    }
}

impl HuffTable {
    /// The table `build` makes from `lengths` and `values`.
    pub open spec fn built_from(&self, lengths: Seq<u8>, values: Seq<u8>) -> bool {
        &&& self.huffval@ == values
        &&& self.delta@.len() == 17
        &&& self.maxcode@.len() == 18
        &&& forall|l: int| 0 <= l < 17 ==> #[trigger] self.delta@[l] as int == delta_of(lengths, l)
        &&& forall|l: int| 0 <= l < 18 ==> #[trigger] self.maxcode@[l] as int == maxcode_of(lengths, l)
    }

    /// A table without symbols.
    pub fn empty() -> (t: Self)
        ensures
            t@ == empty_table(),
            t.delta@.len() == 17,
            t.maxcode@.len() == 18,
    {
        let t = HuffTable { delta: vec![0i32; 17], maxcode: vec![0i32; 18], huffval: Vec::new() };
        assert(t@ =~= empty_table());
        t
    }

    pub fn is_empty(&self) -> (b: bool)
        ensures
            b == (self.huffval@.len() == 0),
    {
        self.huffval.len() == 0
    }
}

proof fn lemma_cum_mono(lengths: Seq<u8>, a: int, b: int)
    requires
        0 <= a <= b,
    ensures
        cum(lengths, a) <= cum(lengths, b),
    decreases b - a,
{
    if a < b {
        lemma_cum_mono(lengths, a, b - 1);
    }
}

/// Code `k` lies in the run of length `l`.
proof fn lemma_size_of(lengths: Seq<u8>, k: int, l: int)
    requires
        1 <= l <= 16,
        cum(lengths, l - 1) <= k < cum(lengths, l),
    ensures
        size_of(lengths, k) == l,
{
    let m = size_of(lengths, k);
    assert(1 <= m <= 16 && cum(lengths, m - 1) <= k < cum(lengths, m));
    if m < l {
        lemma_cum_mono(lengths, m, l - 1);
    } else if m > l {
        lemma_cum_mono(lengths, l, m - 1);
    }
}

/// `((c as u16) << 1)` repeated `n` times: `c * 2^n` modulo 2^16.
fn shift_code(c: u16, n: u8) -> (r: u16)
    ensures
        r as int == (c as int * vstd::arithmetic::power2::pow2(n as nat)) % 0x10000,
{
    let mut r = c;
    let mut t: u8 = 0;
    proof {
        vstd::arithmetic::power2::lemma2_to64();
        vstd::arithmetic::div_mod::lemma_small_mod(c as nat, 0x10000);
    }
    while t < n
        invariant
            t <= n,
            r as int == (c as int * vstd::arithmetic::power2::pow2(t as nat)) % 0x10000,
        decreases n - t,
    {
        proof {
            let p = vstd::arithmetic::power2::pow2(t as nat);
            vstd::arithmetic::power2::lemma_pow2_unfold((t + 1) as nat);
            vstd::arithmetic::div_mod::lemma_mul_mod_noop_left(c as int * p, 2, 0x10000);
            assert(c as int * p * 2 == c as int * (2 * p)) by (nonlinear_arith);
        }
        r = ((r as u32 * 2) % 0x10000) as u16;
        t = t + 1;
    }
    r
}

impl HuffTable {
    /// Builds the table of a DHT segment: `lengths[i]` codes of length `i + 1`, for the
    /// symbols `values` in order; `None` where building would crash (see `build_crashes`).
    pub fn build(lengths: &[u8; 16], values: &[u8]) -> (r: Option<Self>)
        requires
            values@.len() == cum(lengths@, 16),
        ensures
            r is None <==> build_crashes(lengths@),
            r matches Some(t) ==> t.built_from(lengths@, values@) && t@ == table_of(lengths@, values@),
    {
        let ghost ls = lengths@;
        let mut huffval: Vec<u8> = Vec::new();
        let mut i: usize = 0;
        while i < values.len()
            invariant
                i <= values@.len(),
                huffval@ == values@.take(i as int),
            decreases values.len() - i,
        {
            huffval.push(values[i]);
            i = i + 1;
            assert(huffval@ =~= values@.take(i as int));
        }
        assert(huffval@ =~= values@);
        let total = values.len();
        if total > 256 {
            return None;
        }
        // The length of each code, in order.
        let mut huffsize: Vec<u8> = Vec::new();
        let mut l: usize = 0;
        while l < 16
            invariant
                ls == lengths@,
                l <= 16,
                total == cum(ls, 16),
                huffsize@.len() == cum(ls, l as int),
                forall|k: int| 0 <= k < huffsize@.len() ==> #[trigger] huffsize@[k] as int == size_of(ls, k),
            decreases 16 - l,
        {
            let count = lengths[l];
            let mut c: u8 = 0;
            let ghost start = huffsize@.len();
            while c < count
                invariant
                    ls == lengths@,
                    l < 16,
                    count == ls[l as int],
                    c <= count,
                    start == cum(ls, l as int),
                    huffsize@.len() == start + c,
                    forall|k: int| 0 <= k < huffsize@.len() ==> #[trigger] huffsize@[k] as int == size_of(ls, k),
                decreases count - c,
            {
                proof {
                    lemma_size_of(ls, start + c, l + 1);
                }
                huffsize.push((l + 1) as u8);
                c = c + 1;
            }
            l = l + 1;
        }
        // The codes.
        let mut huffcode: Vec<u16> = Vec::new();
        let mut code: u16 = 0;
        let mut k: usize = 0;
        while k < total
            invariant
                ls == lengths@,
                total == cum(ls, 16),
                total <= 256,
                huffsize@.len() == total,
                forall|q: int| 0 <= q < total ==> #[trigger] huffsize@[q] as int == size_of(ls, q),
                k <= total,
                huffcode@.len() == k,
                forall|q: int| 0 <= q < k ==> #[trigger] huffcode@[q] as int == code_of(ls, q),
                forall|q: int| 0 <= q < k ==> code_of(ls, q) != 0xFFFF,
                k > 0 ==> code as int == code_of(ls, k - 1) + 1,
                k == 0 ==> code == 0,
            decreases total - k,
        {
            if k > 0 {
                proof {
                    lemma_size_bounds(ls, k - 1);
                    lemma_size_bounds(ls, k as int);
                }
                let grow = huffsize[k] - huffsize[k - 1];
                if grow > 0 {
                    code = shift_code(code, grow);
                }
            }
            assert(code as int == code_of(ls, k as int));
            if code == 0xFFFF {
                proof {
                    assert(code_of(ls, k as int) == 0xFFFF);
                }
                return None;
            }
            huffcode.push(code);
            code = code + 1;
            k = k + 1;
        }
        proof {
            assert forall|q: int| 0 <= q < cum(ls, 16) implies #[trigger] code_of(ls, q) != 0xFFFF by {
                assert(huffcode@[q] as int == code_of(ls, q));
            }
        }
        // The lookup arrays.
        let mut maxcode: Vec<i32> = vec![-1i32; 18];
        let mut delta: Vec<i32> = vec![0i32; 17];
        let mut j: usize = 0;
        let mut b: usize = 1;
        while b <= 16
            invariant
                ls == lengths@,
                total == cum(ls, 16),
                total <= 256,
                huffcode@.len() == total,
                forall|q: int| 0 <= q < total ==> #[trigger] huffcode@[q] as int == code_of(ls, q),
                1 <= b <= 17,
                j == cum(ls, b - 1),
                maxcode@.len() == 18,
                delta@.len() == 17,
                forall|q: int| 0 <= q < b ==> #[trigger] maxcode@[q] as int == maxcode_of(ls, q),
                forall|q: int| b <= q < 18 ==> #[trigger] maxcode@[q] == -1,
                forall|q: int| 0 <= q < b ==> #[trigger] delta@[q] as int == delta_of(ls, q),
                forall|q: int| b <= q < 17 ==> #[trigger] delta@[q] == 0,
            decreases 17 - b,
        {
            proof {
                lemma_cum_mono(ls, b as int, 16);
                lemma_cum_mono(ls, b - 1, b as int);
            }
            if lengths[b - 1] != 0 {
                delta.set(b, j as i32 - huffcode[j] as i32);
                j = j + lengths[b - 1] as usize;
                maxcode.set(b, huffcode[j - 1] as i32);
            } else {
                maxcode.set(b, -1);
            }
            b = b + 1;
        }
        maxcode.set(17, 0x3FFFF);
        let t = HuffTable { delta, maxcode, huffval };
        assert(t@ =~= table_of(ls, values@)) by {
            assert(t@.delta =~= table_of(ls, values@).delta);
            assert(t@.maxcode =~= table_of(ls, values@).maxcode);
        }
        Some(t)
    }
}

proof fn lemma_size_bounds(lengths: Seq<u8>, k: int)
    requires
        0 <= k < cum(lengths, 16),
    ensures
        1 <= size_of(lengths, k) <= 16,
        k > 0 ==> size_of(lengths, k - 1) <= size_of(lengths, k),
{
    let l = choose_run(lengths, k, 16);
    lemma_size_of(lengths, k, l);
    if k > 0 {
        let l0 = choose_run(lengths, k - 1, 16);
        lemma_size_of(lengths, k - 1, l0);
        if l0 > l {
            lemma_cum_mono(lengths, l, l0 - 1);
        }
    }
}

/// The run of lengths (among the first `n`) that code `k` falls in.
proof fn choose_run(lengths: Seq<u8>, k: int, n: int) -> (l: int)
    requires
        0 <= k < cum(lengths, n),
        1 <= n <= 16,
    ensures
        1 <= l <= n,
        cum(lengths, l - 1) <= k < cum(lengths, l),
    decreases n,
{
    if n > 1 && k < cum(lengths, n - 1) {
        choose_run(lengths, k, n - 1)
    } else {
        if n == 1 {
            assert(cum(lengths, 0) == 0);
        }
        n
    }
}

// ─── Scan bits ──────────────────────────────────────────────

/// The bit reader's state: the next byte, and a buffer whose low `bits_in` bits are the next
/// bits of the scan, most significant first.
pub struct ScanState {
    pub pos: int,
    pub buf: u32,
    pub bits_in: int,
}

/// Loading bytes while the buffer holds at most 24 bits: a 0xFF byte followed by 0x00 loads
/// 0xFF (the zero is stuffing), 0xFF followed by a restart marker (0xD0..0xD7) is dropped,
/// and 0xFF followed by any other byte is a marker, where loading stops for good.
pub open spec fn fill_spec(d: Seq<u8>, st: ScanState) -> ScanState
    decreases d.len() - st.pos,
{
    if st.bits_in > 24 || st.pos < 0 || st.pos >= d.len() {
        st
    } else {
        let b = d[st.pos];
        let p1 = st.pos + 1;
        let loaded = |p: int| ScanState { pos: p, buf: (st.buf << 8u32) | (b as u32), bits_in: st.bits_in + 8 };
        if b == 0xFF && p1 < d.len() {
            let next = d[p1];
            if next == 0 {
                fill_spec(d, loaded(p1 + 1))
            } else if 0xD0 <= next <= 0xD7 {
                fill_spec(d, ScanState { pos: p1 + 1, buf: st.buf, bits_in: st.bits_in })
            } else {
                st
            }
        } else {
            fill_spec(d, loaded(p1))
        }
    }
}

pub open spec fn need_bits_msg(n: int, have: int) -> Seq<char> {
    "JPEG scan: need "@ + crate::text::signed_decimal(n) + " bits, have "@
        + crate::text::signed_decimal(have)
}

/// Reading `n` bits: their value, most significant first, and the state after.
pub open spec fn get_bits_spec(d: Seq<u8>, st: ScanState, n: int) -> Step<(int, ScanState)> {
    if n == 0 {
        Step::Done((0, st))
    } else {
        let s1 = if st.bits_in < n {
            fill_spec(d, st)
        } else {
            st
        };
        if s1.bits_in < n {
            Step::Fail(need_bits_msg(n, s1.bits_in))
        } else if n >= 32 {
            Step::Crash
        } else {
            let rest = s1.bits_in - n;
            Step::Done(
                (
                    ((s1.buf >> (rest as u32)) & (((1u32 << (n as u32)) - 1) as u32)) as int,
                    ScanState { pos: s1.pos, buf: s1.buf, bits_in: rest },
                ),
            )
        }
    }
}

/// Decoding a code after `i - 1` bits that read `code`: one more bit, then a lookup by
/// `maxcode` and `delta`; at most 16 bits.
pub open spec fn huff_loop(
    d: Seq<u8>,
    st: ScanState,
    delta: Seq<i32>,
    maxcode: Seq<i32>,
    vals: Seq<u8>,
    code: int,
    i: int,
) -> Step<(u8, ScanState)>
    decreases 17 - i,
{
    if i > 16 {
        Step::Fail("JPEG: Bad Huffman code"@)
    } else {
        let s1 = if st.bits_in < 1 {
            fill_spec(d, st)
        } else {
            st
        };
        let b = s1.bits_in - 1;
        if b < 0 {
            Step::Crash
        } else {
            let code2 = code * 2 + ((s1.buf >> (b as u32)) & 1u32) as int;
            let s2 = ScanState { pos: s1.pos, buf: s1.buf, bits_in: b };
            if code2 <= maxcode[i] {
                let idx = code2 + delta[i];
                if 0 <= idx < vals.len() {
                    Step::Done((vals[idx], s2))
                } else {
                    Step::Fail("JPEG: Huffman value index out of range"@)
                }
            } else {
                huff_loop(d, s2, delta, maxcode, vals, code2, i + 1)
            }
        }
    }
}

/// Decoding one symbol with table `t`.
pub open spec fn huff_spec(d: Seq<u8>, st: ScanState, t: TableView) -> Step<(u8, ScanState)> {
    if t.huffval.len() == 0 {
        Step::Fail("JPEG: Huffman table not defined"@)
    } else {
        let s1 = if st.bits_in < 16 {
            fill_spec(d, st)
        } else {
            st
        };
        huff_loop(d, s1, t.delta, t.maxcode, t.huffval, 0, 1)
    }
}

/// The signed value of a `t`-bit magnitude category (F.2.2.1): values below `2^(t-1)` are
/// negative. `None` where the computation overflows `i32` (`t` of 31 with a small `v`, or a
/// shift by 32 or more).
pub open spec fn extend_spec(v: int, t: int) -> Option<int> {
    if t == 0 {
        Some(0)
    } else if t > 32 {
        None
    } else if t == 32 || v >= vstd::arithmetic::power2::pow2((t - 1) as nat) {
        Some(v)
    } else {
        let r1 = v - (if t == 31 { -0x8000_0000 } else { vstd::arithmetic::power2::pow2(t as nat) as int });
        if r1 < -0x8000_0000 || r1 > 0x7FFF_FFFF || r1 + 1 > 0x7FFF_FFFF {
            None
        } else {
            Some(r1 + 1)
        }
    }
}

/// The bit reader over the scan data.
pub struct ScanBits<'a> {
    pub data: &'a [u8],
    pub pos: usize,
    pub buf: u32,
    pub bits_in: i32,
}

impl<'a> ScanBits<'a> {
    pub open spec fn state(&self) -> ScanState {
        ScanState { pos: self.pos as int, buf: self.buf, bits_in: self.bits_in as int }
    }

    pub open spec fn wf(&self) -> bool {
        &&& self.pos <= self.data@.len()
        &&& 0 <= self.bits_in <= 32
    }

    pub fn new(data: &'a [u8]) -> (r: Self)
        ensures
            r.wf(),
            r.data@ == data@,
            r.state() == (ScanState { pos: 0, buf: 0, bits_in: 0 }),
    {
        ScanBits { data, pos: 0, buf: 0, bits_in: 0 }
    }

    pub fn fill(&mut self)
        requires
            old(self).wf(),
        ensures
            final(self).wf(),
            final(self).data@ == old(self).data@,
            final(self).state() == fill_spec(old(self).data@, old(self).state()),
    {
        let ghost d = self.data@;
        let ghost target = fill_spec(d, self.state());
        while self.bits_in <= 24
            invariant
                self.wf(),
                self.data@ == d,
                target == fill_spec(d, self.state()),
            ensures
                self.wf(),
                self.data@ == d,
                self.state() == target,
            decreases d.len() - self.pos,
        {
            if self.pos >= self.data.len() {
                break;
            }
            let b = self.data[self.pos];
            self.pos = self.pos + 1;
            if b == 0xFF {
                if self.pos < self.data.len() {
                    let next = self.data[self.pos];
                    if next == 0x00 {
                        self.pos = self.pos + 1;
                    } else if next >= 0xD0 && next <= 0xD7 {
                        self.pos = self.pos + 1;
                        continue;
                    } else {
                        self.pos = self.pos - 1;
                        break;
                    }
                }
            }
            self.buf = (self.buf << 8) | b as u32;
            self.bits_in = self.bits_in + 8;
        }
    }

    /// The next `n` bits as a number; `None` where the shift would overflow (`n` of 32).
    pub fn get_bits(&mut self, n: i32) -> (r: Option<Result<i32, ImageError>>)
        requires
            old(self).wf(),
            0 <= n,
        ensures
            final(self).wf(),
            final(self).data@ == old(self).data@,
            agrees(
                r,
                get_bits_spec(old(self).data@, old(self).state(), n as int),
                |v: i32, out: (int, ScanState)| v as int == out.0,
            ),
            get_bits_spec(old(self).data@, old(self).state(), n as int) matches Step::Done(out)
                ==> final(self).state() == out.1,
    {
        if n == 0 {
            return Some(Ok(0));
        }
        if self.bits_in < n {
            self.fill();
        }
        if self.bits_in < n {
            let mut msg = string_of("JPEG scan: need ");
            crate::text::append_signed_decimal(&mut msg, n);
            append_str(&mut msg, " bits, have ");
            crate::text::append_signed_decimal(&mut msg, self.bits_in);
            return Some(Err(ImageError(msg)));
        }
        if n >= 32 {
            return None;
        }
        self.bits_in = self.bits_in - n;
        let nn = n as u32;
        proof {
            assert(1u32 << nn >= 1u32) by (bit_vector)
                requires
                    nn < 32,
            ;
        }
        let mask: u32 = (1u32 << nn) - 1;
        let v = (self.buf >> (self.bits_in as u32)) & mask;
        proof {
            let rest = self.bits_in as u32;
            let bb = self.buf;
            assert((bb >> rest) & mask <= 0x7FFF_FFFF) by (bit_vector)
                requires
                    nn < 32,
                    mask == ((1u32 << nn) - 1) as u32,
            ;
        }
        Some(Ok(v as i32))
    }

    /// The signed value of the `t`-bit category value `v`; `None` where it overflows.
    pub fn extend(v: i32, t: u8) -> (r: Option<i32>)
        ensures
            r matches Some(x) ==> extend_spec(v as int, t as int) == Some(x as int),
            r is None <==> extend_spec(v as int, t as int) is None,
    {
        if t == 0 {
            return Some(0);
        }
        if t > 32 {
            return None;
        }
        proof {
            vstd::arithmetic::power2::lemma2_to64();
        }
        if t == 32 {
            return Some(v);
        }
        let tt: u64 = t as u64;
        proof {
            vstd::bits::lemma_u64_shl_is_mul(1, (tt - 1) as u64);
            vstd::bits::lemma_u64_shl_is_mul(1, tt);
        }
        let half: i64 = (1u64 << (tt - 1)) as i64;
        let full: i64 = if t == 31 { -0x8000_0000i64 } else { (1u64 << tt) as i64 };
        if (v as i64) >= half {
            return Some(v);
        }
        let r1: i64 = v as i64 - full;
        if r1 < -0x8000_0000 || r1 > 0x7FFF_FFFF || r1 + 1 > 0x7FFF_FFFF {
            return None;
        }
        Some((r1 + 1) as i32)
    }

    /// Decodes one symbol; `None` where the scan runs out inside a code (the bit count goes
    /// negative and the shift overflows).
    pub fn huff_decode(&mut self, table: &HuffTable) -> (r: Option<Result<u8, ImageError>>)
        requires
            old(self).wf(),
            table.delta@.len() == 17,
            table.maxcode@.len() == 18,
        ensures
            final(self).wf(),
            final(self).data@ == old(self).data@,
            agrees(r, huff_spec(old(self).data@, old(self).state(), table@), |v: u8, out: (u8, ScanState)| v == out.0),
            huff_spec(old(self).data@, old(self).state(), table@) matches Step::Done(out)
                ==> final(self).state() == out.1,
    {
        if table.is_empty() {
            return Some(Err(ImageError(string_of("JPEG: Huffman table not defined"))));
        }
        if self.bits_in < 16 {
            self.fill();
        }
        let ghost d = self.data@;
        let ghost target = huff_spec(d, old(self).state(), table@);
        let mut code: i32 = 0;
        let mut i: i32 = 0;
        proof {
            vstd::arithmetic::power2::lemma2_to64();
        }
        loop
            invariant
                self.wf(),
                self.data@ == d,
                d == old(self).data@,
                table.delta@.len() == 17,
                table.maxcode@.len() == 18,
                table.huffval@.len() > 0,
                0 <= i <= 16,
                0 <= code < vstd::arithmetic::power2::pow2(i as nat),
                target == huff_spec(old(self).data@, old(self).state(), table@),
                target == huff_loop(d, self.state(), table.delta@, table.maxcode@, table.huffval@, code as int, i + 1),
            decreases 16 - i,
        {
            proof {
                vstd::arithmetic::power2::lemma2_to64();
                vstd::arithmetic::power2::lemma_pow2_unfold((i + 1) as nat);
                if i < 16 {
                    vstd::arithmetic::power2::lemma_pow2_strictly_increases(i as nat, 16);
                }
            }
            i = i + 1;
            if i > 16 {
                return Some(Err(ImageError(string_of("JPEG: Bad Huffman code"))));
            }
            if self.bits_in < 1 {
                self.fill();
            }
            if self.bits_in < 1 {
                return None;
            }
            self.bits_in = self.bits_in - 1;
            let bit = (self.buf >> (self.bits_in as u32)) & 1;
            proof {
                let bb = self.buf;
                let sh = self.bits_in as u32;
                assert((bb >> sh) & 1u32 <= 1u32) by (bit_vector);
            }
            let bi: i32 = bit as i32;
            let c0 = code;
            proof {
                assert(c0 < 0x10000) by {
                    vstd::arithmetic::power2::lemma_pow2_strictly_increases((i - 1) as nat, 16);
                }
            }
            code = (code << 1) | bi;
            proof {
                assert(code == c0 * 2 + bi) by (bit_vector)
                    requires
                        0 <= c0 < 0x10000,
                        0 <= bi <= 1,
                        code == (c0 << 1) | bi,
                ;
            }
            if code <= table.maxcode[i as usize] {
                let idx = code as i64 + table.delta[i as usize] as i64;
                if idx >= 0 && (idx as u64) < (table.huffval.len() as u64) {
                    return Some(Ok(table.huffval[idx as usize]));
                }
                return Some(Err(ImageError(string_of("JPEG: Huffman value index out of range"))));
            }
        }
    }
}

} // verus!
