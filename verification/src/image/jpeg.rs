//! Baseline JPEG decoding (ISO/IEC 10918-1): the markers and segments up to the scan, and
//! the scan's blocks. Only 8-bit precision, one or three components and Huffman coding are
//! taken. The blocks come out as dequantised DCT coefficients; their inverse transform and
//! the conversion of YCbCr samples to RGB are done in floating point by the caller.
use vstd::prelude::*;
use super::{ImageError, error, fails_with};
use super::scan::{
    Step, agrees, HuffTable, TableView, table_of, empty_table, cum, build_crashes,
};
use super::block::{
    ZIGZAG, lemma_zigzag_in_block, Component, ScanEntry, Block, BlockView, ScanCtx, scan_spec, scan_ctx, decode_scan, blocks_view,
    tables_view, table_ok,
};
use crate::text::{string_of, append_str, append_decimal, decimal};

verus! {

// ─── Byte reader ────────────────────────────────────────────

pub open spec fn end_of_jpeg() -> Seq<char> {
    "Unexpected end of JPEG"@
}

pub open spec fn end_of_jpeg_skipping() -> Seq<char> {
    "Unexpected end of JPEG while skipping"@
}

/// The big-endian 16-bit value at byte `i`.
pub open spec fn be16(d: Seq<u8>, i: int) -> int {
    d[i] as int * 0x100 + d[i + 1] as int
}

/// Reads the bytes of a JPEG file in order.
pub struct Reader<'a> {
    pub data: &'a [u8],
    pub pos: usize,
}

impl<'a> Reader<'a> {
    pub open spec fn wf(&self) -> bool {
        self.pos <= self.data@.len()
    }

    pub fn new(data: &'a [u8]) -> (r: Self)
        ensures
            r.wf(),
            r.data@ == data@,
            r.pos == 0,
    {
        Reader { data, pos: 0 }
    }

    pub fn read_u8(&mut self) -> (r: Result<u8, ImageError>)
        requires
            old(self).wf(),
        ensures
            final(self).wf(),
            final(self).data@ == old(self).data@,
            if old(self).pos < old(self).data@.len() {
                r == Ok::<u8, ImageError>(old(self).data@[old(self).pos as int]) && final(self).pos == old(self).pos + 1
            } else {
                fails_with(r, end_of_jpeg()) && final(self).pos == old(self).pos
            },
    {
        if self.pos < self.data.len() {
            let b = self.data[self.pos];
            self.pos = self.pos + 1;
            Ok(b)
        } else {
            Err(error("Unexpected end of JPEG"))
        }
    }

    /// Two bytes, big-endian. Where only one is left it is consumed.
    pub fn read_u16_be(&mut self) -> (r: Result<u16, ImageError>)
        requires
            old(self).wf(),
        ensures
            final(self).wf(),
            final(self).data@ == old(self).data@,
            if old(self).pos + 2 <= old(self).data@.len() {
                r matches Ok(v) && v as int == be16(old(self).data@, old(self).pos as int) && final(self).pos
                    == old(self).pos + 2
            } else {
                fails_with(r, end_of_jpeg()) && final(self).pos == old(self).data@.len()
            },
    {
        let hi = self.read_u8()? as u16;
        let lo = self.read_u8()? as u16;
        proof {
            assert((hi << 8u16) | lo == hi * 0x100 + lo) by (bit_vector)
                requires
                    hi < 256,
                    lo < 256,
            ;
        }
        Ok((hi << 8) | lo)
    }

    pub fn skip(&mut self, n: usize) -> (r: Result<(), ImageError>)
        requires
            old(self).wf(),
        ensures
            final(self).wf(),
            final(self).data@ == old(self).data@,
            if old(self).pos + n <= old(self).data@.len() {
                r == Ok::<(), ImageError>(()) && final(self).pos == old(self).pos + n
            } else {
                fails_with(r, end_of_jpeg_skipping())
            },
    {
        if n > self.data.len() - self.pos {
            return Err(error("Unexpected end of JPEG while skipping"));
        }
        self.pos = self.pos + n;
        Ok(())
    }

    /// The bytes not read yet.
    pub fn remaining_slice(&self) -> (s: &'a [u8])
        requires
            self.wf(),
        ensures
            s@ == self.data@.subrange(self.pos as int, self.data@.len() as int),
    {
        vstd::slice::slice_subrange(self.data, self.pos, self.data.len())
    }
}

// ─── Markers ────────────────────────────────────────────────

pub const M_SOI: u8 = 0xD8;

pub const M_EOI: u8 = 0xD9;

pub const M_SOF0: u8 = 0xC0;

pub const M_DHT: u8 = 0xC4;

pub const M_DQT: u8 = 0xDB;

pub const M_SOS: u8 = 0xDA;

pub const M_DRI: u8 = 0xDD;

/// The next marker at or after byte `p`: a 0xFF byte followed by one that is neither 0x00
/// nor 0xFF; the marker's code and the position after it. `None` where the data ends first.
pub open spec fn next_marker_spec(d: Seq<u8>, p: int) -> Option<(u8, int)>
    decreases d.len() - p,
{
    if p < 0 || p >= d.len() {
        None
    } else if d[p] == 0xFF {
        if p + 1 >= d.len() {
            None
        } else if d[p + 1] != 0 && d[p + 1] != 0xFF {
            Some((d[p + 1], p + 2))
        } else {
            next_marker_spec(d, p + 2)
        }
    } else {
        next_marker_spec(d, p + 1)
    }
}

pub proof fn lemma_next_marker_advances(d: Seq<u8>, p: int)
    requires
        next_marker_spec(d, p) is Some,
    ensures
        p + 2 <= (next_marker_spec(d, p)->0).1 <= d.len(),
    decreases d.len() - p,
{
    if 0 <= p < d.len() {
        if d[p] == 0xFF {
            if p + 1 < d.len() && !(d[p + 1] != 0 && d[p + 1] != 0xFF) {
                lemma_next_marker_advances(d, p + 2);
            }
        } else {
            lemma_next_marker_advances(d, p + 1);
        }
    }
}

// ─── Decoder state ──────────────────────────────────────────

/// What the decoder has read up to position `pos`: the frame's size and components, the
/// four quantisation tables (64 entries each, in order), the DC and AC Huffman tables and
/// the restart interval.
#[verifier::ext_equal]
pub struct Hdr {
    pub pos: int,
    pub width: u32,
    pub height: u32,
    pub ncomp: int,
    pub comps: Seq<Component>,
    pub qt: Seq<i32>,
    pub dc: Seq<TableView>,
    pub ac: Seq<TableView>,
    pub restart: u32,
}

/// The state after the SOI marker.
pub open spec fn start_hdr() -> Hdr {
    Hdr {
        pos: 2,
        width: 0,
        height: 0,
        ncomp: 0,
        comps: Seq::empty(),
        qt: Seq::new(256, |i: int| 0i32),
        dc: Seq::new(4, |i: int| empty_table()),
        ac: Seq::new(4, |i: int| empty_table()),
        restart: 0,
    }
}

pub open spec fn at_pos(h: Hdr, p: int) -> Hdr {
    Hdr { pos: p, ..h }
}

// ─── SOF0 ───────────────────────────────────────────────────

pub open spec fn precision_msg(p: u8) -> Seq<char> {
    "JPEG: unsupported precision "@ + decimal(p as nat) + " (only 8-bit supported)"@
}

pub open spec fn ncomp_msg(n: u8) -> Seq<char> {
    "JPEG: unsupported component count "@ + decimal(n as nat)
}

/// The component described by the three bytes at `q`.
pub open spec fn comp_at(d: Seq<u8>, q: int) -> Component {
    Component { id: d[q], h_samp: (d[q + 1] >> 4u8) & 15u8, v_samp: d[q + 1] & 15u8, qt_id: d[q + 2] }
}

/// A start-of-frame segment (baseline) at `h.pos`: precision, height, width and components.
pub open spec fn sof0_spec(d: Seq<u8>, h: Hdr) -> Step<Hdr> {
    let p = h.pos;
    if p + 3 > d.len() {
        Step::Fail(end_of_jpeg())
    } else if d[p + 2] != 8 {
        Step::Fail(precision_msg(d[p + 2]))
    } else if p + 8 > d.len() {
        Step::Fail(end_of_jpeg())
    } else if d[p + 7] != 1 && d[p + 7] != 3 {
        Step::Fail(ncomp_msg(d[p + 7]))
    } else {
        let nc = d[p + 7] as int;
        if p + 8 + 3 * nc > d.len() {
            Step::Fail(end_of_jpeg())
        } else {
            Step::Done(
                Hdr {
                    pos: p + 8 + 3 * nc,
                    height: be16(d, p + 3) as u32,
                    width: be16(d, p + 5) as u32,
                    ncomp: nc,
                    comps: Seq::new(nc as nat, |c: int| comp_at(d, p + 8 + 3 * c)),
                    ..h
                },
            )
        }
    }
}

// ─── DQT ────────────────────────────────────────────────────

pub open spec fn dqt_id_msg(t: u8) -> Seq<char> {
    "JPEG: DQT table id "@ + decimal(t as nat) + " out of range"@
}

/// The `i`-th value of a quantisation table at `p`, of `w` bytes each.
pub open spec fn qt_value(d: Seq<u8>, p: int, w: int, i: int) -> i32 {
    if w == 1 {
        d[p + i] as i32
    } else {
        be16(d, p + 2 * i) as i32
    }
}

/// The tables `qt` after the first `i` values of table `tq` are read from `p`, in zigzag
/// order.
pub open spec fn qt_fill(d: Seq<u8>, p: int, w: int, tq: int, qt: Seq<i32>, i: int) -> Seq<i32>
    decreases i,
{
    if i <= 0 {
        qt
    } else {
        qt_fill(d, p, w, tq, qt, i - 1).update(tq * 64 + ZIGZAG@[i - 1] as int, qt_value(d, p, w, i - 1))
    }
}

/// The tables of a DQT segment from `p`, with `rem` bytes of it left; the tables and the
/// position after them. Taking more bytes than are left underflows the count.
pub open spec fn dqt_tables(d: Seq<u8>, p: int, rem: int, qt: Seq<i32>) -> Step<(Seq<i32>, int)>
    decreases rem,
{
    if rem <= 0 {
        Step::Done((qt, p))
    } else if p + 1 > d.len() {
        Step::Fail(end_of_jpeg())
    } else if d[p] & 15u8 >= 4 {
        Step::Fail(dqt_id_msg(d[p] & 15u8))
    } else {
        let w: int = if d[p] >> 4u8 == 0 { 1 } else { 2 };
        if p + 1 + 64 * w > d.len() {
            Step::Fail(end_of_jpeg())
        } else if rem < 1 + 64 * w {
            Step::Crash
        } else {
            dqt_tables(d, p + 1 + 64 * w, rem - (1 + 64 * w), qt_fill(d, p + 1, w, (d[p] & 15u8) as int, qt, 64))
        }
    }
}

/// A DQT segment at `h.pos`. A length below 2 underflows.
pub open spec fn dqt_spec(d: Seq<u8>, h: Hdr) -> Step<Hdr> {
    let p = h.pos;
    if p + 2 > d.len() {
        Step::Fail(end_of_jpeg())
    } else if be16(d, p) < 2 {
        Step::Crash
    } else {
        match dqt_tables(d, p + 2, be16(d, p) - 2, h.qt) {
            Step::Fail(m) => Step::Fail(m),
            Step::Crash => Step::Crash,
            Step::Done((qt, p2)) => Step::Done(Hdr { pos: p2, qt, ..h }),
        }
    }
}

// ─── DHT ────────────────────────────────────────────────────

pub open spec fn dht_id_msg(t: u8) -> Seq<char> {
    "JPEG: DHT table id "@ + decimal(t as nat) + " out of range"@
}

/// The tables of a DHT segment from `p`, with `rem` bytes of it left: each a class (DC or
/// AC) and id, sixteen code counts and the symbols; building a table can crash (see
/// `build_crashes`).
pub open spec fn dht_tables(d: Seq<u8>, p: int, rem: int, dc: Seq<TableView>, ac: Seq<TableView>) -> Step<
    (Seq<TableView>, Seq<TableView>, int),
>
    decreases rem,
{
    if rem <= 0 {
        Step::Done((dc, ac, p))
    } else if p + 1 > d.len() {
        Step::Fail(end_of_jpeg())
    } else if d[p] & 15u8 >= 4 {
        Step::Fail(dht_id_msg(d[p] & 15u8))
    } else if p + 17 > d.len() {
        Step::Fail(end_of_jpeg())
    } else {
        let lengths = d.subrange(p + 1, p + 17);
        let total = cum(lengths, 16);
        proof {
            lemma_cum_nonneg(lengths, 16);
        }
        if p + 17 + total > d.len() {
            Step::Fail(end_of_jpeg())
        } else if build_crashes(lengths) {
            Step::Crash
        } else if rem < 17 + total {
            Step::Crash
        } else {
            let t = table_of(lengths, d.subrange(p + 17, p + 17 + total));
            let th = (d[p] & 15u8) as int;
            if (d[p] >> 4u8) & 1u8 == 0 {
                dht_tables(d, p + 17 + total, rem - (17 + total), dc.update(th, t), ac)
            } else {
                dht_tables(d, p + 17 + total, rem - (17 + total), dc, ac.update(th, t))
            }
        }
    }
}

pub proof fn lemma_cum_nonneg(lengths: Seq<u8>, l: int)
    ensures
        0 <= cum(lengths, l) <= 255 * (if l < 0 { 0 } else { l }),
    decreases l,
{
    if l > 0 {
        lemma_cum_nonneg(lengths, l - 1);
    }
}

/// A DHT segment at `h.pos`. A length below 2 underflows.
pub open spec fn dht_spec(d: Seq<u8>, h: Hdr) -> Step<Hdr> {
    let p = h.pos;
    if p + 2 > d.len() {
        Step::Fail(end_of_jpeg())
    } else if be16(d, p) < 2 {
        Step::Crash
    } else {
        match dht_tables(d, p + 2, be16(d, p) - 2, h.dc, h.ac) {
            Step::Fail(m) => Step::Fail(m),
            Step::Crash => Step::Crash,
            Step::Done((dc, ac, p2)) => Step::Done(Hdr { pos: p2, dc, ac, ..h }),
        }
    }
}

// ─── DRI and other segments ─────────────────────────────────

/// A DRI segment at `h.pos`: the restart interval.
pub open spec fn dri_spec(d: Seq<u8>, h: Hdr) -> Step<Hdr> {
    let p = h.pos;
    if p + 4 > d.len() {
        Step::Fail(end_of_jpeg())
    } else {
        Step::Done(Hdr { pos: p + 4, restart: be16(d, p + 2) as u32, ..h })
    }
}

/// Passing over a segment whose length is at `p`.
pub open spec fn skip_spec(d: Seq<u8>, h: Hdr) -> Step<Hdr> {
    let p = h.pos;
    if p + 2 > d.len() {
        Step::Fail(end_of_jpeg())
    } else {
        let n = if be16(d, p) < 2 { 0 } else { be16(d, p) - 2 };
        if p + 2 + n > d.len() {
            Step::Fail(end_of_jpeg_skipping())
        } else {
            Step::Done(at_pos(h, p + 2 + n))
        }
    }
}

// ─── The decoder ────────────────────────────────────────────

/// What the decoder keeps of a well-formed state: four quantisation tables of 64 entries,
/// four DC and four AC tables, and components whose sampling factors are nibbles.
pub open spec fn hdr_ok(h: Hdr) -> bool {
    &&& h.qt.len() == 256
    &&& h.dc.len() == 4
    &&& h.ac.len() == 4
    &&& h.ncomp == h.comps.len()
    &&& forall|i: int| 0 <= i < h.comps.len() ==> #[trigger] h.comps[i].h_samp <= 15 && h.comps[i].v_samp <= 15
    &&& h.width <= 0xFFFF
    &&& h.height <= 0xFFFF
}

pub struct JpegDecoder<'a> {
    pub r: Reader<'a>,
    pub width: u32,
    pub height: u32,
    pub ncomp: usize,
    pub comps: Vec<Component>,
    pub qt: Vec<i32>,
    pub dc_tables: Vec<HuffTable>,
    pub ac_tables: Vec<HuffTable>,
    pub restart_interval: u32,
}

impl<'a> View for JpegDecoder<'a> {
    type V = Hdr;

    open spec fn view(&self) -> Hdr {
        Hdr {
            pos: self.r.pos as int,
            width: self.width,
            height: self.height,
            ncomp: self.ncomp as int,
            comps: self.comps@,
            qt: self.qt@,
            dc: tables_view(self.dc_tables@),
            ac: tables_view(self.ac_tables@),
            restart: self.restart_interval,
        }
    }
}

/// The outcome of a segment parser, by the step its spec takes from `h`: on success the
/// decoder's new state, on failure the message.
pub open spec fn parsed(r: Result<(), ImageError>, s: Step<Hdr>, h: Hdr) -> bool {
    match s {
        Step::Done(h2) => r == Ok::<(), ImageError>(()) && h == h2,
        Step::Fail(m) => fails_with(r, m),
        Step::Crash => false,
    }
}

/// As `parsed`, with `None` for a crash.
pub open spec fn parsed_or_crash(r: Option<Result<(), ImageError>>, s: Step<Hdr>, h: Hdr) -> bool {
    match s {
        Step::Done(h2) => r == Some(Ok::<(), ImageError>(())) && h == h2,
        Step::Fail(m) => r matches Some(Err(e)) && e.0@ == m,
        Step::Crash => r is None,
    }
}

impl<'a> JpegDecoder<'a> {
    pub open spec fn wf(&self) -> bool {
        &&& self.r.wf()
        &&& hdr_ok(self@)
        &&& forall|i: int| 0 <= i < 4 ==> table_ok(#[trigger] self.dc_tables@[i])
        &&& forall|i: int| 0 <= i < 4 ==> table_ok(#[trigger] self.ac_tables@[i])
    }

    /// A decoder positioned after the SOI marker; fails on data that does not start with
    /// one or is shorter than four bytes.
    pub fn new(data: &'a [u8]) -> (r: Result<Self, ImageError>)
        ensures
            r is Ok <==> (data@.len() >= 4 && data@[0] == 0xFF && data@[1] == M_SOI),
            r matches Ok(dec) ==> dec.wf() && dec.r.data@ == data@ && dec@ == at_pos(start_hdr(), 0),
            r is Err ==> fails_with(r, "Not a JPEG file (missing SOI)"@),
    {
        if data.len() < 4 || data[0] != 0xFF || data[1] != M_SOI {
            return Err(error("Not a JPEG file (missing SOI)"));
        }
        let mut dc_tables: Vec<HuffTable> = Vec::new();
        let mut ac_tables: Vec<HuffTable> = Vec::new();
        let mut i: usize = 0;
        while i < 4
            invariant
                i <= 4,
                dc_tables@.len() == i,
                ac_tables@.len() == i,
                forall|k: int| 0 <= k < i ==> table_ok(#[trigger] dc_tables@[k]) && dc_tables@[k]@ == empty_table(),
                forall|k: int| 0 <= k < i ==> table_ok(#[trigger] ac_tables@[k]) && ac_tables@[k]@ == empty_table(),
            decreases 4 - i,
        {
            dc_tables.push(HuffTable::empty());
            ac_tables.push(HuffTable::empty());
            i = i + 1;
        }
        let dec = JpegDecoder {
            r: Reader::new(data),
            width: 0,
            height: 0,
            ncomp: 0,
            comps: Vec::new(),
            qt: vec![0i32; 256],
            dc_tables,
            ac_tables,
            restart_interval: 0,
        };
        assert(dec@ =~= at_pos(start_hdr(), 0)) by {
            assert(dec@.dc =~= start_hdr().dc);
            assert(dec@.ac =~= start_hdr().ac);
            assert(dec@.qt =~= start_hdr().qt);
        }
        Ok(dec)
    }

    /// Reads a SOF0 segment (see `sof0_spec`).
    pub fn parse_sof0(&mut self) -> (r: Result<(), ImageError>)
        requires
            old(self).wf(),
        ensures
            final(self).wf(),
            final(self).r.data@ == old(self).r.data@,
            parsed(r, sof0_spec(old(self).r.data@, old(self)@), final(self)@),
    {
        let ghost d = self.r.data@;
        let ghost p = self.r.pos as int;
        let ghost h0 = self@;
        let _len = self.r.read_u16_be()?;
        let precision = self.r.read_u8()?;
        if precision != 8 {
            let mut msg = string_of("JPEG: unsupported precision ");
            append_decimal(&mut msg, precision as usize);
            append_str(&mut msg, " (only 8-bit supported)");
            return Err(ImageError(msg));
        }
        self.height = self.r.read_u16_be()? as u32;
        self.width = self.r.read_u16_be()? as u32;
        let ncomp = self.r.read_u8()?;
        if ncomp != 1 && ncomp != 3 {
            let mut msg = string_of("JPEG: unsupported component count ");
            append_decimal(&mut msg, ncomp as usize);
            return Err(ImageError(msg));
        }
        let n = ncomp as usize;
        let mut comps: Vec<Component> = Vec::new();
        let mut c: usize = 0;
        while c < n
            invariant
                self.wf(),
                self.r.data@ == d,
                d == old(self).r.data@,
                h0 == old(self)@,
                p == old(self).r.pos,
                d.len() >= p + 8,
                d[p + 2] == 8,
                n == d[p + 7],
                n == 1 || n == 3,
                c <= n,
                self.r.pos == p + 8 + 3 * c,
                self@ == (Hdr { pos: self.r.pos as int, height: be16(d, p + 3) as u32, width: be16(d, p + 5) as u32, ..h0 }),
                comps@ =~= Seq::new(c as nat, |k: int| comp_at(d, p + 8 + 3 * k)),
                forall|i: int| 0 <= i < comps@.len() ==> #[trigger] comps@[i].h_samp <= 15
                    && comps@[i].v_samp <= 15,
            decreases n - c,
        {
            let id = self.r.read_u8()?;
            let samp = self.r.read_u8()?;
            let qt_id = self.r.read_u8()?;
            proof {
                assert((samp >> 4u8) & 15u8 <= 15u8 && samp & 15u8 <= 15u8) by (bit_vector);
            }
            comps.push(Component { id, h_samp: (samp >> 4) & 0xF, v_samp: samp & 0xF, qt_id });
            c = c + 1;
        }
        self.comps = comps;
        self.ncomp = n;
        assert(sof0_spec(d, h0) == Step::Done(self@));
        Ok(())
    }
}

impl<'a> JpegDecoder<'a> {
    /// Reads a DQT segment (see `dqt_spec`); `None` where its length fields underflow.
    pub fn parse_dqt(&mut self) -> (r: Option<Result<(), ImageError>>)
        requires
            old(self).wf(),
        ensures
            final(self).wf(),
            final(self).r.data@ == old(self).r.data@,
            parsed_or_crash(r, dqt_spec(old(self).r.data@, old(self)@), final(self)@),
    {
        let ghost d = self.r.data@;
        let ghost h0 = self@;
        let len = match self.r.read_u16_be() {
            Ok(v) => v,
            Err(e) => return Some(Err(e)),
        };
        if len < 2 {
            return None;
        }
        let mut remaining: usize = len as usize - 2;
        let ghost whole = dqt_tables(d, h0.pos + 2, len - 2, h0.qt);
        proof {
            lemma_zigzag_in_block();
        }
        while remaining > 0
            invariant
                self.wf(),
                self.r.data@ == d,
                d == old(self).r.data@,
                h0 == old(self)@,
                dqt_spec(d, h0) == match whole {
                    Step::Fail(m) => Step::Fail(m),
                    Step::Crash => Step::Crash,
                    Step::Done((qt, p2)) => Step::Done(Hdr { pos: p2, qt, ..h0 }),
                },
                whole == dqt_tables(d, self.r.pos as int, remaining as int, self.qt@),
                self@ == (Hdr { pos: self.r.pos as int, qt: self.qt@, ..h0 }),
                forall|q: int| 0 <= q < 64 ==> #[trigger] ZIGZAG@[q] < 64,
            decreases remaining,
        {
            let ghost p = self.r.pos as int;
            let pq_tq = match self.r.read_u8() {
                Ok(v) => v,
                Err(e) => return Some(Err(e)),
            };
            let pq = pq_tq >> 4;
            let tq = pq_tq & 0xF;
            if tq >= 4 {
                let mut msg = string_of("JPEG: DQT table id ");
                append_decimal(&mut msg, tq as usize);
                append_str(&mut msg, " out of range");
                return Some(Err(ImageError(msg)));
            }
            let ghost w: int = if pq == 0 { 1 } else { 2 };
            let ghost qt0 = self.qt@;
            let t = tq as usize;
            let mut i: usize = 0;
            while i < 64
                invariant
                    self.wf(),
                    self.r.data@ == d,
                    d == old(self).r.data@,
                    h0 == old(self)@,
                    dqt_spec(d, h0) == match whole {
                        Step::Fail(m) => Step::Fail(m),
                        Step::Crash => Step::Crash,
                        Step::Done((qt, p2)) => Step::Done(Hdr { pos: p2, qt, ..h0 }),
                    },
                    whole == dqt_tables(d, p, remaining as int, qt0),
                    0 <= p < d.len(),
                    d[p] == pq_tq,
                    pq == pq_tq >> 4u8,
                    w == (if pq == 0 { 1int } else { 2int }),
                    t == (pq_tq & 15u8) as int,
                    t < 4,
                    remaining > 0,
                    i <= 64,
                    self.r.pos == p + 1 + w * i,
                    self.qt@ == qt_fill(d, p + 1, w, t as int, qt0, i as int),
                    self@ == (Hdr { pos: self.r.pos as int, qt: self.qt@, ..h0 }),
                    forall|q: int| 0 <= q < 64 ==> #[trigger] ZIGZAG@[q] < 64,
                decreases 64 - i,
            {
                let val: i32 = if pq == 0 {
                    match self.r.read_u8() {
                        Ok(v) => v as i32,
                        Err(e) => return Some(Err(e)),
                    }
                } else {
                    match self.r.read_u16_be() {
                        Ok(v) => v as i32,
                        Err(e) => return Some(Err(e)),
                    }
                };
                self.qt.set(t * 64 + ZIGZAG[i] as usize, val);
                i = i + 1;
            }
            let step: usize = 1 + 64 * (if pq == 0 { 1 } else { 2 });
            if remaining < step {
                return None;
            }
            remaining = remaining - step;
        }
        Some(Ok(()))
    }

    /// Reads a DHT segment (see `dht_spec`); `None` where its length fields underflow or a
    /// table cannot be built.
    pub fn parse_dht(&mut self) -> (r: Option<Result<(), ImageError>>)
        requires
            old(self).wf(),
        ensures
            final(self).wf(),
            final(self).r.data@ == old(self).r.data@,
            parsed_or_crash(r, dht_spec(old(self).r.data@, old(self)@), final(self)@),
    {
        let ghost d = self.r.data@;
        let ghost h0 = self@;
        let len = match self.r.read_u16_be() {
            Ok(v) => v,
            Err(e) => return Some(Err(e)),
        };
        if len < 2 {
            return None;
        }
        let mut remaining: usize = len as usize - 2;
        let ghost whole = dht_tables(d, h0.pos + 2, len - 2, h0.dc, h0.ac);
        while remaining > 0
            invariant
                self.wf(),
                self.r.data@ == d,
                d == old(self).r.data@,
                h0 == old(self)@,
                dht_spec(d, h0) == match whole {
                    Step::Fail(m) => Step::Fail(m),
                    Step::Crash => Step::Crash,
                    Step::Done((dc, ac, p2)) => Step::Done(Hdr { pos: p2, dc, ac, ..h0 }),
                },
                whole == dht_tables(d, self.r.pos as int, remaining as int, self@.dc, self@.ac),
                self@ == (Hdr { pos: self.r.pos as int, dc: self@.dc, ac: self@.ac, ..h0 }),
            decreases remaining,
        {
            let ghost p = self.r.pos as int;
            let tc_th = match self.r.read_u8() {
                Ok(v) => v,
                Err(e) => return Some(Err(e)),
            };
            let tc = (tc_th >> 4) & 1;
            let th = tc_th & 0xF;
            if th >= 4 {
                let mut msg = string_of("JPEG: DHT table id ");
                append_decimal(&mut msg, th as usize);
                append_str(&mut msg, " out of range");
                return Some(Err(ImageError(msg)));
            }
            let mut lengths: [u8; 16] = [0u8; 16];
            let mut total: usize = 0;
            let mut i: usize = 0;
            while i < 16
                invariant
                    self.wf(),
                    self.r.data@ == d,
                    d == old(self).r.data@,
                    h0 == old(self)@,
                    dht_spec(d, h0) == match whole {
                        Step::Fail(m) => Step::Fail(m),
                        Step::Crash => Step::Crash,
                        Step::Done((dc, ac, p2)) => Step::Done(Hdr { pos: p2, dc, ac, ..h0 }),
                    },
                    whole == dht_tables(d, p, remaining as int, self@.dc, self@.ac),
                    self@ == (Hdr { pos: self.r.pos as int, dc: self@.dc, ac: self@.ac, ..h0 }),
                    0 <= p < d.len(),
                    d[p] == tc_th,
                    th == tc_th & 15u8,
                    th < 4,
                    remaining > 0,
                    i <= 16,
                    self.r.pos == p + 1 + i,
                    forall|k: int| 0 <= k < i ==> lengths@[k] == d[p + 1 + k],
                    total == cum(lengths@, i as int),
                    total <= 255 * i,
                decreases 16 - i,
            {
                let b = match self.r.read_u8() {
                    Ok(v) => v,
                    Err(e) => return Some(Err(e)),
                };
                let ghost before = lengths@;
                lengths[i] = b;
                proof {
                    assert forall|l: int| 0 <= l <= i implies cum(lengths@, l) == cum(before, l) by {
                        lemma_cum_prefix(lengths@, before, l, i as int);
                    }
                }
                total = total + b as usize;
                i = i + 1;
            }
            assert(lengths@ =~= d.subrange(p + 1, p + 17));
            let mut values: Vec<u8> = Vec::new();
            let mut k: usize = 0;
            while k < total
                invariant
                    self.wf(),
                    self.r.data@ == d,
                    d == old(self).r.data@,
                    h0 == old(self)@,
                    dht_spec(d, h0) == match whole {
                        Step::Fail(m) => Step::Fail(m),
                        Step::Crash => Step::Crash,
                        Step::Done((dc, ac, p2)) => Step::Done(Hdr { pos: p2, dc, ac, ..h0 }),
                    },
                    whole == dht_tables(d, p, remaining as int, self@.dc, self@.ac),
                    self@ == (Hdr { pos: self.r.pos as int, dc: self@.dc, ac: self@.ac, ..h0 }),
                    0 <= p < d.len(),
                    d[p] == tc_th,
                    th == tc_th & 15u8,
                    th < 4,
                    remaining > 0,
                    p + 17 <= d.len(),
                    lengths@ == d.subrange(p + 1, p + 17),
                    total == cum(lengths@, 16),
                    k <= total,
                    self.r.pos == p + 17 + k,
                    values@ =~= d.subrange(p + 17, p + 17 + k),
                decreases total - k,
            {
                let b = match self.r.read_u8() {
                    Ok(v) => v,
                    Err(e) => return Some(Err(e)),
                };
                values.push(b);
                k = k + 1;
            }
            let table = match HuffTable::build(&lengths, values.as_slice()) {
                None => return None,
                Some(t) => t,
            };
            let ghost t_view = table@;
            if tc == 0 {
                let ghost before = self.dc_tables@;
                self.dc_tables.set(th as usize, table);
                assert(tables_view(self.dc_tables@) =~= tables_view(before).update(th as int, t_view));
            } else {
                let ghost before = self.ac_tables@;
                self.ac_tables.set(th as usize, table);
                assert(tables_view(self.ac_tables@) =~= tables_view(before).update(th as int, t_view));
            }
            let step: usize = 1 + 16 + total;
            if remaining < step {
                return None;
            }
            remaining = remaining - step;
        }
        Some(Ok(()))
    }

    /// Reads a DRI segment (see `dri_spec`).
    pub fn parse_dri(&mut self) -> (r: Result<(), ImageError>)
        requires
            old(self).wf(),
        ensures
            final(self).wf(),
            final(self).r.data@ == old(self).r.data@,
            parsed(r, dri_spec(old(self).r.data@, old(self)@), final(self)@),
    {
        let _len = self.r.read_u16_be()?;
        self.restart_interval = self.r.read_u16_be()? as u32;
        Ok(())
    }

    /// Passes over a segment of no interest (see `skip_spec`).
    pub fn skip_segment(&mut self) -> (r: Result<(), ImageError>)
        requires
            old(self).wf(),
        ensures
            final(self).wf(),
            final(self).r.data@ == old(self).r.data@,
            parsed(r, skip_spec(old(self).r.data@, old(self)@), final(self)@),
    {
        let len = self.r.read_u16_be()? as usize;
        let n = if len < 2 { 0 } else { len - 2 };
        self.r.skip(n)
    }
}

/// Changing a sequence at `i` keeps the counts below `i`.
proof fn lemma_cum_prefix(a: Seq<u8>, b: Seq<u8>, l: int, i: int)
    requires
        0 <= l <= i,
        forall|k: int| 0 <= k < i ==> a[k] == b[k],
    ensures
        cum(a, l) == cum(b, l),
    decreases l,
{
    if l > 0 {
        lemma_cum_prefix(a, b, l - 1, i);
    }
}

// ─── SOS and the scan ───────────────────────────────────────

pub open spec fn sos_count_msg(ns: u8, ncomp: int) -> Seq<char> {
    "JPEG SOS: "@ + decimal(ns as nat) + " components, expected "@ + decimal(ncomp as nat)
}

pub open spec fn unknown_comp_msg(id: u8) -> Seq<char> {
    "JPEG SOS: unknown component id "@ + decimal(id as nat)
}

/// The index of the first component from `i` on with id `id`.
pub open spec fn find_comp(comps: Seq<Component>, id: u8, i: int) -> Option<int>
    decreases comps.len() - i,
{
    if i < 0 || i >= comps.len() {
        None
    } else if comps[i].id == id {
        Some(i)
    } else {
        find_comp(comps, id, i + 1)
    }
}

/// The scan's components from the `j`-th of `ns`, two bytes each from `p`: a component id
/// and the ids of its DC and AC tables.
pub open spec fn sos_entries(d: Seq<u8>, p: int, comps: Seq<Component>, j: int, ns: int, acc: Seq<ScanEntry>) -> Step<
    (Seq<ScanEntry>, int),
>
    decreases ns - j,
{
    if j >= ns {
        Step::Done((acc, p))
    } else if p + 2 > d.len() {
        Step::Fail(end_of_jpeg())
    } else {
        match find_comp(comps, d[p], 0) {
            None => Step::Fail(unknown_comp_msg(d[p])),
            Some(ci) => sos_entries(
                d,
                p + 2,
                comps,
                j + 1,
                ns,
                acc.push(ScanEntry { ci: ci as usize, dc_id: (d[p + 1] >> 4u8) & 15u8, ac_id: d[p + 1] & 15u8 }),
            ),
        }
    }
}

/// The largest horizontal sampling factor of the first `n` components.
pub open spec fn max_h_from(comps: Seq<Component>, n: int) -> int
    decreases n,
{
    if n <= 0 {
        0
    } else if comps[n - 1].h_samp as int > max_h_from(comps, n - 1) {
        comps[n - 1].h_samp as int
    } else {
        max_h_from(comps, n - 1)
    }
}

/// The largest vertical sampling factor of the first `n` components.
pub open spec fn max_v_from(comps: Seq<Component>, n: int) -> int
    decreases n,
{
    if n <= 0 {
        0
    } else if comps[n - 1].v_samp as int > max_v_from(comps, n - 1) {
        comps[n - 1].v_samp as int
    } else {
        max_v_from(comps, n - 1)
    }
}

/// The largest horizontal sampling factor; 1 without components.
pub open spec fn max_h_of(comps: Seq<Component>) -> int {
    if comps.len() == 0 {
        1
    } else {
        max_h_from(comps, comps.len() as int)
    }
}

/// The largest vertical sampling factor; 1 without components.
pub open spec fn max_v_of(comps: Seq<Component>) -> int {
    if comps.len() == 0 {
        1
    } else {
        max_v_from(comps, comps.len() as int)
    }
}

/// A decoded baseline scan: the frame's size and components, the MCU size in blocks
/// (`max_h` by `max_v`), the size of the component planes padded to whole MCUs, and the
/// blocks in the order they were coded.
#[verifier::ext_equal]
pub struct ScanView {
    pub width: u32,
    pub height: u32,
    pub comps: Seq<Component>,
    pub max_h: int,
    pub max_v: int,
    pub pw: int,
    pub ph: int,
    pub blocks: Seq<BlockView>,
}

/// The number of MCUs along a side of `len` samples, `m` blocks per MCU.
pub open spec fn mcu_count(len: int, m: int) -> int {
    (len + m * 8 - 1) / (m * 8)
}

/// The walk over the scan of a SOS segment at `h.pos`, as the frame read so far sets it up.
pub open spec fn scan_of(d: Seq<u8>, h: Hdr, order: Seq<ScanEntry>, start: int) -> ScanCtx {
    let mx = mcu_count(h.width as int, max_h_of(h.comps));
    let my = mcu_count(h.height as int, max_v_of(h.comps));
    ScanCtx {
        data: d.subrange(start, d.len() as int),
        comps: h.comps,
        order,
        dc: h.dc,
        ac: h.ac,
        qt: h.qt,
        restart: h.restart as int,
        mcus_x: mx,
        mcus: mx * my,
    }
}

/// The scan after a SOS header whose components are `entries`. Sampling factors that are
/// all zero make the MCU size zero, and dividing by it crashes.
pub open spec fn sos_after(d: Seq<u8>, h: Hdr, entries: Step<(Seq<ScanEntry>, int)>) -> Step<ScanView> {
    match entries {
        Step::Fail(m) => Step::Fail(m),
        Step::Crash => Step::Crash,
        Step::Done((order, p2)) => if p2 + 3 > d.len() {
            Step::Fail(end_of_jpeg_skipping())
        } else if h.width == 0 || h.height == 0 {
            Step::Fail("JPEG: SOF0 not seen before SOS"@)
        } else if max_h_of(h.comps) == 0 || max_v_of(h.comps) == 0 {
            Step::Crash
        } else {
            let c = scan_of(d, h, order, p2 + 3);
            match scan_spec(c) {
                Step::Fail(m) => Step::Fail(m),
                Step::Crash => Step::Crash,
                Step::Done((blocks, st)) => Step::Done(
                    ScanView {
                        width: h.width,
                        height: h.height,
                        comps: h.comps,
                        max_h: max_h_of(h.comps),
                        max_v: max_v_of(h.comps),
                        pw: c.mcus_x * max_h_of(h.comps) * 8,
                        ph: mcu_count(h.height as int, max_v_of(h.comps)) * max_v_of(h.comps) * 8,
                        blocks,
                    },
                ),
            }
        },
    }
}

/// A SOS segment at `h.pos` and the scan after it.
#[verifier::opaque]
pub open spec fn sos_spec(d: Seq<u8>, h: Hdr) -> Step<ScanView> {
    let p = h.pos;
    if p + 3 > d.len() {
        Step::Fail(end_of_jpeg())
    } else if d[p + 2] as int != h.ncomp {
        Step::Fail(sos_count_msg(d[p + 2], h.ncomp))
    } else {
        sos_after(d, h, sos_entries(d, p + 3, h.comps, 0, h.ncomp, Seq::empty()))
    }
}

// ─── The marker loop ────────────────────────────────────────

/// A segment whose length cannot be read is passed over to the end of the data.
pub open spec fn unknown_spec(d: Seq<u8>, h: Hdr) -> Step<Hdr> {
    if h.pos + 2 > d.len() {
        Step::Done(at_pos(h, d.len() as int))
    } else {
        skip_spec(d, h)
    }
}

/// The segment after marker `m` (other than SOS and EOI), at `h.pos`.
#[verifier::opaque]
pub open spec fn segment_spec(d: Seq<u8>, h: Hdr, m: u8) -> Step<Hdr> {
    if m == M_SOF0 {
        sof0_spec(d, h)
    } else if m == M_DHT {
        dht_spec(d, h)
    } else if m == M_DQT {
        dqt_spec(d, h)
    } else if m == M_DRI {
        dri_spec(d, h)
    } else if (0xE0 <= m <= 0xEF) || m == 0xFE {
        skip_spec(d, h)
    } else {
        unknown_spec(d, h)
    }
}

pub proof fn lemma_dqt_advances(d: Seq<u8>, p: int, rem: int, qt: Seq<i32>)
    requires
        0 <= p <= d.len(),
    ensures
        dqt_tables(d, p, rem, qt) matches Step::Done((q, p2)) ==> p <= p2 <= d.len(),
    decreases rem,
{
    if rem > 0 && p + 1 <= d.len() && d[p] & 15u8 < 4 {
        let w: int = if d[p] >> 4u8 == 0 { 1 } else { 2 };
        if p + 1 + 64 * w <= d.len() && rem >= 1 + 64 * w {
            lemma_dqt_advances(d, p + 1 + 64 * w, rem - (1 + 64 * w), qt_fill(d, p + 1, w, (d[p] & 15u8) as int, qt, 64));
        }
    }
}

pub proof fn lemma_dht_advances(d: Seq<u8>, p: int, rem: int, dc: Seq<TableView>, ac: Seq<TableView>)
    requires
        0 <= p <= d.len(),
    ensures
        dht_tables(d, p, rem, dc, ac) matches Step::Done((x, y, p2)) ==> p <= p2 <= d.len(),
    decreases rem,
{
    if rem > 0 && p + 17 <= d.len() && d[p] & 15u8 < 4 {
        let lengths = d.subrange(p + 1, p + 17);
        let total = cum(lengths, 16);
        lemma_cum_nonneg(lengths, 16);
        if p + 17 + total <= d.len() && !build_crashes(lengths) && rem >= 17 + total {
            let t = table_of(lengths, d.subrange(p + 17, p + 17 + total));
            let th = (d[p] & 15u8) as int;
            lemma_dht_advances(d, p + 17 + total, rem - (17 + total), dc.update(th, t), ac);
            lemma_dht_advances(d, p + 17 + total, rem - (17 + total), dc, ac.update(th, t));
        }
    }
}

/// A segment leaves the position within the data and does not move it back.
pub proof fn lemma_segment_advances(d: Seq<u8>, h: Hdr, m: u8)
    requires
        0 <= h.pos <= d.len(),
    ensures
        segment_spec(d, h, m) matches Step::Done(h2) ==> h.pos <= h2.pos <= d.len(),
{
    reveal(segment_spec);
    if h.pos + 2 <= d.len() {
        lemma_dqt_advances(d, h.pos + 2, be16(d, h.pos) - 2, h.qt);
        lemma_dht_advances(d, h.pos + 2, be16(d, h.pos) - 2, h.dc, h.ac);
    }
}

/// The decoder from position `h.pos` on: marker by marker until the scan.
pub open spec fn markers_from(d: Seq<u8>, h: Hdr) -> Step<ScanView>
    decreases d.len() - h.pos,
{
    match next_marker_spec(d, h.pos) {
        None => Step::Fail(end_of_jpeg()),
        Some((m, p)) => {
            let h1 = at_pos(h, p);
            if m == M_SOS {
                sos_spec(d, h1)
            } else if m == M_EOI {
                Step::Fail("JPEG ended before scan data"@)
            } else {
                match segment_spec(d, h1, m) {
                    Step::Fail(msg) => Step::Fail(msg),
                    Step::Crash => Step::Crash,
                    Step::Done(h2) => {
                        proof {
                            lemma_next_marker_advances(d, h.pos);
                            lemma_segment_advances(d, h1, m);
                        }
                        markers_from(d, h2)
                    },
                }
            }
        },
    }
}

/// A whole JPEG file: the SOI marker, then the segments up to the first scan, then the scan.
pub open spec fn jpeg_spec(d: Seq<u8>) -> Step<ScanView> {
    if d.len() < 4 || d[0] != 0xFF || d[1] != M_SOI {
        Step::Fail("Not a JPEG file (missing SOI)"@)
    } else {
        markers_from(d, start_hdr())
    }
}

// ─── Decoding ───────────────────────────────────────────────

/// A decoded baseline scan (see `ScanView`).
pub struct JpegScan {
    pub width: u32,
    pub height: u32,
    pub comps: Vec<Component>,
    pub max_h: usize,
    pub max_v: usize,
    pub pw: usize,
    pub ph: usize,
    pub blocks: Vec<Block>,
}

impl View for JpegScan {
    type V = ScanView;

    open spec fn view(&self) -> ScanView {
        ScanView {
            width: self.width,
            height: self.height,
            comps: self.comps@,
            max_h: self.max_h as int,
            max_v: self.max_v as int,
            pw: self.pw as int,
            ph: self.ph as int,
            blocks: blocks_view(self.blocks@),
        }
    }
}

proof fn lemma_mcu_count_bounds(len: int, m: int)
    requires
        1 <= len <= 0xFFFF,
        1 <= m <= 15,
    ensures
        1 <= mcu_count(len, m) <= 8192,
        mcu_count(len, m) * (m * 8) <= 0x10000 + 120,
{
    let q = mcu_count(len, m);
    let k = m * 8;
    assert(8 <= k <= 120);
    vstd::arithmetic::div_mod::lemma_fundamental_div_mod(len + k - 1, k);
    vstd::arithmetic::div_mod::lemma_mod_bound(len + k - 1, k);
    assert(q == (len + k - 1) / k);
    assert(1 <= q <= 8192 && q * k <= 0x10000 + 120) by (nonlinear_arith)
        requires
            len + k - 1 == k * q + (len + k - 1) % k,
            0 <= (len + k - 1) % k < k,
            8 <= k <= 120,
            1 <= len <= 0xFFFF,
    ;
}

proof fn lemma_max_from_bound(comps: Seq<Component>, n: int)
    requires
        0 <= n <= comps.len(),
        forall|i: int| 0 <= i < comps.len() ==> #[trigger] comps[i].h_samp <= 15 && comps[i].v_samp <= 15,
    ensures
        0 <= max_h_from(comps, n) <= 15,
        0 <= max_v_from(comps, n) <= 15,
    decreases n,
{
    if n > 0 {
        lemma_max_from_bound(comps, n - 1);
    }
}

impl<'a> JpegDecoder<'a> {
    /// Moves to the next marker (see `next_marker_spec`) and returns its code.
    pub fn next_marker(&mut self) -> (r: Result<u8, ImageError>)
        requires
            old(self).wf(),
        ensures
            final(self).wf(),
            final(self).r.data@ == old(self).r.data@,
            match next_marker_spec(old(self).r.data@, old(self).r.pos as int) {
                None => fails_with(r, end_of_jpeg()),
                Some((m, p)) => r == Ok::<u8, ImageError>(m) && final(self)@ == at_pos(old(self)@, p),
            },
    {
        let ghost d = self.r.data@;
        loop
            invariant
                self.wf(),
                self.r.data@ == d,
                d == old(self).r.data@,
                next_marker_spec(d, old(self).r.pos as int) == next_marker_spec(d, self.r.pos as int),
                self@ == at_pos(old(self)@, self.r.pos as int),
            decreases d.len() - self.r.pos,
        {
            let b = self.r.read_u8()?;
            if b == 0xFF {
                let m = self.r.read_u8()?;
                if m != 0x00 && m != 0xFF {
                    return Ok(m);
                }
            }
        }
    }

    /// Reads a SOS segment and decodes the scan after it (see `sos_spec`); `None` where that
    /// would crash.
    pub fn parse_sos_and_decode(self) -> (r: Option<Result<JpegScan, ImageError>>)
        requires
            self.wf(),
        ensures
            agrees(r, sos_spec(self.r.data@, self@), |s: JpegScan, v: ScanView| s@ == v),
    {
        let ghost d = self.r.data@;
        let ghost h0 = self@;
        let ghost p = self.r.pos as int;
        reveal(sos_spec);
        let mut dec = self;
        let _len = match dec.r.read_u16_be() {
            Ok(v) => v,
            Err(e) => return Some(Err(e)),
        };
        let ns = match dec.r.read_u8() {
            Ok(v) => v,
            Err(e) => return Some(Err(e)),
        };
        if ns as usize != dec.ncomp {
            let mut msg = string_of("JPEG SOS: ");
            append_decimal(&mut msg, ns as usize);
            append_str(&mut msg, " components, expected ");
            append_decimal(&mut msg, dec.ncomp);
            return Some(Err(ImageError(msg)));
        }
        let ghost whole = sos_entries(d, p + 3, h0.comps, 0, h0.ncomp, Seq::empty());
        let mut order: Vec<ScanEntry> = Vec::new();
        let n = ns as usize;
        let mut j: usize = 0;
        while j < n
            invariant
                dec.wf(),
                dec.r.data@ == d,
                dec@ == at_pos(h0, dec.r.pos as int),
                n == h0.ncomp,
                j <= n,
                h0 == self@,
                d == self.r.data@,
                sos_spec(d, h0) == sos_after(d, h0, whole),
                whole == sos_entries(d, dec.r.pos as int, h0.comps, j as int, n as int, order@),
                forall|q: int| 0 <= q < order@.len() ==> #[trigger] order@[q].ci < h0.comps.len(),
            decreases n - j,
        {
            let cs = match dec.r.read_u8() {
                Ok(v) => v,
                Err(e) => return Some(Err(e)),
            };
            let tdta = match dec.r.read_u8() {
                Ok(v) => v,
                Err(e) => return Some(Err(e)),
            };
            let dc = (tdta >> 4) & 0xF;
            let ac = tdta & 0xF;
            let mut ci: usize = 0;
            while ci < dec.comps.len() && dec.comps[ci].id != cs
                invariant
                    ci <= dec.comps@.len(),
                    find_comp(dec.comps@, cs, 0) == find_comp(dec.comps@, cs, ci as int),
                decreases dec.comps@.len() - ci,
            {
                ci = ci + 1;
            }
            if ci == dec.comps.len() {
                let mut msg = string_of("JPEG SOS: unknown component id ");
                append_decimal(&mut msg, cs as usize);
                return Some(Err(ImageError(msg)));
            }
            order.push(ScanEntry { ci, dc_id: dc, ac_id: ac });
            j = j + 1;
        }
        match dec.r.skip(3) {
            Ok(()) => {},
            Err(e) => return Some(Err(e)),
        }
        let scan_data = dec.r.remaining_slice();
        if dec.width == 0 || dec.height == 0 {
            return Some(Err(error("JPEG: SOF0 not seen before SOS")));
        }
        let mut max_h: usize = 0;
        let mut max_v: usize = 0;
        let mut k: usize = 0;
        while k < dec.comps.len()
            invariant
                k <= dec.comps@.len(),
                max_h == max_h_from(dec.comps@, k as int),
                max_v == max_v_from(dec.comps@, k as int),
            decreases dec.comps@.len() - k,
        {
            let c = dec.comps[k];
            if c.h_samp as usize > max_h {
                max_h = c.h_samp as usize;
            }
            if c.v_samp as usize > max_v {
                max_v = c.v_samp as usize;
            }
            k = k + 1;
        }
        if dec.comps.len() == 0 {
            max_h = 1;
            max_v = 1;
        }
        if max_h == 0 || max_v == 0 {
            return None;
        }
        proof {
            lemma_max_from_bound(dec.comps@, dec.comps@.len() as int);
            lemma_mcu_count_bounds(dec.width as int, max_h as int);
            lemma_mcu_count_bounds(dec.height as int, max_v as int);
        }
        let mcu_w = max_h * 8;
        let mcu_h = max_v * 8;
        let mcus_x = (dec.width as usize + mcu_w - 1) / mcu_w;
        let mcus_y = (dec.height as usize + mcu_h - 1) / mcu_h;
        let ghost c = scan_of(d, h0, order@, dec.r.pos as int);
        assert(c == scan_ctx(
            scan_data@,
            dec.comps@,
            order@,
            dec.dc_tables@,
            dec.ac_tables@,
            dec.qt@,
            dec.restart_interval,
            mcus_x,
            mcus_y,
        ));
        let blocks = match decode_scan(
            scan_data,
            &dec.comps,
            &order,
            &dec.dc_tables,
            &dec.ac_tables,
            &dec.qt,
            dec.restart_interval,
            mcus_x,
            mcus_y,
        ) {
            None => return None,
            Some(Err(e)) => return Some(Err(e)),
            Some(Ok(b)) => b,
        };
        proof {
            assert(mcus_x * mcu_w == c.mcus_x * max_h_of(h0.comps) * 8) by (nonlinear_arith)
                requires
                    mcu_w == max_h * 8,
                    c.mcus_x == mcus_x,
                    max_h == max_h_of(h0.comps),
            ;
            assert(mcus_y * mcu_h == mcu_count(h0.height as int, max_v_of(h0.comps)) * max_v_of(h0.comps) * 8)
                by (nonlinear_arith)
                requires
                    mcu_h == max_v * 8,
                    mcus_y == mcu_count(h0.height as int, max_v_of(h0.comps)),
                    max_v == max_v_of(h0.comps),
            ;
        }
        Some(
            Ok(
                JpegScan {
                    width: dec.width,
                    height: dec.height,
                    comps: dec.comps,
                    max_h,
                    max_v,
                    pw: mcus_x * mcu_w,
                    ph: mcus_y * mcu_h,
                    blocks,
                },
            ),
        )
    }

    /// Reads the segments up to the first scan and decodes it (see `markers_from`).
    pub fn decode(self) -> (r: Option<Result<JpegScan, ImageError>>)
        requires
            self.wf(),
            self.r.data@.len() >= 4,
            self@ == at_pos(start_hdr(), 0),
        ensures
            agrees(r, markers_from(self.r.data@, start_hdr()), |s: JpegScan, v: ScanView| s@ == v),
    {
        let ghost d = self.r.data@;
        let mut dec = self;
        match dec.r.skip(2) {
            Ok(()) => {},
            Err(e) => return Some(Err(e)),
        }
        assert(dec@ == start_hdr());
        let ghost target = markers_from(d, start_hdr());
        loop
            invariant
                dec.wf(),
                dec.r.data@ == d,
                d == self.r.data@,
                target == markers_from(d, start_hdr()),
                target == markers_from(d, dec@),
            decreases d.len() - dec.r.pos,
        {
            let ghost h = dec@;
            let marker = match dec.next_marker() {
                Ok(m) => m,
                Err(e) => {
                    assert(next_marker_spec(d, h.pos) is None);
                    assert(markers_from(d, h) == Step::<ScanView>::Fail(end_of_jpeg()));
                    return Some(Err(e));
                },
            };
            let ghost h1 = dec@;
            proof {
                lemma_next_marker_advances(d, h.pos);
                lemma_segment_advances(d, h1, marker);
            }
            if marker == M_SOS {
                return dec.parse_sos_and_decode();
            } else if marker == M_EOI {
                return Some(Err(error("JPEG ended before scan data")));
            }
            match dec.parse_segment(marker) {
                None => return None,
                Some(Err(e)) => return Some(Err(e)),
                Some(Ok(())) => {},
            }
        }
    }

    /// Reads the segment after marker `m`, other than SOS and EOI (see `segment_spec`).
    #[verifier::rlimit(40)]
    pub fn parse_segment(&mut self, m: u8) -> (r: Option<Result<(), ImageError>>)
        requires
            old(self).wf(),
        ensures
            final(self).wf(),
            final(self).r.data@ == old(self).r.data@,
            parsed_or_crash(r, segment_spec(old(self).r.data@, old(self)@, m), final(self)@),
    {
        reveal(segment_spec);
        let ghost d = self.r.data@;
        let ghost h = self@;
        if m == M_SOF0 {
            let r = self.parse_sof0();
            assert(segment_spec(d, h, m) == sof0_spec(d, h));
            Some(r)
        } else if m == M_DHT {
            let r = self.parse_dht();
            assert(segment_spec(d, h, m) == dht_spec(d, h));
            r
        } else if m == M_DQT {
            let r = self.parse_dqt();
            assert(segment_spec(d, h, m) == dqt_spec(d, h));
            r
        } else if m == M_DRI {
            let r = self.parse_dri();
            assert(segment_spec(d, h, m) == dri_spec(d, h));
            Some(r)
        } else if (m >= 0xE0 && m <= 0xEF) || m == 0xFE {
            let r = self.skip_segment();
            assert(segment_spec(d, h, m) == skip_spec(d, h));
            Some(r)
        } else if self.r.data.len() - self.r.pos >= 2 {
            let r = self.skip_segment();
            assert(segment_spec(d, h, m) == skip_spec(d, h));
            Some(r)
        } else {
            let _ = self.r.read_u16_be();
            assert(self@ == at_pos(h, d.len() as int));
            assert(segment_spec(d, h, m) == Step::Done(at_pos(h, d.len() as int)));
            Some(Ok(()))
        }
    }
}

/// Decodes the blocks of a baseline JPEG file (see `jpeg_spec`); `None` where decoding
/// would crash.
pub fn try_decode_jpeg(data: &[u8]) -> (r: Option<Result<JpegScan, ImageError>>)
    ensures
        agrees(r, jpeg_spec(data@), |s: JpegScan, v: ScanView| s@ == v),
{
    let dec = match JpegDecoder::new(data) {
        Ok(dec) => dec,
        Err(e) => return Some(Err(e)),
    };
    dec.decode()
}

/// Decodes the blocks of a baseline JPEG file whose decoding does not crash: the scan, or
/// the message of the first error (see `jpeg_spec`).
pub fn decode_jpeg(data: &[u8]) -> (r: Result<JpegScan, ImageError>)
    requires
        !(jpeg_spec(data@) is Crash),
    ensures
        match jpeg_spec(data@) {
            Step::Done(v) => r matches Ok(s) && s@ == v,
            Step::Fail(m) => fails_with(r, m),
            Step::Crash => false,
        },
{
    match try_decode_jpeg(data) {
        Some(r) => r,
        None => {
            proof {
                assert(false);
            }
            Err(error("JPEG: decoding overflowed"))
        },
    }
}

} // verus!
