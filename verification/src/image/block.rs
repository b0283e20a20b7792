//! JPEG blocks: the entropy decoding and dequantisation of one 8x8 block of DCT
//! coefficients (F.2.2), the walk over the MCUs of a baseline scan, and the placement of a
//! transformed block into a component's sample plane.
use vstd::prelude::*;
use super::ImageError;
use super::scan::{
    Step, agrees, ScanState, ScanBits, HuffTable, TableView, huff_spec, get_bits_spec, extend_spec,
};

verus! {

/// Zigzag order: the `k`-th coefficient of a block's entropy-coded sequence goes to
/// position `ZIGZAG[k]` of the row-major 8x8 block.
pub const ZIGZAG: [u8; 64] = [
    0, 1, 8, 16, 9, 2, 3, 10, 17, 24, 32, 25, 18, 11, 4, 5, 12, 19, 26, 33, 40, 48, 41, 34, 27, 20,
    13, 6, 7, 14, 21, 28, 35, 42, 49, 56, 57, 50, 43, 36, 29, 22, 15, 23, 30, 37, 44, 51, 58, 59, 52,
    45, 38, 31, 39, 46, 53, 60, 61, 54, 47, 55, 62, 63,
];

pub proof fn lemma_zigzag_in_block()
    ensures
        forall|k: int| 0 <= k < 64 ==> #[trigger] ZIGZAG@[k] < 64,
{
    assert(ZIGZAG@ =~= seq![
        0u8, 1, 8, 16, 9, 2, 3, 10, 17, 24, 32, 25, 18, 11, 4, 5, 12, 19, 26, 33, 40, 48, 41, 34, 27, 20,
        13, 6, 7, 14, 21, 28, 35, 42, 49, 56, 57, 50, 43, 36, 29, 22, 15, 23, 30, 37, 44, 51, 58, 59, 52,
        45, 38, 31, 39, 46, 53, 60, 61, 54, 47, 55, 62, 63,
    ]);
}

/// The place in zigzag order of row-major position `p`: the inverse of `ZIGZAG`.
pub open spec fn zigzag_rank(p: int) -> int {
    seq![
        0int, 1, 5, 6, 14, 15, 27, 28, 2, 4, 7, 13, 16, 26, 29, 42, 3, 8, 12, 17, 25, 30, 41, 43, 9, 11,
        18, 24, 31, 40, 44, 53, 10, 19, 23, 32, 39, 45, 52, 54, 20, 22, 33, 38, 46, 51, 55, 60, 21, 34,
        37, 47, 50, 56, 59, 61, 35, 36, 48, 49, 57, 58, 62, 63,
    ][p]
}

/// `ZIGZAG` sends different places to different positions: `zigzag_rank` undoes it.
pub proof fn lemma_zigzag_rank()
    ensures
        forall|k: int| 0 <= k < 64 ==> #[trigger] zigzag_rank(ZIGZAG@[k] as int) == k,
{
    lemma_zigzag_in_block();
    assert(ZIGZAG@ =~= seq![
        0u8, 1, 8, 16, 9, 2, 3, 10, 17, 24, 32, 25, 18, 11, 4, 5, 12, 19, 26, 33, 40, 48, 41, 34, 27, 20,
        13, 6, 7, 14, 21, 28, 35, 42, 49, 56, 57, 50, 43, 36, 29, 22, 15, 23, 30, 37, 44, 51, 58, 59, 52,
        45, 38, 31, 39, 46, 53, 60, 61, 54, 47, 55, 62, 63,
    ]);
}

/// The AC coefficients from position `k` on (F.2.2.2): each symbol gives a run of zeros in
/// its high nibble and a magnitude category in its low one; (15, 0) skips sixteen zeros and
/// (r, 0) for any other `r` ends the block, as does a run that passes the last position.
pub open spec fn ac_spec(d: Seq<u8>, st: ScanState, ac: TableView, k: int, coeffs: Seq<i32>) -> Step<
    (Seq<i32>, ScanState),
>
    decreases if k < 64 { 64 - k } else { 0 },
{
    if k >= 64 {
        Step::Done((coeffs, st))
    } else {
        match huff_spec(d, st, ac) {
            Step::Fail(m) => Step::Fail(m),
            Step::Crash => Step::Crash,
            Step::Done((rs, s1)) => {
                let run = (rs >> 4u8) as int;
                let size = (rs & 15u8) as int;
                if size == 0 {
                    if run == 15 {
                        ac_spec(d, s1, ac, k + 16, coeffs)
                    } else {
                        Step::Done((coeffs, s1))
                    }
                } else if k + run >= 64 {
                    Step::Done((coeffs, s1))
                } else {
                    match get_bits_spec(d, s1, size) {
                        Step::Fail(m) => Step::Fail(m),
                        Step::Crash => Step::Crash,
                        Step::Done((v, s2)) => match extend_spec(v, size) {
                            None => Step::Crash,
                            Some(val) => ac_spec(
                                d,
                                s2,
                                ac,
                                k + run + 1,
                                coeffs.update(ZIGZAG@[k + run] as int, val as i32),
                            ),
                        },
                    }
                }
            },
        }
    }
}

/// Decoding from place `k` on leaves alone every position whose place in zigzag order
/// comes before `k`.
pub proof fn lemma_ac_keeps_earlier(d: Seq<u8>, st: ScanState, ac: TableView, k: int, coeffs: Seq<i32>, p: int)
    requires
        0 <= p < 64,
        coeffs.len() == 64,
        zigzag_rank(p) < k,
        ac_spec(d, st, ac, k, coeffs) is Done,
    ensures
        ac_spec(d, st, ac, k, coeffs)->Done_0.0[p] == coeffs[p],
    decreases if k < 64 { 64 - k } else { 0 },
{
    if k < 64 {
        if let Step::Done((rs, s1)) = huff_spec(d, st, ac) {
            let run = (rs >> 4u8) as int;
            let size = (rs & 15u8) as int;
            if size == 0 {
                if run == 15 {
                    lemma_ac_keeps_earlier(d, s1, ac, k + 16, coeffs, p);
                }
            } else if k + run < 64 {
                if let Step::Done((v, s2)) = get_bits_spec(d, s1, size) {
                    if let Some(val) = extend_spec(v, size) {
                        lemma_zigzag_rank();
                        lemma_zigzag_in_block();
                        assert(zigzag_rank(ZIGZAG@[k + run] as int) == k + run);
                        let c2 = coeffs.update(ZIGZAG@[k + run] as int, val as i32);
                        assert(c2[p] == coeffs[p]);
                        lemma_ac_keeps_earlier(d, s2, ac, k + run + 1, c2, p);
                    }
                }
            }
        }
    }
}

pub open spec fn fits_i32(v: int) -> bool {
    -0x8000_0000 <= v <= 0x7FFF_FFFF
}

/// Whether dequantising `c` by `qt` overflows `i32`.
pub open spec fn dequant_overflows(c: Seq<i32>, qt: Seq<i32>) -> bool {
    exists|i: int| 0 <= i < 64 && !fits_i32(#[trigger] c[i] as int * qt[i] as int)
}

/// A block after its AC coefficients `ac`: each coefficient multiplied by its quantiser,
/// with the new predictor `np`.
pub open spec fn block_rest(ac: Step<(Seq<i32>, ScanState)>, qt: Seq<i32>, np: i32) -> Step<
    (Seq<i32>, i32, ScanState),
> {
    match ac {
        Step::Fail(m) => Step::Fail(m),
        Step::Crash => Step::Crash,
        Step::Done((c, s3)) => if dequant_overflows(c, qt) {
            Step::Crash
        } else {
            Step::Done((Seq::new(64, |i: int| (c[i] * qt[i]) as i32), np, s3))
        },
    }
}

/// One block (F.2.2.1): the DC difference added to the predictor `pred`, the AC
/// coefficients, then each coefficient multiplied by its quantiser. The coefficients come
/// out in row-major order, with the new predictor and the reader's state.
pub open spec fn block_spec(
    d: Seq<u8>,
    st: ScanState,
    pred: i32,
    dc: TableView,
    ac: TableView,
    qt: Seq<i32>,
) -> Step<(Seq<i32>, i32, ScanState)> {
    match huff_spec(d, st, dc) {
        Step::Fail(m) => Step::Fail(m),
        Step::Crash => Step::Crash,
        Step::Done((t, s1)) => match get_bits_spec(d, s1, t as int) {
            Step::Fail(m) => Step::Fail(m),
            Step::Crash => Step::Crash,
            Step::Done((v, s2)) => match extend_spec(v, t as int) {
                None => Step::Crash,
                Some(diff) => {
                    let np = pred + diff;
                    if !fits_i32(np) {
                        Step::Crash
                    } else {
                        block_rest(
                            ac_spec(d, s2, ac, 1, Seq::new(64, |i: int| 0i32).update(0, np as i32)),
                            qt,
                            np as i32,
                        )
                    }
                },
            },
        },
    }
}

/// Decodes the coefficients of one block and updates the DC predictor; `None` where the
/// decoding would overflow (see `block_spec`).
pub fn decode_block(
    bits: &mut ScanBits,
    dc_pred: &mut i32,
    dc_table: &HuffTable,
    ac_table: &HuffTable,
    qt: &[i32],
) -> (r: Option<Result<Vec<i32>, ImageError>>)
    requires
        old(bits).wf(),
        dc_table.delta@.len() == 17,
        dc_table.maxcode@.len() == 18,
        ac_table.delta@.len() == 17,
        ac_table.maxcode@.len() == 18,
        qt@.len() == 64,
    ensures
        final(bits).wf(),
        final(bits).data@ == old(bits).data@,
        agrees(
            r,
            block_spec(old(bits).data@, old(bits).state(), *old(dc_pred), dc_table@, ac_table@, qt@),
            |v: Vec<i32>, out: (Seq<i32>, i32, ScanState)| v@ == out.0,
        ),
        block_spec(old(bits).data@, old(bits).state(), *old(dc_pred), dc_table@, ac_table@, qt@) matches Step::Done(
            out,
        ) ==> final(bits).state() == out.2 && *final(dc_pred) == out.1,
{
    let ghost d = bits.data@;
    let ghost target = block_spec(d, bits.state(), *dc_pred, dc_table@, ac_table@, qt@);
    let t = match bits.huff_decode(dc_table) {
        None => return None,
        Some(Err(e)) => return Some(Err(e)),
        Some(Ok(t)) => t,
    };
    let v = match bits.get_bits(t as i32) {
        None => return None,
        Some(Err(e)) => return Some(Err(e)),
        Some(Ok(v)) => v,
    };
    let diff = match ScanBits::extend(v, t) {
        None => return None,
        Some(x) => x,
    };
    let np: i64 = *dc_pred as i64 + diff as i64;
    if np < -0x8000_0000 || np > 0x7FFF_FFFF {
        return None;
    }
    *dc_pred = np as i32;
    let mut coeffs: Vec<i32> = vec![0i32; 64];
    coeffs.set(0, np as i32);
    let ghost s2 = bits.state();
    assert(coeffs@ =~= Seq::new(64, |i: int| 0i32).update(0, np as i32));
    proof {
        lemma_zigzag_in_block();
    }
    let mut k: usize = 1;
    while k < 64
        invariant_except_break
            bits.wf(),
            bits.data@ == d,
            d == old(bits).data@,
            target == block_spec(old(bits).data@, old(bits).state(), *old(dc_pred), dc_table@, ac_table@, qt@),
            coeffs@.len() == 64,
            qt@.len() == 64,
            ac_table.delta@.len() == 17,
            ac_table.maxcode@.len() == 18,
            forall|q: int| 0 <= q < 64 ==> #[trigger] ZIGZAG@[q] < 64,
            target == block_rest(ac_spec(d, bits.state(), ac_table@, k as int, coeffs@), qt@, np as i32),
            *dc_pred == np as i32,
        ensures
            bits.wf(),
            bits.data@ == d,
            d == old(bits).data@,
            target == block_spec(old(bits).data@, old(bits).state(), *old(dc_pred), dc_table@, ac_table@, qt@),
            coeffs@.len() == 64,
            qt@.len() == 64,
            target == block_rest(Step::Done((coeffs@, bits.state())), qt@, np as i32),
            *dc_pred == np as i32,
        decreases 64 - k,
    {
        let ghost st = bits.state();
        let rs = match bits.huff_decode(ac_table) {
            None => return None,
            Some(Err(e)) => return Some(Err(e)),
            Some(Ok(rs)) => rs,
        };
        let run = (rs >> 4) as usize;
        let size = rs & 0xF;
        if size == 0 {
            if run == 15 {
                k = k + 16;
                if k >= 64 {
                    assert(ac_spec(d, bits.state(), ac_table@, k as int, coeffs@) == Step::Done(
                        (coeffs@, bits.state()),
                    ));
                    break;
                }
            } else {
                break;
            }
        } else {
            k = k + run;
            if k >= 64 {
                break;
            }
            let v = match bits.get_bits(size as i32) {
                None => return None,
                Some(Err(e)) => return Some(Err(e)),
                Some(Ok(v)) => v,
            };
            let val = match ScanBits::extend(v, size) {
                None => return None,
                Some(x) => x,
            };
            coeffs.set(ZIGZAG[k] as usize, val);
            k = k + 1;
        }
    }
    let ghost c = coeffs@;
    let mut i: usize = 0;
    while i < 64
        invariant
            i <= 64,
            coeffs@.len() == 64,
            qt@.len() == 64,
            bits.wf(),
            bits.data@ == d,
            d == old(bits).data@,
            target == block_spec(old(bits).data@, old(bits).state(), *old(dc_pred), dc_table@, ac_table@, qt@),
            target == block_rest(Step::Done((c, bits.state())), qt@, np as i32),
            *dc_pred == np as i32,
            forall|q: int| i <= q < 64 ==> coeffs@[q] == c[q],
            forall|q: int| 0 <= q < i ==> #[trigger] coeffs@[q] == (c[q] * qt@[q]) as i32,
            forall|q: int| 0 <= q < i ==> fits_i32(#[trigger] c[q] as int * qt@[q] as int),
        decreases 64 - i,
    {
        let a = coeffs[i];
        let b = qt[i];
        proof {
            assert(-0x4000_0000_0000_0000 <= a as int * b as int <= 0x4000_0000_0000_0000) by (nonlinear_arith)
                requires
                    -0x8000_0000 <= a <= 0x7FFF_FFFF,
                    -0x8000_0000 <= b <= 0x7FFF_FFFF,
            ;
        }
        let p: i64 = a as i64 * b as i64;
        if p < -0x8000_0000 || p > 0x7FFF_FFFF {
            assert(!fits_i32(c[i as int] as int * qt@[i as int] as int));
            return None;
        }
        coeffs.set(i, p as i32);
        i = i + 1;
    }
    assert(coeffs@ =~= Seq::new(64, |q: int| (c[q] * qt@[q]) as i32));
    Some(Ok(coeffs))
}

// ─── The scan ───────────────────────────────────────────────

/// A frame component: its id, sampling factors and quantisation table.
#[derive(Clone, Copy, Debug)]
pub struct Component {
    pub id: u8,
    pub h_samp: u8,
    pub v_samp: u8,
    pub qt_id: u8,
}

/// A component of a scan: its index among the frame's components and the ids of its DC
/// and AC tables.
#[derive(Clone, Copy, Debug)]
pub struct ScanEntry {
    pub ci: usize,
    pub dc_id: u8,
    pub ac_id: u8,
}

/// A decoded block of component `ci` whose top left sample is at (`bx`, `by`) of the
/// component's plane: dequantised coefficients, row-major.
#[derive(Debug)]
pub struct Block {
    pub ci: usize,
    pub bx: usize,
    pub by: usize,
    pub coeffs: Vec<i32>,
}

#[verifier::ext_equal]
pub struct BlockView {
    pub ci: int,
    pub bx: int,
    pub by: int,
    pub coeffs: Seq<i32>,
}

impl View for Block {
    type V = BlockView;

    open spec fn view(&self) -> BlockView {
        BlockView { ci: self.ci as int, bx: self.bx as int, by: self.by as int, coeffs: self.coeffs@ }
    }
}

pub open spec fn blocks_view(v: Seq<Block>) -> Seq<BlockView> {
    v.map_values(|b: Block| b@)
}

pub open spec fn tables_view(v: Seq<HuffTable>) -> Seq<TableView> {
    v.map_values(|t: HuffTable| t@)
}

/// What the walk over a scan reads: the scan data, the frame's components, the scan's
/// components, the Huffman tables, the four quantisation tables (64 entries each, in
/// order), the restart interval and the MCU grid.
pub struct ScanCtx {
    pub data: Seq<u8>,
    pub comps: Seq<Component>,
    pub order: Seq<ScanEntry>,
    pub dc: Seq<TableView>,
    pub ac: Seq<TableView>,
    pub qt: Seq<i32>,
    pub restart: int,
    pub mcus_x: int,
    pub mcus: int,
}

/// Quantisation table `id`.
pub open spec fn qt_row(qt: Seq<i32>, id: int) -> Seq<i32> {
    qt.subrange(id * 64, id * 64 + 64)
}

/// The vertical sampling factor of the scan's `j`-th component.
pub open spec fn v_of(c: ScanCtx, j: int) -> int {
    if 0 <= j < c.order.len() {
        c.comps[c.order[j].ci as int].v_samp as int
    } else {
        0
    }
}

/// The horizontal sampling factor of the scan's `j`-th component.
pub open spec fn h_of(c: ScanCtx, j: int) -> int {
    if 0 <= j < c.order.len() {
        c.comps[c.order[j].ci as int].h_samp as int
    } else {
        0
    }
}

/// The DC predictors at the start of MCU `m`: all zero at each restart interval.
pub open spec fn reset_for(restart: int, m: int, preds: Seq<i32>) -> Seq<i32> {
    if restart > 0 && m > 0 && m % restart == 0 {
        Seq::new(preds.len(), |i: int| 0i32)
    } else {
        preds
    }
}

/// The walk over the scan from block (`hx`, `vy`) of the scan's `j`-th component in MCU `m`:
/// MCUs in raster order, in each the scan's components in order, in each its blocks row by
/// row. `blocks` holds the blocks decoded so far, `preds` the DC predictors. A table id or
/// quantisation table id of 4 or more would index out of range.
pub open spec fn scan_from(
    c: ScanCtx,
    st: ScanState,
    preds: Seq<i32>,
    blocks: Seq<BlockView>,
    m: int,
    j: int,
    vy: int,
    hx: int,
) -> Step<(Seq<BlockView>, ScanState)>
    decreases c.mcus - m, c.order.len() - j, v_of(c, j) - vy, h_of(c, j) - hx,
{
    if m >= c.mcus {
        Step::Done((blocks, st))
    } else if j >= c.order.len() {
        scan_from(c, st, reset_for(c.restart, m + 1, preds), blocks, m + 1, 0, 0, 0)
    } else if vy >= v_of(c, j) {
        scan_from(c, st, preds, blocks, m, j + 1, 0, 0)
    } else if hx >= h_of(c, j) {
        scan_from(c, st, preds, blocks, m, j, vy + 1, 0)
    } else {
        let e = c.order[j];
        let comp = c.comps[e.ci as int];
        if e.dc_id >= 4 || e.ac_id >= 4 || comp.qt_id >= 4 {
            Step::Crash
        } else {
            match block_spec(
                c.data,
                st,
                preds[e.ci as int],
                c.dc[e.dc_id as int],
                c.ac[e.ac_id as int],
                qt_row(c.qt, comp.qt_id as int),
            ) {
                Step::Fail(msg) => Step::Fail(msg),
                Step::Crash => Step::Crash,
                Step::Done((coeffs, np, s2)) => {
                    let b = BlockView {
                        ci: e.ci as int,
                        bx: (m % c.mcus_x) * h_of(c, j) * 8 + hx * 8,
                        by: (m / c.mcus_x) * v_of(c, j) * 8 + vy * 8,
                        coeffs,
                    };
                    scan_from(c, s2, preds.update(e.ci as int, np), blocks.push(b), m, j, vy, hx + 1)
                },
            }
        }
    }
}

pub open spec fn scan_ctx(
    data: Seq<u8>,
    comps: Seq<Component>,
    order: Seq<ScanEntry>,
    dc: Seq<HuffTable>,
    ac: Seq<HuffTable>,
    qt: Seq<i32>,
    restart: u32,
    mcus_x: usize,
    mcus_y: usize,
) -> ScanCtx {
    ScanCtx {
        data,
        comps,
        order,
        dc: tables_view(dc),
        ac: tables_view(ac),
        qt,
        restart: restart as int,
        mcus_x: mcus_x as int,
        mcus: mcus_x * mcus_y,
    }
}

pub open spec fn table_ok(t: HuffTable) -> bool {
    t.delta@.len() == 17 && t.maxcode@.len() == 18
}

/// The walk over a whole scan from the start of `data`, with all predictors zero.
pub open spec fn scan_spec(c: ScanCtx) -> Step<(Seq<BlockView>, ScanState)> {
    scan_from(
        c,
        ScanState { pos: 0, buf: 0, bits_in: 0 },
        Seq::new(c.comps.len(), |i: int| 0i32),
        Seq::empty(),
        0,
        0,
        0,
        0,
    )
}

/// Decodes every block of a baseline scan (see `scan_from`); `None` where decoding would
/// overflow or index a table out of range.
pub fn decode_scan(
    data: &[u8],
    comps: &Vec<Component>,
    order: &Vec<ScanEntry>,
    dc: &Vec<HuffTable>,
    ac: &Vec<HuffTable>,
    qt: &Vec<i32>,
    restart: u32,
    mcus_x: usize,
    mcus_y: usize,
) -> (r: Option<Result<Vec<Block>, ImageError>>)
    requires
        dc@.len() == 4,
        ac@.len() == 4,
        forall|i: int| 0 <= i < 4 ==> table_ok(#[trigger] dc@[i]),
        forall|i: int| 0 <= i < 4 ==> table_ok(#[trigger] ac@[i]),
        qt@.len() == 256,
        forall|j: int| 0 <= j < order@.len() ==> #[trigger] order@[j].ci < comps@.len(),
        forall|i: int| 0 <= i < comps@.len() ==> #[trigger] comps@[i].h_samp <= 15 && comps@[i].v_samp <= 15,
        1 <= mcus_x <= 8192,
        mcus_y <= 8192,
    ensures
        agrees(
            r,
            scan_spec(scan_ctx(data@, comps@, order@, dc@, ac@, qt@, restart, mcus_x, mcus_y)),
            |v: Vec<Block>, out: (Seq<BlockView>, ScanState)| blocks_view(v@) == out.0,
        ),
{
    let ghost c = scan_ctx(data@, comps@, order@, dc@, ac@, qt@, restart, mcus_x, mcus_y);
    let ghost target = scan_spec(c);
    let mut bits = ScanBits::new(data);
    let mut preds: Vec<i32> = vec![0i32; comps.len()];
    let mut blocks: Vec<Block> = Vec::new();
    proof {
        assert(mcus_x * mcus_y <= 8192 * 8192) by (nonlinear_arith)
            requires
                mcus_x <= 8192,
                mcus_y <= 8192,
        ;
        assert(blocks_view(blocks@) =~= Seq::<BlockView>::empty());
        assert(reset_for(c.restart, 0, preds@) == preds@);
        assert(preds@ =~= Seq::new(comps@.len(), |i: int| 0i32));
    }
    let mcus: usize = mcus_x * mcus_y;
    let mut m: usize = 0;
    while m < mcus
        invariant
            c == scan_ctx(data@, comps@, order@, dc@, ac@, qt@, restart, mcus_x, mcus_y),
            target == scan_spec(c),
            mcus == mcus_x * mcus_y,
            mcus <= 8192 * 8192,
            1 <= mcus_x <= 8192,
            mcus_y <= 8192,
            m <= mcus,
            bits.wf(),
            bits.data@ == data@,
            preds@.len() == comps@.len(),
            dc@.len() == 4,
            ac@.len() == 4,
            forall|i: int| 0 <= i < 4 ==> table_ok(#[trigger] dc@[i]),
            forall|i: int| 0 <= i < 4 ==> table_ok(#[trigger] ac@[i]),
            qt@.len() == 256,
            forall|j: int| 0 <= j < order@.len() ==> #[trigger] order@[j].ci < comps@.len(),
            forall|i: int| 0 <= i < comps@.len() ==> #[trigger] comps@[i].h_samp <= 15 && comps@[i].v_samp
                <= 15,
            target == scan_from(
                c,
                bits.state(),
                reset_for(c.restart, m as int, preds@),
                blocks_view(blocks@),
                m as int,
                0,
                0,
                0,
            ),
        decreases mcus - m,
    {
        if restart > 0 && m > 0 && (m as u32) % restart == 0 {
            let mut i: usize = 0;
            let n = preds.len();
            while i < n
                invariant
                    n == preds@.len(),
                    i <= n,
                    forall|q: int| 0 <= q < i ==> preds@[q] == 0,
                decreases n - i,
            {
                preds.set(i, 0);
                i = i + 1;
            }
            assert(preds@ =~= Seq::new(preds@.len(), |i: int| 0i32));
        }
        let mx = m % mcus_x;
        let my = m / mcus_x;
        proof {
            assert(my < mcus_y) by (nonlinear_arith)
                requires
                    m < mcus_x * mcus_y,
                    mcus_x >= 1,
                    my == m / mcus_x,
            ;
        }
        let mut j: usize = 0;
        while j < order.len()
            invariant
                c == scan_ctx(data@, comps@, order@, dc@, ac@, qt@, restart, mcus_x, mcus_y),
                target == scan_spec(c),
                mcus == mcus_x * mcus_y,
                mcus <= 8192 * 8192,
                1 <= mcus_x <= 8192,
                mcus_y <= 8192,
                m < mcus,
                mx == m % mcus_x,
                my == m / mcus_x,
                mx < mcus_x,
                my < mcus_y,
                j <= order@.len(),
                bits.wf(),
                bits.data@ == data@,
                preds@.len() == comps@.len(),
                dc@.len() == 4,
                ac@.len() == 4,
                forall|i: int| 0 <= i < 4 ==> table_ok(#[trigger] dc@[i]),
                forall|i: int| 0 <= i < 4 ==> table_ok(#[trigger] ac@[i]),
                qt@.len() == 256,
                forall|q: int| 0 <= q < order@.len() ==> #[trigger] order@[q].ci < comps@.len(),
                forall|i: int| 0 <= i < comps@.len() ==> #[trigger] comps@[i].h_samp <= 15 && comps@[i].v_samp
                    <= 15,
                target == scan_from(c, bits.state(), preds@, blocks_view(blocks@), m as int, j as int, 0, 0),
            decreases order@.len() - j,
        {
            let e = order[j];
            let comp = comps[e.ci];
            let h = comp.h_samp as usize;
            let v = comp.v_samp as usize;
            let mut vy: usize = 0;
            while vy < v
                invariant
                    c == scan_ctx(data@, comps@, order@, dc@, ac@, qt@, restart, mcus_x, mcus_y),
                    target == scan_spec(c),
                    1 <= mcus_x <= 8192,
                    mcus_y <= 8192,
                    m < mcus_x * mcus_y,
                    mx == m % mcus_x,
                    my == m / mcus_x,
                    mx < mcus_x,
                    my < mcus_y,
                    j < order@.len(),
                    e == order@[j as int],
                    e.ci < comps@.len(),
                    comp == comps@[e.ci as int],
                    h == h_of(c, j as int),
                    v == v_of(c, j as int),
                    h <= 15,
                    v <= 15,
                    vy <= v,
                    bits.wf(),
                    bits.data@ == data@,
                    preds@.len() == comps@.len(),
                    dc@.len() == 4,
                    ac@.len() == 4,
                    forall|i: int| 0 <= i < 4 ==> table_ok(#[trigger] dc@[i]),
                    forall|i: int| 0 <= i < 4 ==> table_ok(#[trigger] ac@[i]),
                    qt@.len() == 256,
                    target == scan_from(
                        c,
                        bits.state(),
                        preds@,
                        blocks_view(blocks@),
                        m as int,
                        j as int,
                        vy as int,
                        0,
                    ),
                decreases v - vy,
            {
                let mut hx: usize = 0;
                while hx < h
                    invariant
                        c == scan_ctx(data@, comps@, order@, dc@, ac@, qt@, restart, mcus_x, mcus_y),
                        target == scan_spec(c),
                        1 <= mcus_x <= 8192,
                        mcus_y <= 8192,
                        m < mcus_x * mcus_y,
                        mx == m % mcus_x,
                        my == m / mcus_x,
                        mx < mcus_x,
                        my < mcus_y,
                        j < order@.len(),
                        e == order@[j as int],
                        e.ci < comps@.len(),
                        comp == comps@[e.ci as int],
                        h == h_of(c, j as int),
                        v == v_of(c, j as int),
                        h <= 15,
                        v <= 15,
                        vy < v,
                        hx <= h,
                        bits.wf(),
                        bits.data@ == data@,
                        preds@.len() == comps@.len(),
                        dc@.len() == 4,
                        ac@.len() == 4,
                        forall|i: int| 0 <= i < 4 ==> table_ok(#[trigger] dc@[i]),
                        forall|i: int| 0 <= i < 4 ==> table_ok(#[trigger] ac@[i]),
                        qt@.len() == 256,
                        target == scan_from(
                            c,
                            bits.state(),
                            preds@,
                            blocks_view(blocks@),
                            m as int,
                            j as int,
                            vy as int,
                            hx as int,
                        ),
                    decreases h - hx,
                {
                    if e.dc_id >= 4 || e.ac_id >= 4 || comp.qt_id >= 4 {
                        return None;
                    }
                    let qid = comp.qt_id as usize;
                    let row = vstd::slice::slice_subrange(qt.as_slice(), qid * 64, qid * 64 + 64);
                    assert(row@ == qt_row(qt@, qid as int));
                    let mut p = preds[e.ci];
                    let dct = &dc[e.dc_id as usize];
                    let act = &ac[e.ac_id as usize];
                    assert(dct@ == c.dc[e.dc_id as int]);
                    assert(act@ == c.ac[e.ac_id as int]);
                    let coeffs = match decode_block(&mut bits, &mut p, dct, act, row) {
                        None => return None,
                        Some(Err(err)) => return Some(Err(err)),
                        Some(Ok(cf)) => cf,
                    };
                    preds.set(e.ci, p);
                    proof {
                        assert(mx * h * 8 + hx * 8 <= 8192 * 15 * 8 + 15 * 8) by (nonlinear_arith)
                            requires
                                mx < 8192,
                                h <= 15,
                                hx < 15,
                        ;
                        assert(my * v * 8 + vy * 8 <= 8192 * 15 * 8 + 15 * 8) by (nonlinear_arith)
                            requires
                                my < 8192,
                                v <= 15,
                                vy < 15,
                        ;
                    }
                    let b = Block { ci: e.ci, bx: mx * h * 8 + hx * 8, by: my * v * 8 + vy * 8, coeffs };
                    let ghost old_blocks = blocks@;
                    blocks.push(b);
                    assert(blocks_view(blocks@) =~= blocks_view(old_blocks).push(b@));
                    hx = hx + 1;
                }
                vy = vy + 1;
            }
            j = j + 1;
        }
        m = m + 1;
    }
    Some(Ok(blocks))
}

// ─── Sample planes ──────────────────────────────────────────

/// Whether sample `i` of a plane `pw` wide lies in the 8x8 block at (`bx`, `by`).
pub open spec fn in_block(pw: int, bx: int, by: int, i: int) -> bool {
    bx <= i % pw < bx + 8 && by <= i / pw < by + 8
}

/// The position within the block at (`bx`, `by`) of sample `i`, row-major.
pub open spec fn block_index(pw: int, bx: int, by: int, i: int) -> int {
    (i / pw - by) * 8 + (i % pw - bx)
}

/// A plane `pw` samples wide after writing the 8x8 `block` with its top left at (`bx`, `by`);
/// samples of the block outside the plane are dropped.
pub open spec fn placed(plane: Seq<i32>, pw: int, bx: int, by: int, block: Seq<i32>) -> Seq<i32> {
    Seq::new(
        plane.len(),
        |i: int|
            if in_block(pw, bx, by, i) {
                block[block_index(pw, bx, by, i)]
            } else {
                plane[i]
            },
    )
}

proof fn lemma_sample_at(pw: int, ph: int, px: int, py: int)
    requires
        0 <= px < pw,
        0 <= py < ph,
    ensures
        0 <= py * pw + px < pw * ph,
        (py * pw + px) % pw == px,
        (py * pw + px) / pw == py,
{
    assert(0 <= py * pw + px < pw * ph) by (nonlinear_arith)
        requires
            0 <= px < pw,
            0 <= py < ph,
    ;
    vstd::arithmetic::div_mod::lemma_fundamental_div_mod_converse(py * pw + px, pw, py, px);
}

proof fn lemma_sample_in_plane(pw: int, ph: int, i: int)
    requires
        0 <= i < pw * ph,
        pw >= 0,
        ph >= 0,
    ensures
        0 <= i % pw < pw,
        0 <= i / pw < ph,
        i == pw * (i / pw) + i % pw,
{
    assert(pw > 0) by (nonlinear_arith)
        requires
            0 <= i < pw * ph,
            pw >= 0,
            ph >= 0,
    ;
    vstd::arithmetic::div_mod::lemma_fundamental_div_mod(i, pw);
    vstd::arithmetic::div_mod::lemma_mod_bound(i, pw);
    vstd::arithmetic::div_mod::lemma_div_pos_is_pos(i, pw);
    assert(i / pw < ph) by (nonlinear_arith)
        requires
            i == pw * (i / pw) + i % pw,
            0 <= i % pw,
            i < pw * ph,
            pw > 0,
    ;
}

/// Writes an 8x8 block of samples into a plane `pw` by `ph` (see `placed`).
pub fn place_block(plane: &mut Vec<i32>, pw: usize, ph: usize, bx: usize, by: usize, block: &[i32])
    requires
        old(plane)@.len() == pw * ph,
        block@.len() == 64,
        bx + 8 <= usize::MAX,
        by + 8 <= usize::MAX,
    ensures
        final(plane)@ == placed(old(plane)@, pw as int, bx as int, by as int, block@),
{
    let ghost p0 = plane@;
    let n = plane.len();
    let mut k: usize = 0;
    while k < 64
        invariant
            k <= 64,
            n == pw * ph,
            plane@.len() == pw * ph,
            p0.len() == pw * ph,
            block@.len() == 64,
            bx + 8 <= usize::MAX,
            by + 8 <= usize::MAX,
            forall|i: int|
                0 <= i < pw * ph ==> #[trigger] plane@[i] == if in_block(pw as int, bx as int, by as int, i)
                    && block_index(pw as int, bx as int, by as int, i) < k {
                    block@[block_index(pw as int, bx as int, by as int, i)]
                } else {
                    p0[i]
                },
        decreases 64 - k,
    {
        let row = k / 8;
        let col = k % 8;
        let px = bx + col;
        let py = by + row;
        let ghost before = plane@;
        if px < pw && py < ph {
            proof {
                lemma_sample_at(pw as int, ph as int, px as int, py as int);
            }
            plane.set(py * pw + px, block[k]);
        }
        proof {
            assert forall|i: int| 0 <= i < pw * ph implies #[trigger] plane@[i] == if in_block(
                pw as int,
                bx as int,
                by as int,
                i,
            ) && block_index(pw as int, bx as int, by as int, i) < k + 1 {
                block@[block_index(pw as int, bx as int, by as int, i)]
            } else {
                p0[i]
            } by {
                lemma_sample_in_plane(pw as int, ph as int, i);
                let qx = i % (pw as int);
                let qy = i / (pw as int);
                if in_block(pw as int, bx as int, by as int, i) && block_index(pw as int, bx as int, by as int, i)
                    == k {
                    assert(qy - by == k / 8 && qx - bx == k % 8);
                    assert(qx == px && qy == py);
                    vstd::arithmetic::mul::lemma_mul_is_commutative(pw as int, qy);
                    assert(i == py * pw + px);
                } else if px < pw && py < ph && i == py * pw + px {
                    lemma_sample_at(pw as int, ph as int, px as int, py as int);
                    assert(block_index(pw as int, bx as int, by as int, i) == k);
                }
            }
        }
        k = k + 1;
    }
    assert(plane@ =~= placed(p0, pw as int, bx as int, by as int, block@));
}

/// `v` clamped to 0..=255.
pub fn clamp8(v: i32) -> (r: u8)
    ensures
        r as int == if v < 0 {
            0
        } else if v > 255 {
            255
        } else {
            v as int
        },
{
    if v < 0 {
        0
    } else if v > 255 {
        255
    } else {
        v as u8
    }
}

} // verus!
