use retrox::image::block::{clamp8, place_block, Block, Component, ZIGZAG};
use retrox::image::filter::{paeth, unfilter, sub_byte, sub_byte_or_8, sub_index};
use retrox::image::inflate::{inflate_deflate, inflate_zlib, BitReader, HuffTree};
use retrox::image::jpeg::{decode_jpeg, try_decode_jpeg, JpegScan};
use retrox::image::planes::{assemble_planes, color_samples, gray_image};
use retrox::image::load::{decode_image, Decoded};
use retrox::image::png::{decode_png, try_decode_png};
use retrox::image::scan::{HuffTable, ScanBits};
use retrox::image::{error, ImageError};

fn err_msg<T>(r: Result<T, ImageError>) -> String {
    match r {
        Ok(_) => panic!("expected an error"),
        Err(e) => e.0,
    }
}

fn chunk(tag: &[u8], body: &[u8]) -> Vec<u8> {
    let mut v = (body.len() as u32).to_be_bytes().to_vec();
    v.extend_from_slice(tag);
    v.extend_from_slice(body);
    v.extend_from_slice(&[0, 0, 0, 0]);
    v
}

/// A zlib stream of one stored block holding `payload`.
fn stored_zlib(payload: &[u8]) -> Vec<u8> {
    let n = payload.len() as u16;
    let mut v = vec![0x78, 0x01, 0x01];
    v.extend_from_slice(&n.to_le_bytes());
    v.extend_from_slice(&(!n).to_le_bytes());
    v.extend_from_slice(payload);
    v.extend_from_slice(&[0, 0, 0, 0]);
    v
}

fn png(width: u32, height: u32, depth: u8, color: u8, extra: &[Vec<u8>], rows: &[u8]) -> Vec<u8> {
    let mut v = vec![0x89, 0x50, 0x4E, 0x47, 0x0D, 0x0A, 0x1A, 0x0A];
    let mut ihdr = width.to_be_bytes().to_vec();
    ihdr.extend_from_slice(&height.to_be_bytes());
    ihdr.extend_from_slice(&[depth, color, 0, 0, 0]);
    v.extend(chunk(b"IHDR", &ihdr));
    for c in extra {
        v.extend_from_slice(c);
    }
    v.extend(chunk(b"IDAT", &stored_zlib(rows)));
    v.extend(chunk(b"IEND", &[]));
    v
}

// ─── DEFLATE ───────────────────────────────────────────────

#[test]
fn inflate_stored_block() {
    assert_eq!(inflate_zlib(&stored_zlib(b"hello")).unwrap(), b"hello".to_vec());
    assert_eq!(err_msg(inflate_zlib(&[0x78, 0x01, 0x01])), "ZLIB data too short");
}

#[test]
fn inflate_fixed_block() {
    // "a" as a fixed-Huffman block: BFINAL 1, BTYPE 01, literal 0x61 (code 10010001),
    // end of block (code 0000000).
    assert_eq!(inflate_deflate(&[0x4B, 0x04, 0x00]).unwrap(), b"a".to_vec());
}

#[test]
fn inflate_errors() {
    assert_eq!(err_msg(inflate_deflate(&[0x07])), "DEFLATE invalid block type");
    assert_eq!(err_msg(inflate_deflate(&[0x01, 0x05, 0x00, 0x00, 0x00])), "DEFLATE stored block LEN/NLEN mismatch");
    assert_eq!(err_msg(inflate_deflate(&[])), "Unexpected end of DEFLATE stream");
}

#[test]
fn bit_reader_reads_low_bits_first() {
    let data = [0b1010_1100u8, 0xFF];
    let mut b = BitReader::new(&data);
    assert_eq!(b.read_bits(3).unwrap(), 0b100);
    assert_eq!(b.read_bits(5).unwrap(), 0b10101);
    b.byte_align();
    assert_eq!(b.read_byte().unwrap(), 0xFF);
    assert!(b.read_bits(1).is_err());
}

#[test]
fn huffman_tree_decodes_canonical_codes() {
    // Lengths 1, 2, 2: codes 0, 10, 11.
    let t = HuffTree::build(&[1, 2, 2]);
    let data = [0b0000_1110u8];
    let mut b = BitReader::new(&data);
    assert_eq!(t.decode(&mut b).unwrap(), 0);
    assert_eq!(t.decode(&mut b).unwrap(), 2);
    assert_eq!(t.decode(&mut b).unwrap(), 1);
}

// ─── PNG ───────────────────────────────────────────────────

#[test]
fn png_rgb_pixel() {
    let img = decode_png(&png(1, 1, 8, 2, &[], &[0, 255, 0, 0])).unwrap();
    assert_eq!((img.width, img.height), (1, 1));
    assert_eq!(img.get_pixel(0, 0), (255, 0, 0, 255));
}

#[test]
fn png_gray_alpha_and_filters() {
    // Two rows of two gray+alpha pixels; the second row uses the Up filter.
    let rows = [0, 10, 20, 30, 40, 2, 1, 1, 1, 1];
    let img = decode_png(&png(2, 2, 8, 4, &[], &rows)).unwrap();
    assert_eq!(img.get_pixel(0, 0), (10, 10, 10, 20));
    assert_eq!(img.get_pixel(1, 0), (30, 30, 30, 40));
    assert_eq!(img.get_pixel(0, 1), (11, 11, 11, 21));
    assert_eq!(img.get_pixel(1, 1), (31, 31, 31, 41));
}

#[test]
fn png_indexed_two_bit_looks_up_each_index() {
    // Indices 0, 1, 2, 3 packed in one byte pick the four palette entries in turn.
    let plte = chunk(b"PLTE", &[9, 8, 7, 255, 0, 0, 0, 255, 0, 0, 0, 255]);
    let img = decode_png(&png(4, 1, 2, 3, &[plte], &[0, 0b0001_1011])).unwrap();
    assert_eq!(img.get_pixel(0, 0), (9, 8, 7, 255));
    assert_eq!(img.get_pixel(1, 0), (255, 0, 0, 255));
    assert_eq!(img.get_pixel(2, 0), (0, 255, 0, 255));
    assert_eq!(img.get_pixel(3, 0), (0, 0, 255, 255));
}

#[test]
fn png_indexed_one_bit() {
    // A 2x1 image with 1-bit indices 0 then 1.
    let plte = chunk(b"PLTE", &[255, 0, 0, 0, 0, 255]);
    let img = decode_png(&png(2, 1, 1, 3, &[plte], &[0, 0b0100_0000])).unwrap();
    assert_eq!(img.pixels, vec![255, 0, 0, 255, 0, 0, 255, 255]);
}

#[test]
fn png_indexed_four_bit_past_the_palette_reads_black() {
    let plte = chunk(b"PLTE", &[1, 2, 3, 4, 5, 6]);
    let img = decode_png(&png(2, 1, 4, 3, &[plte], &[0, 0x1F])).unwrap();
    assert_eq!(img.get_pixel(0, 0), (4, 5, 6, 255));
    assert_eq!(img.get_pixel(1, 0), (0, 0, 0, 255));
}

#[test]
fn palette_indices_are_not_scaled() {
    assert_eq!(sub_index(&[0b1011_0001], 0, 1), 1);
    assert_eq!(sub_index(&[0b1011_0001], 1, 2), 3);
    assert_eq!(sub_index(&[0b1011_0001], 1, 4), 1);
    assert_eq!(sub_byte_or_8(&[0b1011_0001], 0, 4, 1), 0xB);
    assert_eq!(sub_byte_or_8(&[7, 9], 1, 8, 1), 9);
}

#[test]
fn png_indexed_eight_bit() {
    let plte = chunk(b"PLTE", &[9, 8, 7, 1, 2, 3]);
    let img = decode_png(&png(2, 1, 8, 3, &[plte], &[0, 1, 0])).unwrap();
    assert_eq!(img.get_pixel(0, 0), (1, 2, 3, 255));
    assert_eq!(img.get_pixel(1, 0), (9, 8, 7, 255));
}

#[test]
fn png_errors() {
    assert_eq!(err_msg(decode_png(b"GIF89a..")), "Not a valid PNG file");
    assert_eq!(err_msg(decode_png(&[0x89, 0x50])), "Unexpected end of PNG");
    assert_eq!(err_msg(decode_png(&png(0, 1, 8, 2, &[], &[0]))), "PNG has zero dimensions");
    assert_eq!(err_msg(decode_png(&png(1, 1, 8, 5, &[], &[0, 0]))), "Unknown PNG color type 5");
    assert_eq!(err_msg(decode_png(&png(1, 1, 8, 2, &[], &[9, 1, 2, 3]))), "Unknown PNG filter type 9");
    assert_eq!(
        err_msg(decode_png(&png(1, 2, 8, 2, &[], &[0, 1, 2, 3]))),
        "PNG data truncated at row 1 (have 0 bytes, need 4)"
    );
    let plte = chunk(b"PLTE", &[1, 2]);
    assert_eq!(err_msg(decode_png(&png(1, 1, 8, 3, &[plte], &[0, 0]))), "PLTE length not divisible by 3");
    let mut interlaced = png(1, 1, 8, 2, &[], &[0, 1, 2, 3]);
    interlaced[28] = 1;
    assert_eq!(err_msg(decode_png(&interlaced)), "Interlaced PNG not supported");
    assert!(try_decode_png(&png(1, 1, 8, 2, &[], &[0, 1, 2, 3])).is_some());
}

#[test]
fn filters() {
    assert_eq!(paeth(10, 20, 10), 20);
    assert_eq!(paeth(10, 20, 20), 10);
    assert_eq!(paeth(5, 5, 5), 5);
    assert_eq!(unfilter(1, &[1, 2, 3, 4], &[0, 0, 0, 0], 2).unwrap(), vec![1, 2, 4, 6]);
    assert_eq!(unfilter(3, &[10, 10], &[4, 6], 1).unwrap(), vec![12, 19]);
    assert_eq!(err_msg(unfilter(7, &[1], &[0], 1)), "Unknown PNG filter type 7");
    assert_eq!(sub_byte(&[0b1011_0001], 0, 1), 255);
    assert_eq!(sub_byte(&[0b1011_0001], 1, 1), 0);
    assert_eq!(sub_byte(&[0b1011_0001], 1, 4), 0x11);
}

// ─── JPEG ──────────────────────────────────────────────────

/// A baseline 8x8 grayscale JPEG: every quantiser 1, one-symbol DC and AC tables whose
/// single code is the bit 0 (DC category `dc_cat`, AC end of block), then `scan`.
fn gray_jpeg(dc_cat: u8, scan: &[u8]) -> Vec<u8> {
    let mut v = vec![0xFF, 0xD8];
    v.extend_from_slice(&[0xFF, 0xDB, 0x00, 0x43, 0x00]);
    v.extend_from_slice(&[1u8; 64]);
    v.extend_from_slice(&[0xFF, 0xC0, 0x00, 0x0B, 0x08, 0x00, 0x08, 0x00, 0x08, 0x01, 0x01, 0x11, 0x00]);
    v.extend_from_slice(&[0xFF, 0xC4, 0x00, 0x14, 0x00, 1, 0, 0, 0, 0, 0, 0, 0, 0, 0, 0, 0, 0, 0, 0, 0, dc_cat]);
    v.extend_from_slice(&[0xFF, 0xC4, 0x00, 0x14, 0x10, 1, 0, 0, 0, 0, 0, 0, 0, 0, 0, 0, 0, 0, 0, 0, 0, 0x00]);
    v.extend_from_slice(&[0xFF, 0xDA, 0x00, 0x08, 0x01, 0x01, 0x00, 0x00, 0x3F, 0x00]);
    v.extend_from_slice(scan);
    v.extend_from_slice(&[0xFF, 0xD9]);
    v
}

#[test]
fn jpeg_flat_block() {
    let s = decode_jpeg(&gray_jpeg(0, &[0x00])).unwrap();
    assert_eq!((s.width, s.height), (8, 8));
    assert_eq!((s.max_h, s.max_v, s.pw, s.ph), (1, 1, 8, 8));
    assert_eq!(s.comps.len(), 1);
    assert_eq!(s.blocks.len(), 1);
    assert_eq!((s.blocks[0].ci, s.blocks[0].bx, s.blocks[0].by), (0, 0, 0));
    assert_eq!(s.blocks[0].coeffs, vec![0; 64]);
}

#[test]
fn jpeg_dc_coefficient() {
    // DC code 0 (category 2), value bits 11 (3), AC code 0 (end of block): 0110 0000.
    let s = decode_jpeg(&gray_jpeg(2, &[0x60])).unwrap();
    let mut expected = vec![0; 64];
    expected[0] = 3;
    assert_eq!(s.blocks[0].coeffs, expected);
    // Value bits 00 are the negative value -3.
    let s = decode_jpeg(&gray_jpeg(2, &[0x00])).unwrap();
    assert_eq!(s.blocks[0].coeffs[0], -3);
}

#[test]
fn jpeg_errors() {
    assert_eq!(err_msg(decode_jpeg(&[0x89, 0x50, 0x4E, 0x47])), "Not a JPEG file (missing SOI)");
    assert_eq!(err_msg(decode_jpeg(&[0xFF, 0xD8, 0xFF, 0xD9])), "JPEG ended before scan data");
    assert_eq!(err_msg(decode_jpeg(&[0xFF, 0xD8, 0x00, 0x00])), "Unexpected end of JPEG");
    assert_eq!(
        err_msg(decode_jpeg(&[0xFF, 0xD8, 0xFF, 0xDB, 0x00, 0x43, 0x05])),
        "JPEG: DQT table id 5 out of range"
    );
    assert_eq!(
        err_msg(decode_jpeg(&[0xFF, 0xD8, 0xFF, 0xC0, 0x00, 0x0B, 0x0C])),
        "JPEG: unsupported precision 12 (only 8-bit supported)"
    );
    assert_eq!(
        err_msg(decode_jpeg(&[0xFF, 0xD8, 0xFF, 0xC0, 0x00, 0x0B, 0x08, 0, 8, 0, 8, 2])),
        "JPEG: unsupported component count 2"
    );
    assert_eq!(
        err_msg(decode_jpeg(&[0xFF, 0xD8, 0xFF, 0xDA, 0x00, 0x08, 0x00, 0, 0x3F, 0])),
        "JPEG: SOF0 not seen before SOS"
    );
    assert_eq!(
        err_msg(decode_jpeg(&[0xFF, 0xD8, 0xFF, 0xDA, 0x00, 0x08, 0x01, 0x01, 0x00])),
        "JPEG SOS: 1 components, expected 0"
    );
    assert_eq!(
        err_msg(decode_jpeg(&[0xFF, 0xD8, 0xFF, 0xE0, 0x00, 0x10, 0x00])),
        "Unexpected end of JPEG while skipping"
    );
    // Scan data that runs out inside the DC value: one bit of code, seven left, eight needed.
    let msg = err_msg(decode_jpeg(&gray_jpeg(8, &[0x00])));
    assert_eq!(msg, "JPEG scan: need 8 bits, have 7");
}

#[test]
fn jpeg_scan_without_data_is_refused() {
    // With no scan data the Huffman decoder would read a bit that is not there.
    assert!(try_decode_jpeg(&gray_jpeg(2, &[])).is_none());
}

#[test]
fn jpeg_dht_length_underflow_is_refused() {
    // A DHT segment whose length field is 1 would underflow the byte count.
    assert!(try_decode_jpeg(&[0xFF, 0xD8, 0xFF, 0xC4, 0x00, 0x01]).is_none());
}

#[test]
fn jpeg_huffman_table() {
    // Two codes of length 2: 00 and 01.
    let mut lengths = [0u8; 16];
    lengths[1] = 2;
    let t = HuffTable::build(&lengths, &[7, 9]).unwrap();
    assert_eq!(t.maxcode[2], 1);
    assert_eq!(t.delta[2], 0);
    assert_eq!(t.maxcode[1], -1);
    assert_eq!(t.maxcode[17], 0x3FFFF);
    let data = [0b0100_0000u8];
    let mut bits = ScanBits::new(&data);
    assert_eq!(bits.huff_decode(&t).unwrap().unwrap(), 9);
    assert_eq!(bits.huff_decode(&t).unwrap().unwrap(), 7);
    assert!(!t.is_empty());
    assert!(HuffTable::empty().is_empty());
}

#[test]
fn jpeg_scan_bits_skip_stuffing() {
    let data = [0xFF, 0x00, 0xFF, 0xD0, 0x80, 0xFF, 0xD9];
    let mut bits = ScanBits::new(&data);
    assert_eq!(bits.get_bits(8).unwrap().unwrap(), 0xFF);
    assert_eq!(bits.get_bits(1).unwrap().unwrap(), 1);
    assert_eq!(bits.get_bits(7).unwrap().unwrap(), 0);
    assert_eq!(err_msg(bits.get_bits(1).unwrap()), "JPEG scan: need 1 bits, have 0");
}

#[test]
fn jpeg_extend() {
    assert_eq!(ScanBits::extend(0, 0), Some(0));
    assert_eq!(ScanBits::extend(3, 2), Some(3));
    assert_eq!(ScanBits::extend(1, 2), Some(-2));
    assert_eq!(ScanBits::extend(0, 1), Some(-1));
    assert_eq!(ScanBits::extend(200, 8), Some(200));
    assert_eq!(ScanBits::extend(5, 8), Some(-250));
    assert_eq!(ScanBits::extend(0x4000_0000, 31), Some(0x4000_0000));
    assert_eq!(ScanBits::extend(5, 31), None);
    assert_eq!(ScanBits::extend(5, 40), None);
}

#[test]
fn zigzag_order() {
    assert_eq!(ZIGZAG[0], 0);
    assert_eq!(ZIGZAG[1], 1);
    assert_eq!(ZIGZAG[2], 8);
    assert_eq!(ZIGZAG[63], 63);
}

#[test]
fn block_placement_clips_to_the_plane() {
    let mut plane = vec![0i32; 10 * 9];
    let block: Vec<i32> = (0..64).collect();
    place_block(&mut plane, 10, 9, 4, 3, &block);
    assert_eq!(plane[3 * 10 + 4], 0);
    assert_eq!(plane[3 * 10 + 5], 1);
    assert_eq!(plane[4 * 10 + 4], 8);
    assert_eq!(plane[8 * 10 + 9], 5 * 8 + 5);
    assert_eq!(plane[2 * 10 + 4], 0);
    assert_eq!(plane[3 * 10 + 3], 0);
    assert_eq!(plane.iter().filter(|&&v| v != 0).count(), 6 * 6 - 1);
}

#[test]
fn clamping_to_bytes() {
    assert_eq!(clamp8(-5), 0);
    assert_eq!(clamp8(17), 17);
    assert_eq!(clamp8(300), 255);
}

// ─── Picking a decoder ─────────────────────────────────────

#[test]
fn decode_image_by_signature() {
    match decode_image("x.png", &png(1, 1, 8, 2, &[], &[0, 1, 2, 3])) {
        Some(Ok(Decoded::Png(img))) => assert_eq!(img.get_pixel(0, 0), (1, 2, 3, 255)),
        _ => panic!("expected a PNG"),
    }
    match decode_image("x.jpg", &gray_jpeg(0, &[0x00])) {
        Some(Ok(Decoded::Jpeg(s))) => assert_eq!(s.blocks.len(), 1),
        _ => panic!("expected a JPEG"),
    }
    match decode_image("x.gif", b"GIF89a") {
        Some(Err(e)) => assert_eq!(e.0, "Unsupported image format for 'x.gif'. Supported: PNG, JPEG (jpg/jpeg)"),
        _ => panic!("expected an error"),
    }
    match decode_image("t.png", &[1, 2]) {
        Some(Err(e)) => assert_eq!(e.0, "File 't.png' is too small to be an image"),
        _ => panic!("expected an error"),
    }
    match decode_image("b.png", &[0x89, 0x50, 0x4E, 0x47, 0, 0, 0, 0]) {
        Some(Err(e)) => assert_eq!(e.0, "PNG decode failed for 'b.png': Not a valid PNG file"),
        _ => panic!("expected an error"),
    }
    match decode_image("b.jpg", &[0xFF, 0xD8, 0xFF, 0xD9]) {
        Some(Err(e)) => assert_eq!(e.0, "JPEG decode failed for 'b.jpg': JPEG ended before scan data"),
        _ => panic!("expected an error"),
    }
}

#[test]
fn image_error_message() {
    assert_eq!(error("boom").to_string(), "[Image Error] boom");
}

// ─── Planes and pixel samples ──────────────────────────────

fn comp(h: u8, v: u8) -> Component {
    Component { id: 1, h_samp: h, v_samp: v, qt_id: 0 }
}

fn scan_of(width: u32, height: u32, comps: Vec<Component>, max_h: usize, max_v: usize, pw: usize, ph: usize, blocks: Vec<Block>) -> JpegScan {
    JpegScan { width, height, comps, max_h, max_v, pw, ph, blocks }
}

fn block_at(ci: usize, bx: usize, by: usize) -> Block {
    Block { ci, bx, by, coeffs: vec![0; 64] }
}

#[test]
fn planes_take_each_block_at_its_corner() {
    let scan = scan_of(16, 8, vec![comp(1, 1)], 1, 1, 16, 8, vec![block_at(0, 0, 0), block_at(0, 8, 0)]);
    let first: Vec<i32> = (0..64).collect();
    let second: Vec<i32> = (100..164).collect();
    let planes = assemble_planes(&scan, &vec![first, second]).unwrap();
    assert_eq!(planes.len(), 1);
    assert_eq!(planes[0].len(), 128);
    assert_eq!(planes[0][0], 0);
    assert_eq!(planes[0][7], 7);
    assert_eq!(planes[0][8], 100);
    assert_eq!(planes[0][16], 8);
    assert_eq!(planes[0][7 * 16 + 15], 163);
}

#[test]
fn planes_keep_components_apart_and_clip() {
    // A block reaching past the plane's edge keeps only what falls inside.
    let scan = scan_of(4, 4, vec![comp(1, 1), comp(1, 1)], 1, 1, 4, 4, vec![block_at(1, 0, 0)]);
    let planes = assemble_planes(&scan, &vec![vec![5; 64]]).unwrap();
    assert_eq!(planes.len(), 2);
    assert!(planes[0].iter().all(|&v| v == 0));
    assert!(planes[1].iter().all(|&v| v == 5));
}

#[test]
fn planes_refuse_mismatched_blocks() {
    let scan = scan_of(8, 8, vec![comp(1, 1)], 1, 1, 8, 8, vec![block_at(0, 0, 0)]);
    assert!(assemble_planes(&scan, &vec![]).is_none());
    assert!(assemble_planes(&scan, &vec![vec![0; 63]]).is_none());
    let stray = scan_of(8, 8, vec![comp(1, 1)], 1, 1, 8, 8, vec![block_at(1, 0, 0)]);
    assert!(assemble_planes(&stray, &vec![vec![0; 64]]).is_none());
    let huge = scan_of(8, 8, vec![comp(1, 1)], 1, 1, usize::MAX, 2, vec![]);
    assert!(assemble_planes(&huge, &vec![]).is_none());
}

#[test]
fn gray_pixels_shift_and_clamp() {
    let scan = scan_of(3, 1, vec![comp(1, 1)], 1, 1, 8, 8, vec![]);
    let mut plane = vec![0i32; 64];
    plane[0] = -128;
    plane[1] = 200;
    plane[2] = -1;
    let img = gray_image(&scan, &vec![plane]).unwrap();
    assert_eq!((img.width, img.height), (3, 1));
    assert_eq!(img.get_pixel(0, 0), (0, 0, 0, 255));
    assert_eq!(img.get_pixel(1, 0), (255, 255, 255, 255));
    assert_eq!(img.get_pixel(2, 0), (127, 127, 127, 255));
}

#[test]
fn gray_pixels_refuse_overflow_and_missing_samples() {
    let scan = scan_of(1, 1, vec![comp(1, 1)], 1, 1, 8, 8, vec![]);
    assert!(gray_image(&scan, &vec![vec![i32::MAX; 64]]).is_none());
    assert!(gray_image(&scan, &vec![vec![]]).is_none());
    assert!(gray_image(&scan, &vec![]).is_none());
    let empty = scan_of(0, 5, vec![comp(1, 1)], 1, 1, 8, 8, vec![]);
    assert_eq!(gray_image(&empty, &vec![]).unwrap().width, 0);
}

#[test]
fn color_samples_read_subsampled_chroma() {
    // Luma at full resolution, both chroma planes at half resolution each way.
    let scan = scan_of(4, 4, vec![comp(2, 2), comp(1, 1), comp(1, 1)], 2, 2, 16, 16, vec![]);
    let luma: Vec<i32> = (0..256).collect();
    let cb: Vec<i32> = (0..256).map(|i| 1000 + i).collect();
    let cr: Vec<i32> = (0..256).map(|i| -i).collect();
    let rows = color_samples(&scan, &vec![luma, cb, cr]).unwrap();
    assert_eq!(rows.len(), 4);
    assert!(rows.iter().all(|r| r.len() == 4));
    // Pixel (3, 3) reads luma sample 3 * 16 + 3 and chroma sample (1, 1) = 17.
    assert_eq!(rows[3][3], (51 + 128, 1017, -17));
    assert_eq!(rows[0][0], (128, 1000, 0));
    assert_eq!(rows[2][1], (33 + 128, 1016, -16));
}

#[test]
fn color_samples_need_three_components() {
    let two = scan_of(2, 2, vec![comp(1, 1), comp(1, 1)], 1, 1, 8, 8, vec![]);
    assert!(color_samples(&two, &vec![vec![0; 64], vec![0; 64]]).is_none());
    let empty = scan_of(0, 0, vec![comp(1, 1), comp(1, 1)], 1, 1, 8, 8, vec![]);
    assert_eq!(color_samples(&empty, &vec![]).unwrap().len(), 0);
    let three = scan_of(2, 2, vec![comp(1, 1), comp(1, 1), comp(1, 1)], 1, 1, 8, 8, vec![]);
    assert!(color_samples(&three, &vec![vec![0; 64], vec![0; 64], vec![0; 3]]).is_none());
}

// ─── Filters undone ────────────────────────────────────────

fn paeth_pred(a: u8, b: u8, c: u8) -> u8 {
    let p = a as i32 + b as i32 - c as i32;
    let (pa, pb, pc) = ((p - a as i32).abs(), (p - b as i32).abs(), (p - c as i32).abs());
    if pa <= pb && pa <= pc { a } else if pb <= pc { b } else { c }
}

/// PNG filtering, the encoder's side.
fn filter_row(f: u8, row: &[u8], prev: &[u8], bpp: usize) -> Vec<u8> {
    (0..row.len())
        .map(|i| {
            let a = if i >= bpp { row[i - bpp] } else { 0 };
            let b = prev[i];
            let c = if i >= bpp { prev[i - bpp] } else { 0 };
            let pred = match f {
                1 => a,
                2 => b,
                3 => ((a as u16 + b as u16) / 2) as u8,
                4 => paeth_pred(a, b, c),
                _ => 0,
            };
            row[i].wrapping_sub(pred)
        })
        .collect()
}

#[test]
fn unfilter_inverts_each_filter() {
    let row: Vec<u8> = (0..24).map(|i| (i * 37 + 11) as u8).collect();
    let prev: Vec<u8> = (0..24).map(|i| (i * 91 + 200) as u8).collect();
    for f in 0..=4u8 {
        for bpp in [1usize, 3, 4] {
            let raw = filter_row(f, &row, &prev, bpp);
            assert_eq!(unfilter(f, &raw, &prev, bpp).unwrap(), row, "filter {} bpp {}", f, bpp);
        }
    }
}
