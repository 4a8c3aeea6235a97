use bar_data::dxt1::{compress_dxt1_block, decode_dxt1_block, rgb565, unpack565};
use bar_data::smt::{
    assemble_bc1_linear, compress_image_dxt1, compress_tile_dxt1, decode_tile_dxt1, generate_minimap_dxt1, read_smt,
    read_smt_raw, write_smt, SmtError, DXT1_TILE_BYTES, MINIMAP_SIZE, SMALL_TILE_SIZE, TILE_SIZE,
};

#[test]
fn test_dxt1_block_roundtrip() {
    let pixels = [[128, 64, 32, 255]; 16];
    let compressed = compress_dxt1_block(&pixels);
    assert_eq!(compressed.len(), 8);
}

#[test]
fn test_rgb565_roundtrip() {
    let c = rgb565(255, 128, 64);
    let [r, g, b] = unpack565(c);
    // RGB565 has some precision loss
    assert!((r as i32 - 255).abs() <= 8);
    assert!((g as i32 - 128).abs() <= 4);
    assert!((b as i32 - 64).abs() <= 8);
}

#[test]
fn test_write_smt() {
    let texture = vec![0u8; 64 * 64 * 4];
    let mut buf = Vec::new();
    let (indices, num_tiles) = write_smt(&mut buf, &texture, 64, 64);
    assert_eq!(num_tiles, 4); // 64/32 = 2x2
    assert_eq!(indices.len(), 4);
    // Header (32 bytes) + 4 tiles * 680 bytes each (SMALL_TILE_SIZE with mipmaps)
    assert_eq!(buf.len(), 32 + 4 * SMALL_TILE_SIZE);
}

#[test]
fn test_compress_image_dxt1() {
    let rgba = vec![128u8; 16 * 16 * 4];
    let compressed = compress_image_dxt1(&rgba, 16, 16);
    // 16/4 = 4 blocks each way = 16 blocks * 8 bytes
    assert_eq!(compressed.len(), 16 * 8);
}

#[test]
fn test_dxt1_decode_block() {
    // Solid red tile: compress then decode, check approximate color recovery
    let red = [[255u8, 0, 0, 255]; 16];
    let compressed = compress_dxt1_block(&red);
    let decoded = decode_dxt1_block(&compressed);
    for pixel in decoded {
        assert!(pixel[0] > 200, "R should be high, got {}", pixel[0]);
        assert!(pixel[1] < 30, "G should be ~0, got {}", pixel[1]);
        assert!(pixel[2] < 30, "B should be ~0, got {}", pixel[2]);
        assert_eq!(pixel[3], 255, "alpha should be 255");
    }
}

#[test]
fn test_smt_write_read_roundtrip() {
    // Write a 2×2 tile SMT, then read it back and verify tile count/size
    let mut texture_rgba = vec![0u8; 64 * 64 * 4];
    // Fill with a recognizable pattern (top-left tile = red)
    for py in 0..32usize {
        for px in 0..32usize {
            let i = (py * 64 + px) * 4;
            texture_rgba[i] = 200; // R
            texture_rgba[i + 3] = 255;
        }
    }
    let mut buf = Vec::new();
    let (_, num_tiles) = write_smt(&mut buf, &texture_rgba, 64, 64);
    assert_eq!(num_tiles, 4);

    let tiles = read_smt(&buf).unwrap();
    assert_eq!(tiles.len(), 4);
    // Each tile is 32×32×4 bytes
    assert_eq!(tiles[0].len(), TILE_SIZE as usize * TILE_SIZE as usize * 4);
    // Top-left tile should have significant red
    assert!(tiles[0][0] > 150, "top-left tile pixel R should be ~200");
}

// -- Exact values of the codec ------------------------------------------------------

#[test]
fn rgb565_packs_channels_exactly() {
    assert_eq!(rgb565(255, 255, 255), 0xFFFF);
    assert_eq!(rgb565(0, 0, 0), 0);
    assert_eq!(rgb565(255, 0, 0), 0xF800);
    assert_eq!(rgb565(0, 255, 0), 0x07E0);
    assert_eq!(rgb565(0, 0, 255), 0x001F);
    assert_eq!(rgb565(255, 128, 64), (31 << 11) | (32 << 5) | 8);
}

#[test]
fn unpack565_replicates_high_bits() {
    assert_eq!(unpack565(0xFFFF), [255, 255, 255]);
    assert_eq!(unpack565(0), [0, 0, 0]);
    assert_eq!(unpack565(0xF800), [255, 0, 0]);
    // 5-bit 16 -> (16 << 3) | (16 >> 2) = 132
    assert_eq!(unpack565(16 << 11), [132, 0, 0]);
}

#[test]
fn solid_block_encodes_to_its_565_colour_and_reads_back() {
    let px = [[200u8, 100, 50, 255]; 16];
    let enc = compress_dxt1_block(&px);
    let c = rgb565(200, 100, 50);
    assert_eq!(u16::from_le_bytes([enc[0], enc[1]]), c);
    assert_eq!(u16::from_le_bytes([enc[2], enc[3]]), c);
    let expected = unpack565(c);
    for p in decode_dxt1_block(&enc) {
        assert_eq!([p[0], p[1], p[2]], expected);
        assert_eq!(p[3], 255);
    }
}

#[test]
fn decode_three_colour_block_has_transparent_index() {
    // color0 <= color1 selects three-colour mode; index 3 is transparent black.
    let block = [0x00, 0x00, 0xFF, 0xFF, 0xFF, 0xFF, 0xFF, 0xFF];
    let decoded = decode_dxt1_block(&block);
    for p in decoded {
        assert_eq!(p, [0, 0, 0, 0]);
    }
}

#[test]
fn decode_four_colour_block_interpolates() {
    // color0 = white, color1 = black, indices 2 and 3 in the first row.
    let block = [0xFF, 0xFF, 0x00, 0x00, 0b1110_0100, 0, 0, 0];
    let d = decode_dxt1_block(&block);
    assert_eq!(d[0], [255, 255, 255, 255]);
    assert_eq!(d[1], [0, 0, 0, 255]);
    assert_eq!(d[2], [170, 170, 170, 255]);
    assert_eq!(d[3], [85, 85, 85, 255]);
}

#[test]
fn compress_image_drops_partial_blocks() {
    // Only whole 4x4 blocks are encoded.
    let rgba = vec![7u8; 5 * 3 * 4];
    assert!(compress_image_dxt1(&rgba, 5, 3).is_empty());
    let rgba = vec![7u8; 9 * 5 * 4];
    assert_eq!(compress_image_dxt1(&rgba, 9, 5).len(), 2 * 8);
}

#[test]
fn tile_chain_and_minimap_sizes() {
    let tile = vec![90u8; 32 * 32 * 4];
    assert_eq!(compress_tile_dxt1(&tile).len(), SMALL_TILE_SIZE);
    let img = vec![10u8; 1024 * 1024 * 4];
    assert_eq!(generate_minimap_dxt1(&img).len(), MINIMAP_SIZE);
}

#[test]
fn decode_tile_of_solid_colour() {
    let tile = vec![50u8; 32 * 32 * 4];
    let chain = compress_tile_dxt1(&tile);
    let rgba = decode_tile_dxt1(&chain);
    assert_eq!(rgba.len(), 4096);
    let expected = unpack565(rgb565(50, 50, 50));
    for px in rgba.chunks(4) {
        assert_eq!([px[0], px[1], px[2]], expected);
        assert_eq!(px[3], 255);
    }
}

#[test]
fn read_smt_rejects_truncated_data() {
    assert_eq!(read_smt_raw(&[0u8; 10]), Err(SmtError::UnexpectedEof));
    let mut buf = Vec::new();
    write_smt(&mut buf, &vec![0u8; 32 * 32 * 4], 32, 32);
    buf.truncate(buf.len() - 1);
    assert_eq!(read_smt(&buf), Err(SmtError::UnexpectedEof));
}

#[test]
fn read_smt_raw_returns_base_levels() {
    let mut buf = Vec::new();
    let img = vec![33u8; 64 * 32 * 4];
    write_smt(&mut buf, &img, 64, 32);
    let raw = read_smt_raw(&buf).unwrap();
    assert_eq!(raw.len(), 2);
    for t in &raw {
        assert_eq!(t.len(), DXT1_TILE_BYTES);
    }
    assert_eq!(raw[0], compress_image_dxt1(&vec![33u8; 32 * 32 * 4], 32, 32));
}

#[test]
fn assemble_bc1_interleaves_tile_rows() {
    let t0 = vec![1u8; 512];
    let t1 = vec![2u8; 512];
    let out = assemble_bc1_linear(&[t0, t1], &[1, 0], 2, 1);
    assert_eq!(out.len(), 1024);
    // First block row: tile 1's row then tile 0's row.
    assert!(out[..64].iter().all(|&b| b == 2));
    assert!(out[64..128].iter().all(|&b| b == 1));
}

#[test]
fn empty_texture_writes_header_only() {
    let mut out = Vec::new();
    let (indices, n) = write_smt(&mut out, &[], 0, 0);
    assert_eq!(n, 0);
    assert!(indices.is_empty());
    assert_eq!(out.len(), 32);
    assert_eq!(&out[20..24], &0u32.to_le_bytes());
    assert_eq!(read_smt(&out).unwrap().len(), 0);
}
