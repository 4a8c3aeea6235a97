//! DXT1 (BC1) block codec: 4×4 RGBA8 pixels <-> 8 compressed bytes.
//!
//! A block holds two RGB565 endpoint colours followed by sixteen 2-bit
//! palette indices (pixel `i` uses bits `2i..2i+2` of the little-endian
//! index word).  When `color0 > color1` the palette has four opaque entries
//! (the endpoints and their 2/3-1/3 blends); otherwise it has three colours
//! (endpoints and midpoint) plus a transparent black entry.

use vstd::prelude::*;

verus! {

// ---------------------------------------------------------------------------
// RGB565
// ---------------------------------------------------------------------------

/// Packs 8-bit channels into RGB565 by dropping the low bits of each channel.
pub open spec fn rgb565_spec(r: int, g: int, b: int) -> int {
    (r / 8) * 2048 + (g / 4) * 32 + b / 8
}

/// Widens a 5-bit value to 8 bits by replicating its top bits.
pub open spec fn expand5(v: int) -> int {
    v * 8 + v / 4
}

/// Widens a 6-bit value to 8 bits by replicating its top bits.
pub open spec fn expand6(v: int) -> int {
    v * 4 + v / 16
}

/// Channel `ch` (0 = red, 1 = green, 2 = blue) of an RGB565 colour, widened to 8 bits.
pub open spec fn unpack565_spec(c: int, ch: int) -> int {
    if ch == 0 {
        expand5(c / 2048)
    } else if ch == 1 {
        expand6((c / 32) % 64)
    } else {
        expand5(c % 32)
    }
}

pub fn rgb565(r: u8, g: u8, b: u8) -> (c: u16)
    ensures
        c == rgb565_spec(r as int, g as int, b as int),
{
    (r as u16 / 8) * 2048 + (g as u16 / 4) * 32 + (b as u16 / 8)
}

pub fn unpack565(c: u16) -> (rgb: [u8; 3])
    ensures
        rgb@.len() == 3,
        forall|ch: int| 0 <= ch < 3 ==> rgb@[ch] == unpack565_spec(c as int, ch),
{
    let r = c / 2048;
    let g = (c / 32) % 64;
    let b = c % 32;
    let out = [(r * 8 + r / 4) as u8, (g * 4 + g / 16) as u8, (b * 8 + b / 4) as u8];
    assert(out@[0] == unpack565_spec(c as int, 0));
    assert(out@[1] == unpack565_spec(c as int, 1));
    assert(out@[2] == unpack565_spec(c as int, 2));
    out
}

// ---------------------------------------------------------------------------
// Decoding
// ---------------------------------------------------------------------------

/// First endpoint colour of a block (bytes 0..2, little-endian).
pub open spec fn block_color0(block: Seq<u8>) -> int {
    block[0] + 256 * block[1]
}

/// Second endpoint colour of a block (bytes 2..4, little-endian).
pub open spec fn block_color1(block: Seq<u8>) -> int {
    block[2] + 256 * block[3]
}

pub open spec fn pow4(m: int) -> int {
    if m == 0 {
        1
    } else if m == 1 {
        4
    } else if m == 2 {
        16
    } else {
        64
    }
}

/// The 2-bit palette index of pixel `i` (bits `2i..2i+2` of the index word).
pub open spec fn block_index(block: Seq<u8>, i: int) -> int {
    ((block[4 + i / 4] as int) / pow4(i % 4)) % 4
}

/// Channel `ch` of palette entry `k` of the decoder's palette.
pub open spec fn decode_palette(c0: int, c1: int, k: int, ch: int) -> int {
    if ch == 3 {
        if k == 3 && c0 <= c1 {
            0
        } else {
            255
        }
    } else {
        let p0 = unpack565_spec(c0, ch);
        let p1 = unpack565_spec(c1, ch);
        if k == 0 {
            p0
        } else if k == 1 {
            p1
        } else if k == 2 {
            if c0 > c1 {
                (2 * p0 + p1) / 3
            } else {
                (p0 + p1) / 2
            }
        } else {
            if c0 > c1 {
                (p0 + 2 * p1) / 3
            } else {
                0
            }
        }
    }
}

/// Channel `ch` of pixel `i` (row-major within the 4×4 block) decoded from `block`.
pub open spec fn dxt1_texel(block: Seq<u8>, i: int, ch: int) -> int {
    decode_palette(block_color0(block), block_color1(block), block_index(block, i), ch)
}

fn unpack565_rgba(c: u16) -> (px: [u8; 4])
    ensures
        px@.len() == 4,
        forall|ch: int| 0 <= ch < 3 ==> px@[ch] == unpack565_spec(c as int, ch),
        px@[3] == 255,
{
    let rgb = unpack565(c);
    [rgb[0], rgb[1], rgb[2], 255]
}

fn lerp_rgba(a: [u8; 4], b: [u8; 4], wa: u16, wb: u16, div: u16) -> (px: [u8; 4])
    requires
        div > 0,
        wa + wb == div,
        wa <= 2,
        wb <= 2,
    ensures
        px@.len() == 4,
        forall|ch: int| 0 <= ch < 3 ==> px@[ch] == (a@[ch] * wa + b@[ch] * wb) / (div as int),
        px@[3] == 255,
{
    let mut out = [0u8, 0u8, 0u8, 255u8];
    let mut ch: usize = 0;
    while ch < 3
        invariant
            0 <= ch <= 3,
            div > 0,
            wa + wb == div,
            wa <= 2,
            wb <= 2,
            out@.len() == 4,
            out@[3] == 255,
            forall|k: int| 0 <= k < ch ==> out@[k] == (a@[k] * wa + b@[k] * wb) / (div as int),
        decreases 3 - ch,
    {
        let x = a[ch] as u16;
        let y = b[ch] as u16;
        proof {
            assert(x * wa + y * wb <= 255 * div) by (nonlinear_arith)
                requires
                    x <= 255,
                    y <= 255,
                    wa + wb == div,
            ;
            assert((x * wa + y * wb) / (div as int) <= 255) by (nonlinear_arith)
                requires
                    x * wa + y * wb <= 255 * div,
                    div > 0,
            ;
        }
        let v = ((x * wa + y * wb) / div) as u8;
        out[ch] = v;
        ch = ch + 1;
    }
    out
}

/// Decode one 8-byte DXT1 block into 16 RGBA8 pixels (4×4, row-major).
///
/// Handles both opaque mode (color0 > color1, 4-color palette) and
/// 1-bit-alpha mode (color0 <= color1, 3-color + transparent palette).
pub fn decode_dxt1_block(block: &[u8; 8]) -> (pixels: [[u8; 4]; 16])
    ensures
        forall|i: int, ch: int|
            0 <= i < 16 && 0 <= ch < 4 ==> #[trigger] pixels@[i]@[ch] == dxt1_texel(
                block@,
                i,
                ch,
            ),
{
    let c0 = block[0] as u16 + 256 * (block[1] as u16);
    let c1 = block[2] as u16 + 256 * (block[3] as u16);
    let pal0 = unpack565_rgba(c0);
    let pal1 = unpack565_rgba(c1);
    let pal2;
    let pal3;
    if c0 > c1 {
        pal2 = lerp_rgba(pal0, pal1, 2, 1, 3);
        pal3 = lerp_rgba(pal0, pal1, 1, 2, 3);
    } else {
        pal2 = lerp_rgba(pal0, pal1, 1, 1, 2);
        pal3 = [0u8, 0u8, 0u8, 0u8];
    }
    let palette = [pal0, pal1, pal2, pal3];
    assert forall|k: int, ch: int| 0 <= k < 4 && 0 <= ch < 4 implies #[trigger] palette@[k]@[ch]
        == decode_palette(c0 as int, c1 as int, k, ch) by {
        if ch < 3 {
            if k == 2 {
                if c0 > c1 {
                    assert(pal0@[ch] * 2 + pal1@[ch] * 1 == 2 * pal0@[ch] + pal1@[ch]);
                } else {
                    assert(pal0@[ch] * 1 + pal1@[ch] * 1 == pal0@[ch] + pal1@[ch]);
                }
            } else if k == 3 && c0 > c1 {
                assert(pal0@[ch] * 1 + pal1@[ch] * 2 == pal0@[ch] + 2 * pal1@[ch]);
            }
        }
    }
    let mut pixels = [[0u8; 4]; 16];
    let mut i: usize = 0;
    while i < 16
        invariant
            0 <= i <= 16,
            c0 == block_color0(block@),
            c1 == block_color1(block@),
            forall|k: int, ch: int|
                0 <= k < 4 && 0 <= ch < 4 ==> #[trigger] palette@[k]@[ch] == decode_palette(
                    c0 as int,
                    c1 as int,
                    k,
                    ch,
                ),
            forall|j: int, ch: int|
                0 <= j < i && 0 <= ch < 4 ==> #[trigger] pixels@[j]@[ch] == dxt1_texel(
                    block@,
                    j,
                    ch,
                ),
        decreases 16 - i,
    {
        let byte = block[4 + i / 4];
        let m = i % 4;
        let pw: u8 = if m == 0 {
            1
        } else if m == 1 {
            4
        } else if m == 2 {
            16
        } else {
            64
        };
        let idx = ((byte / pw) % 4) as usize;
        assert(idx == block_index(block@, i as int));
        pixels[i] = palette[idx];
        i = i + 1;
    }
    pixels
}

// ---------------------------------------------------------------------------
// Encoding
// ---------------------------------------------------------------------------

/// Minimum of channel `ch` over the first `n` pixels of a flat RGBA8 block
/// (255 for no pixels).
pub open spec fn chan_min(px: Seq<u8>, ch: int, n: nat) -> int
    decreases n,
{
    if n == 0 {
        255
    } else {
        let m = chan_min(px, ch, (n - 1) as nat);
        let v = px[4 * (n - 1) + ch] as int;
        if v < m {
            v
        } else {
            m
        }
    }
}

/// Maximum of channel `ch` over the first `n` pixels of a flat RGBA8 block
/// (0 for no pixels).
pub open spec fn chan_max(px: Seq<u8>, ch: int, n: nat) -> int
    decreases n,
{
    if n == 0 {
        0
    } else {
        let m = chan_max(px, ch, (n - 1) as nat);
        let v = px[4 * (n - 1) + ch] as int;
        if v > m {
            v
        } else {
            m
        }
    }
}

/// RGB565 of the per-channel maximum over the 16 pixels.
pub open spec fn color_hi(px: Seq<u8>) -> int {
    rgb565_spec(chan_max(px, 0, 16), chan_max(px, 1, 16), chan_max(px, 2, 16))
}

/// RGB565 of the per-channel minimum over the 16 pixels.
pub open spec fn color_lo(px: Seq<u8>) -> int {
    rgb565_spec(chan_min(px, 0, 16), chan_min(px, 1, 16), chan_min(px, 2, 16))
}

/// The encoder's first endpoint: the larger of the two bounding-box colours.
pub open spec fn enc_c0(px: Seq<u8>) -> int {
    if color_hi(px) >= color_lo(px) {
        color_hi(px)
    } else {
        color_lo(px)
    }
}

/// The encoder's second endpoint: the smaller of the two bounding-box colours.
pub open spec fn enc_c1(px: Seq<u8>) -> int {
    if color_hi(px) >= color_lo(px) {
        color_lo(px)
    } else {
        color_hi(px)
    }
}

/// Channel `ch` (< 3) of the encoder's four-colour palette entry `k`.
pub open spec fn enc_palette(c0: int, c1: int, k: int, ch: int) -> int {
    let p0 = unpack565_spec(c0, ch);
    let p1 = unpack565_spec(c1, ch);
    if k == 0 {
        p0
    } else if k == 1 {
        p1
    } else if k == 2 {
        (2 * p0 + p1) / 3
    } else {
        (p0 + 2 * p1) / 3
    }
}

pub open spec fn sq(x: int) -> int {
    x * x
}

/// Squared RGB distance between pixel `i` of `px` and palette entry `k`.
pub open spec fn sq_dist(px: Seq<u8>, i: int, c0: int, c1: int, k: int) -> int {
    sq(px[4 * i] - enc_palette(c0, c1, k, 0)) + sq(px[4 * i + 1] - enc_palette(c0, c1, k, 1))
        + sq(px[4 * i + 2] - enc_palette(c0, c1, k, 2))
}

/// The first palette entry at minimal distance from pixel `i`.
pub open spec fn nearest(px: Seq<u8>, i: int, c0: int, c1: int) -> int {
    let d0 = sq_dist(px, i, c0, c1, 0);
    let d1 = sq_dist(px, i, c0, c1, 1);
    let d2 = sq_dist(px, i, c0, c1, 2);
    let d3 = sq_dist(px, i, c0, c1, 3);
    if d0 <= d1 && d0 <= d2 && d0 <= d3 {
        0
    } else if d1 <= d2 && d1 <= d3 {
        1
    } else if d2 <= d3 {
        2
    } else {
        3
    }
}

/// Byte `4 + q` of an encoded block: the indices of pixels `4q..4q+4`.
pub open spec fn index_byte(px: Seq<u8>, q: int) -> int {
    let c0 = enc_c0(px);
    let c1 = enc_c1(px);
    nearest(px, 4 * q, c0, c1) + 4 * nearest(px, 4 * q + 1, c0, c1) + 16 * nearest(
        px,
        4 * q + 2,
        c0,
        c1,
    ) + 64 * nearest(px, 4 * q + 3, c0, c1)
}

/// The 8 bytes the encoder produces for a flat 64-byte RGBA8 block.
pub open spec fn dxt1_encode(px: Seq<u8>) -> Seq<u8> {
    seq![
        (enc_c0(px) % 256) as u8,
        (enc_c0(px) / 256) as u8,
        (enc_c1(px) % 256) as u8,
        (enc_c1(px) / 256) as u8,
        index_byte(px, 0) as u8,
        index_byte(px, 1) as u8,
        index_byte(px, 2) as u8,
        index_byte(px, 3) as u8,
    ]
}

/// An encoded block is always 8 bytes long.
pub proof fn lemma_dxt1_encode_len(px: Seq<u8>)
    ensures
        dxt1_encode(px).len() == 8,
{
}

proof fn lemma_rgb565_bound(r: int, g: int, b: int)
    requires
        0 <= r <= 255,
        0 <= g <= 255,
        0 <= b <= 255,
    ensures
        0 <= rgb565_spec(r, g, b) <= 65535,
{
}

proof fn lemma_chan_bounds(px: Seq<u8>, ch: int, n: nat)
    requires
        4 * n <= px.len(),
        0 <= ch < 4,
    ensures
        0 <= chan_min(px, ch, n) <= 255,
        0 <= chan_max(px, ch, n) <= 255,
    decreases n,
{
    if n > 0 {
        lemma_chan_bounds(px, ch, (n - 1) as nat);
    }
}

/// Palette channel of the encoder, computed from the unpacked endpoints.
fn enc_palette_channel(p0: u8, p1: u8, k: usize) -> (v: u8)
    requires
        k < 4,
    ensures
        v == (if k == 0 {
            p0 as int
        } else if k == 1 {
            p1 as int
        } else if k == 2 {
            (2 * p0 + p1) / 3
        } else {
            (p0 + 2 * p1) / 3
        }),
{
    if k == 0 {
        p0
    } else if k == 1 {
        p1
    } else if k == 2 {
        ((2 * p0 as u16 + p1 as u16) / 3) as u8
    } else {
        ((p0 as u16 + 2 * p1 as u16) / 3) as u8
    }
}

fn sq_dist_exec(px: &[u8], i: usize, pal0: &[u8; 3], pal1: &[u8; 3], k: usize, c0: Ghost<int>, c1: Ghost<int>) -> (d: u32)
    requires
        px@.len() == 64,
        i < 16,
        k < 4,
        forall|ch: int| 0 <= ch < 3 ==> pal0@[ch] == unpack565_spec(c0@, ch),
        forall|ch: int| 0 <= ch < 3 ==> pal1@[ch] == unpack565_spec(c1@, ch),
    ensures
        d == sq_dist(px@, i as int, c0@, c1@, k as int),
{
    let e0 = enc_palette_channel(pal0[0], pal1[0], k);
    let e1 = enc_palette_channel(pal0[1], pal1[1], k);
    let e2 = enc_palette_channel(pal0[2], pal1[2], k);
    let dr = px[4 * i] as i32 - e0 as i32;
    let dg = px[4 * i + 1] as i32 - e1 as i32;
    let db = px[4 * i + 2] as i32 - e2 as i32;
    assert(dr * dr <= 65025) by (nonlinear_arith)
        requires
            -255 <= dr <= 255,
    ;
    assert(dg * dg <= 65025) by (nonlinear_arith)
        requires
            -255 <= dg <= 255,
    ;
    assert(db * db <= 65025) by (nonlinear_arith)
        requires
            -255 <= db <= 255,
    ;
    assert(0 <= dr * dr && 0 <= dg * dg && 0 <= db * db) by (nonlinear_arith);
    (dr * dr + dg * dg + db * db) as u32
}

fn nearest_exec(px: &[u8], i: usize, pal0: &[u8; 3], pal1: &[u8; 3], c0: Ghost<int>, c1: Ghost<int>) -> (n: u8)
    requires
        px@.len() == 64,
        i < 16,
        forall|ch: int| 0 <= ch < 3 ==> pal0@[ch] == unpack565_spec(c0@, ch),
        forall|ch: int| 0 <= ch < 3 ==> pal1@[ch] == unpack565_spec(c1@, ch),
    ensures
        n == nearest(px@, i as int, c0@, c1@),
{
    let d0 = sq_dist_exec(px, i, pal0, pal1, 0, c0, c1);
    let d1 = sq_dist_exec(px, i, pal0, pal1, 1, c0, c1);
    let d2 = sq_dist_exec(px, i, pal0, pal1, 2, c0, c1);
    let d3 = sq_dist_exec(px, i, pal0, pal1, 3, c0, c1);
    if d0 <= d1 && d0 <= d2 && d0 <= d3 {
        0
    } else if d1 <= d2 && d1 <= d3 {
        1
    } else if d2 <= d3 {
        2
    } else {
        3
    }
}

/// The 64 bytes of 16 RGBA8 pixels, row-major.
pub open spec fn flatten_pixels(pixels: Seq<[u8; 4]>) -> Seq<u8> {
    Seq::new(64, |k: int| pixels[k / 4]@[k % 4])
}

/// Compress a 4×4 block of RGBA8 pixels (row-major) into 8 bytes of DXT1
/// (see [`compress_dxt1_rgba`]).
pub fn compress_dxt1_block(pixels: &[[u8; 4]; 16]) -> (out: [u8; 8])
    ensures
        out@ == dxt1_encode(flatten_pixels(pixels@)),
{
    let mut px: Vec<u8> = Vec::new();
    let mut i: usize = 0;
    while i < 16
        invariant
            0 <= i <= 16,
            px@ == flatten_pixels(pixels@).subrange(0, 4 * i as int),
        decreases 16 - i,
    {
        let p = pixels[i];
        px.push(p[0]);
        px.push(p[1]);
        px.push(p[2]);
        px.push(p[3]);
        assert(px@ =~= flatten_pixels(pixels@).subrange(0, 4 * (i + 1) as int));
        i = i + 1;
    }
    assert(px@ =~= flatten_pixels(pixels@));
    compress_dxt1_rgba(px.as_slice())
}

/// Compress a 4×4 block of RGBA8 pixels (64 bytes, row-major) into 8 bytes of DXT1.
///
/// The endpoints are the RGB565 bounding-box corners (larger first, so the
/// block decodes in opaque four-colour mode whenever they differ); each
/// pixel takes the first palette entry at least squared RGB distance.
pub fn compress_dxt1_rgba(px: &[u8]) -> (out: [u8; 8])
    requires
        px@.len() == 64,
    ensures
        out@ == dxt1_encode(px@),
{
    let mut min_r: u8 = 255;
    let mut min_g: u8 = 255;
    let mut min_b: u8 = 255;
    let mut max_r: u8 = 0;
    let mut max_g: u8 = 0;
    let mut max_b: u8 = 0;
    let mut i: usize = 0;
    while i < 16
        invariant
            0 <= i <= 16,
            px@.len() == 64,
            min_r == chan_min(px@, 0, i as nat),
            min_g == chan_min(px@, 1, i as nat),
            min_b == chan_min(px@, 2, i as nat),
            max_r == chan_max(px@, 0, i as nat),
            max_g == chan_max(px@, 1, i as nat),
            max_b == chan_max(px@, 2, i as nat),
        decreases 16 - i,
    {
        let r = px[4 * i];
        let g = px[4 * i + 1];
        let b = px[4 * i + 2];
        if r < min_r {
            min_r = r;
        }
        if g < min_g {
            min_g = g;
        }
        if b < min_b {
            min_b = b;
        }
        if r > max_r {
            max_r = r;
        }
        if g > max_g {
            max_g = g;
        }
        if b > max_b {
            max_b = b;
        }
        i = i + 1;
    }
    let color0 = rgb565(max_r, max_g, max_b);
    let color1 = rgb565(min_r, min_g, min_b);
    let (c0, c1) = if color0 >= color1 {
        (color0, color1)
    } else {
        (color1, color0)
    };
    assert(c0 == enc_c0(px@) && c1 == enc_c1(px@));
    let pal0 = unpack565(c0);
    let pal1 = unpack565(c1);
    let g0: Ghost<int> = Ghost(c0 as int);
    let g1: Ghost<int> = Ghost(c1 as int);
    let mut out = [0u8; 8];
    out[0] = (c0 % 256) as u8;
    out[1] = (c0 / 256) as u8;
    out[2] = (c1 % 256) as u8;
    out[3] = (c1 / 256) as u8;
    let mut q: usize = 0;
    while q < 4
        invariant
            0 <= q <= 4,
            px@.len() == 64,
            c0 == enc_c0(px@),
            c1 == enc_c1(px@),
            g0@ == c0,
            g1@ == c1,
            forall|ch: int| 0 <= ch < 3 ==> pal0@[ch] == unpack565_spec(c0 as int, ch),
            forall|ch: int| 0 <= ch < 3 ==> pal1@[ch] == unpack565_spec(c1 as int, ch),
            out@.len() == 8,
            out@[0] == (enc_c0(px@) % 256) as u8,
            out@[1] == (enc_c0(px@) / 256) as u8,
            out@[2] == (enc_c1(px@) % 256) as u8,
            out@[3] == (enc_c1(px@) / 256) as u8,
            forall|j: int| 0 <= j < q ==> out@[4 + j] == index_byte(px@, j) as u8,
        decreases 4 - q,
    {
        let n0 = nearest_exec(px, 4 * q, &pal0, &pal1, g0, g1);
        let n1 = nearest_exec(px, 4 * q + 1, &pal0, &pal1, g0, g1);
        let n2 = nearest_exec(px, 4 * q + 2, &pal0, &pal1, g0, g1);
        let n3 = nearest_exec(px, 4 * q + 3, &pal0, &pal1, g0, g1);
        let byte = n0 + 4 * n1 + 16 * n2 + 64 * n3;
        assert(byte == index_byte(px@, q as int));
        out[4 + q] = byte;
        q = q + 1;
    }
    assert(out@ =~= dxt1_encode(px@));
    out
}

// ---------------------------------------------------------------------------
// Laws
// ---------------------------------------------------------------------------

/// Packing a colour to RGB565 and widening it back loses at most 7 levels of
/// red or blue and at most 3 levels of green.
pub proof fn lemma_rgb565_quantization_error(r: u8, g: u8, b: u8)
    ensures
        -7 <= unpack565_spec(rgb565_spec(r as int, g as int, b as int), 0) - r <= 7,
        -3 <= unpack565_spec(rgb565_spec(r as int, g as int, b as int), 1) - g <= 3,
        -7 <= unpack565_spec(rgb565_spec(r as int, g as int, b as int), 2) - b <= 7,
{
    let c = rgb565_spec(r as int, g as int, b as int);
    assert(c / 2048 == r / 8);
    assert((c / 32) % 64 == g / 4);
    assert(c % 32 == b / 8);
}

proof fn lemma_index_byte_digits(n0: int, n1: int, n2: int, n3: int)
    requires
        0 <= n0 < 4,
        0 <= n1 < 4,
        0 <= n2 < 4,
        0 <= n3 < 4,
    ensures
        ({
            let v = n0 + 4 * n1 + 16 * n2 + 64 * n3;
            &&& 0 <= v < 256
            &&& (v / pow4(0)) % 4 == n0
            &&& (v / pow4(1)) % 4 == n1
            &&& (v / pow4(2)) % 4 == n2
            &&& (v / pow4(3)) % 4 == n3
        }),
{
    let v = n0 + 4 * n1 + 16 * n2 + 64 * n3;
    assert(v / 4 == n1 + 4 * n2 + 16 * n3);
    assert(v / 16 == n2 + 4 * n3);
    assert(v / 64 == n3);
}

proof fn lemma_nearest_range(px: Seq<u8>, i: int, c0: int, c1: int)
    ensures
        0 <= nearest(px, i, c0, c1) < 4,
{
}

/// Decoding an encoded block recovers the encoder's endpoints and, for every
/// pixel, the palette index the encoder chose for it.
pub proof fn lemma_encode_then_read_back(px: Seq<u8>)
    requires
        px.len() == 64,
    ensures
        block_color0(dxt1_encode(px)) == enc_c0(px),
        block_color1(dxt1_encode(px)) == enc_c1(px),
        forall|i: int|
            0 <= i < 16 ==> #[trigger] block_index(dxt1_encode(px), i) == nearest(
                px,
                i,
                enc_c0(px),
                enc_c1(px),
            ),
{
    let e = dxt1_encode(px);
    let c0 = enc_c0(px);
    let c1 = enc_c1(px);
    lemma_chan_bounds(px, 0, 16);
    lemma_chan_bounds(px, 1, 16);
    lemma_chan_bounds(px, 2, 16);
    lemma_rgb565_bound(chan_max(px, 0, 16), chan_max(px, 1, 16), chan_max(px, 2, 16));
    lemma_rgb565_bound(chan_min(px, 0, 16), chan_min(px, 1, 16), chan_min(px, 2, 16));
    assert(0 <= c0 < 65536 && 0 <= c1 < 65536);
    assert forall|i: int| 0 <= i < 16 implies #[trigger] block_index(e, i) == nearest(
        px,
        i,
        c0,
        c1,
    ) by {
        let q = i / 4;
        let m = i % 4;
        lemma_nearest_range(px, 4 * q, c0, c1);
        lemma_nearest_range(px, 4 * q + 1, c0, c1);
        lemma_nearest_range(px, 4 * q + 2, c0, c1);
        lemma_nearest_range(px, 4 * q + 3, c0, c1);
        lemma_index_byte_digits(
            nearest(px, 4 * q, c0, c1),
            nearest(px, 4 * q + 1, c0, c1),
            nearest(px, 4 * q + 2, c0, c1),
            nearest(px, 4 * q + 3, c0, c1),
        );
        assert(e[4 + q] == index_byte(px, q));
        assert(i == 4 * q + m);
    }
}

/// Every pixel of a block produced by the encoder decodes fully opaque:
/// either the endpoints differ (opaque four-colour mode) or all palette
/// entries coincide, so no pixel selects the transparent entry.
pub proof fn lemma_encoded_block_is_opaque(px: Seq<u8>)
    requires
        px.len() == 64,
    ensures
        forall|i: int| 0 <= i < 16 ==> #[trigger] dxt1_texel(dxt1_encode(px), i, 3) == 255,
{
    lemma_encode_then_read_back(px);
    let e = dxt1_encode(px);
    let c0 = enc_c0(px);
    let c1 = enc_c1(px);
    assert forall|i: int| 0 <= i < 16 implies #[trigger] dxt1_texel(e, i, 3) == 255 by {
        assert(block_index(e, i) == nearest(px, i, c0, c1));
        if c0 <= c1 {
            assert(c0 == c1);
            assert forall|k: int, ch: int| 0 <= k < 4 && 0 <= ch < 3 implies #[trigger] enc_palette(c0, c1, k, ch)
                == enc_palette(c0, c1, 0, ch) by {}
            assert(nearest(px, i, c0, c1) == 0);
        }
    }
}

/// Squared RGB distance between pixel `i` of `px` and entry `k` of the
/// palette the decoder reads from `block`.
pub open spec fn decoded_entry_dist(px: Seq<u8>, i: int, block: Seq<u8>, k: int) -> int {
    let c0 = block_color0(block);
    let c1 = block_color1(block);
    sq(px[4 * i] - decode_palette(c0, c1, k, 0)) + sq(px[4 * i + 1] - decode_palette(c0, c1, k, 1)) + sq(
        px[4 * i + 2] - decode_palette(c0, c1, k, 2),
    )
}

/// The encoder stores every pixel as a nearest colour of the block's own
/// palette, as the decoder reads that palette from the encoded bytes: no
/// colour entry is closer (in squared RGB distance) to pixel `i` than the
/// entry its stored index names.  In three-colour mode (equal endpoints)
/// the comparison is over the three colour entries.
#[verifier::rlimit(40)]
pub proof fn lemma_encode_picks_nearest(px: Seq<u8>)
    requires
        px.len() == 64,
    ensures
        forall|i: int, k: int|
            0 <= i < 16 && 0 <= k < 4 && (block_color0(dxt1_encode(px)) > block_color1(dxt1_encode(px)) || k < 3)
                ==> decoded_entry_dist(px, i, dxt1_encode(px), block_index(dxt1_encode(px), i))
                <= #[trigger] decoded_entry_dist(px, i, dxt1_encode(px), k),
{
    lemma_encode_then_read_back(px);
    let e = dxt1_encode(px);
    let c0 = enc_c0(px);
    let c1 = enc_c1(px);
    assert(c0 >= c1);
    assert forall|i: int, k: int|
        0 <= i < 16 && 0 <= k < 4 && (block_color0(e) > block_color1(e) || k < 3) implies decoded_entry_dist(
        px,
        i,
        e,
        block_index(e, i),
    ) <= #[trigger] decoded_entry_dist(px, i, e, k) by {
        let n = nearest(px, i, c0, c1);
        assert(block_index(e, i) == n);
        lemma_nearest_range(px, i, c0, c1);
        if c0 > c1 {
            assert forall|j: int| 0 <= j < 4 implies #[trigger] decoded_entry_dist(px, i, e, j) == sq_dist(px, i, c0, c1, j) by {
                assert(decode_palette(c0, c1, j, 0) == enc_palette(c0, c1, j, 0));
                assert(decode_palette(c0, c1, j, 1) == enc_palette(c0, c1, j, 1));
                assert(decode_palette(c0, c1, j, 2) == enc_palette(c0, c1, j, 2));
            }
            assert(sq_dist(px, i, c0, c1, n) <= sq_dist(px, i, c0, c1, k));
        } else {
            assert(c0 == c1);
            assert forall|k2: int, ch2: int| 0 <= k2 < 4 && 0 <= ch2 < 3 implies #[trigger] enc_palette(c0, c1, k2, ch2)
                == enc_palette(c0, c1, 0, ch2) by {}
            assert(n == 0);
            assert forall|j: int| 0 <= j < 3 implies #[trigger] decoded_entry_dist(px, i, e, j) == decoded_entry_dist(px, i, e, 0) by {
                assert(decode_palette(c0, c1, j, 0) == decode_palette(c0, c1, 0, 0));
                assert(decode_palette(c0, c1, j, 1) == decode_palette(c0, c1, 0, 1));
                assert(decode_palette(c0, c1, j, 2) == decode_palette(c0, c1, 0, 2));
            }
        }
    }
}

/// A block of one solid colour encodes so that every pixel decodes to that
/// colour quantized through RGB565, with full opacity.
pub proof fn lemma_solid_block_roundtrip(px: Seq<u8>)
    requires
        px.len() == 64,
        forall|i: int, ch: int| 0 <= i < 16 && 0 <= ch < 3 ==> #[trigger] px[4 * i + ch] == px[ch],
    ensures
        forall|i: int, ch: int|
            0 <= i < 16 && 0 <= ch < 3 ==> #[trigger] dxt1_texel(dxt1_encode(px), i, ch)
                == unpack565_spec(rgb565_spec(px[0] as int, px[1] as int, px[2] as int), ch),
        forall|i: int| 0 <= i < 16 ==> #[trigger] dxt1_texel(dxt1_encode(px), i, 3) == 255,
{
    lemma_encoded_block_is_opaque(px);
    lemma_encode_then_read_back(px);
    let e = dxt1_encode(px);
    lemma_solid_chan(px, 0, 16);
    lemma_solid_chan(px, 1, 16);
    lemma_solid_chan(px, 2, 16);
    assert(chan_min(px, 0, 16) == px[0] && chan_max(px, 0, 16) == px[0]);
    assert(chan_min(px, 1, 16) == px[1] && chan_max(px, 1, 16) == px[1]);
    assert(chan_min(px, 2, 16) == px[2] && chan_max(px, 2, 16) == px[2]);
    let c = rgb565_spec(px[0] as int, px[1] as int, px[2] as int);
    assert(enc_c0(px) == c && enc_c1(px) == c);
    assert forall|i: int, ch: int| 0 <= i < 16 && 0 <= ch < 3 implies #[trigger] dxt1_texel(e, i, ch)
        == unpack565_spec(c, ch) by {
        assert forall|k: int, ch2: int| 0 <= k < 4 && 0 <= ch2 < 3 implies #[trigger] enc_palette(c, c, k, ch2)
            == enc_palette(c, c, 0, ch2) by {}
        assert(nearest(px, i, c, c) == 0);
    }
}

proof fn lemma_solid_chan(px: Seq<u8>, ch: int, n: nat)
    requires
        px.len() == 64,
        0 <= ch < 3,
        n <= 16,
        forall|i: int, c: int| 0 <= i < 16 && 0 <= c < 3 ==> #[trigger] px[4 * i + c] == px[c],
    ensures
        n == 0 || (chan_min(px, ch, n) == px[ch] && chan_max(px, ch, n) == px[ch]),
    decreases n,
{
    if n > 0 {
        lemma_solid_chan(px, ch, (n - 1) as nat);
        assert(px[4 * (n - 1) + ch] == px[ch]);
    }
}

} // verus!
