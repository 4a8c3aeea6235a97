//! SMT (Spring Map Tiles) texture atlas: DXT1 images, mip chains, tiles.
//!
//! An SMT file is a 32-byte header (magic, version, tile count, tile size,
//! compression type) followed by tiles.  Each tile is a 32×32 texture
//! compressed to DXT1 with 4 mip levels (512 + 128 + 32 + 8 = 680 bytes).

use vstd::prelude::*;
use vstd::slice::{slice_subrange, slice_to_vec};

use crate::le::{i32_le_bytes, le_i32_at, lemma_u32_le_roundtrip, push_i32_le, push_u32_le, read_i32_le, u32_as_i32, u32_le_bytes, u32_to_i32};
use vstd::arithmetic::div_mod::lemma_fundamental_div_mod_converse;
use vstd::arithmetic::mul::lemma_mul_inequality;

use crate::dxt1::{compress_dxt1_rgba, decode_dxt1_block, dxt1_encode, dxt1_texel, lemma_dxt1_encode_len};

verus! {

/// Tile size in pixels.
pub const TILE_SIZE: u32 = 32;

/// DXT1 compressed size for one 32×32 tile with 4 mipmap levels.
pub const SMALL_TILE_SIZE: usize = 680;

/// DXT1 compressed size for the base level of one 32×32 tile (no mipmaps).
pub const DXT1_TILE_BYTES: usize = 512;

/// Spring minimap size: 9 mipmap levels of DXT1 1024×1024.
pub const MINIMAP_SIZE: usize = 699048;

/// SMT format version.
pub const SMT_VERSION: i32 = 1;

// ---------------------------------------------------------------------------
// Image model
// ---------------------------------------------------------------------------

/// Channel `ch` of pixel `(x, y)` of a `w`-wide row-major RGBA8 image, or 0
/// when the pixel lies past the end of the buffer.
pub open spec fn image_byte(img: Seq<u8>, w: int, x: int, y: int, ch: int) -> u8 {
    let src = (y * w + x) * 4;
    if src + 3 < img.len() {
        img[src + ch]
    } else {
        0
    }
}

/// The 4×4 block at block coordinates `(bx, by)` as 64 flat RGBA8 bytes.
pub open spec fn image_block(img: Seq<u8>, w: int, bx: int, by: int) -> Seq<u8> {
    Seq::new(64, |k: int| image_byte(img, w, bx * 4 + (k / 4) % 4, by * 4 + k / 16, k % 4))
}

/// DXT1 encodings of the first `n` blocks of an image `nbx` blocks wide, in
/// row-major block order.
pub open spec fn encode_blocks(img: Seq<u8>, w: int, nbx: int, n: nat) -> Seq<u8>
    decreases n,
{
    if n == 0 {
        Seq::empty()
    } else {
        encode_blocks(img, w, nbx, (n - 1) as nat) + dxt1_encode(
            image_block(img, w, (n - 1) % nbx, (n - 1) / nbx),
        )
    }
}

/// DXT1 compression of a `w`×`h` RGBA8 image: one 8-byte block per full 4×4
/// block, row-major.
#[verifier::opaque]
pub open spec fn compress_image_spec(img: Seq<u8>, w: int, h: int) -> Seq<u8> {
    encode_blocks(img, w, w / 4, ((w / 4) * (h / 4)) as nat)
}

/// Encoding `n` blocks gives 8 bytes per block.
pub proof fn lemma_encode_blocks_len(img: Seq<u8>, w: int, nbx: int, n: nat)
    ensures
        encode_blocks(img, w, nbx, n).len() == 8 * n,
    decreases n,
{
    if n > 0 {
        lemma_encode_blocks_len(img, w, nbx, (n - 1) as nat);
        lemma_dxt1_encode_len(image_block(img, w, (n - 1) % nbx, (n - 1) / nbx));
    }
}

/// A compressed image holds 8 bytes per whole 4×4 block.
pub proof fn lemma_compress_image_len(img: Seq<u8>, w: int, h: int)
    requires
        w >= 0,
        h >= 0,
    ensures
        compress_image_spec(img, w, h).len() == 8 * ((w / 4) * (h / 4)),
{
    reveal(compress_image_spec);
    let n = (w / 4) * (h / 4);
    assert(n >= 0) by (nonlinear_arith)
        requires
            w / 4 >= 0,
            h / 4 >= 0,
            n == (w / 4) * (h / 4),
    ;
    lemma_encode_blocks_len(img, w, w / 4, n as nat);
}

proof fn lemma_pixel_offset_bound(x: int, y: int, w: int, h: int)
    requires
        0 <= x < w,
        0 <= y < h,
    ensures
        0 <= (y * w + x) * 4,
        (y * w + x) * 4 + 4 <= h * w * 4,
        (y * w + x) * 4 + 4 <= w * h * 4,
        y * (w * 4) + x * 4 == (y * w + x) * 4,
{
    assert(h * w == w * h) by (nonlinear_arith);
    lemma_mul_inequality(y, h - 1, w);
    assert((h - 1) * w == h * w - w) by (nonlinear_arith);
    assert(y * (w * 4) == (y * w) * 4) by (nonlinear_arith);
    assert(0 <= y * w) by (nonlinear_arith)
        requires
            0 <= y,
            0 <= w,
    ;
}

/// Gathers the 4×4 block at `(bx, by)` of a `width`-wide image.
fn gather_block(rgba8: &[u8], width: u32, height: u32, bx: usize, by: usize) -> (blk: Vec<u8>)
    requires
        width as int * height as int * 4 <= usize::MAX,
        bx * 4 + 4 <= width,
        by * 4 + 4 <= height,
    ensures
        blk@ == image_block(rgba8@, width as int, bx as int, by as int),
{
    assert(width as int * 4 <= width as int * height as int * 4) by (nonlinear_arith)
        requires
            height >= 4,
    ;
    let stride = width as usize * 4;
    let mut blk: Vec<u8> = Vec::new();
    let mut p: usize = 0;
    while p < 16
        invariant
            0 <= p <= 16,
            width as int * height as int * 4 <= usize::MAX,
            bx * 4 + 4 <= width,
            by * 4 + 4 <= height,
            stride == width * 4,
            blk@.len() == 4 * p,
            forall|k: int|
                0 <= k < 4 * p ==> blk@[k] == image_block(
                    rgba8@,
                    width as int,
                    bx as int,
                    by as int,
                )[k],
        decreases 16 - p,
    {
        let y = by * 4 + p / 4;
        let x = bx * 4 + p % 4;
        proof {
            lemma_pixel_offset_bound(x as int, y as int, width as int, height as int);
        }
        let src = y * stride + x * 4;
        let ghost old_blk = blk@;
        if src + 3 < rgba8.len() {
            blk.push(rgba8[src]);
            blk.push(rgba8[src + 1]);
            blk.push(rgba8[src + 2]);
            blk.push(rgba8[src + 3]);
        } else {
            blk.push(0);
            blk.push(0);
            blk.push(0);
            blk.push(0);
        }
        assert forall|k: int| 4 * p <= k < 4 * p + 4 implies blk@[k] == image_block(
            rgba8@,
            width as int,
            bx as int,
            by as int,
        )[k] by {
            assert((k / 4) % 4 == p % 4);
            assert(k / 16 == p / 4);
            assert(k % 4 == k - 4 * p);
        }
        p = p + 1;
    }
    blk
}

/// Compress a full image into DXT1 (used for minimap).
/// Image must be a power of 2 in both dimensions.
pub fn compress_image_dxt1(rgba8: &[u8], width: u32, height: u32) -> (out: Vec<u8>)
    requires
        width as int * height as int * 4 <= usize::MAX,
    ensures
        out@ == compress_image_spec(rgba8@, width as int, height as int),
        out@.len() == (width / 4) * (height / 4) * 8,
{
    let blocks_x = width as usize / 4;
    let blocks_y = height as usize / 4;
    let ghost nbx = blocks_x as int;
    let mut out: Vec<u8> = Vec::new();
    let mut by: usize = 0;
    while by < blocks_y
        invariant
            0 <= by <= blocks_y,
            blocks_x == width / 4,
            blocks_y == height / 4,
            nbx == blocks_x,
            width as int * height as int * 4 <= usize::MAX,
            out@ == encode_blocks(rgba8@, width as int, nbx, (by * blocks_x) as nat),
        decreases blocks_y - by,
    {
        let mut bx: usize = 0;
        while bx < blocks_x
            invariant
                0 <= bx <= blocks_x,
                0 <= by < blocks_y,
                blocks_x == width / 4,
                blocks_y == height / 4,
                nbx == blocks_x,
                width as int * height as int * 4 <= usize::MAX,
                out@ == encode_blocks(rgba8@, width as int, nbx, (by * blocks_x + bx) as nat),
            decreases blocks_x - bx,
        {
            let blk = gather_block(rgba8, width, height, bx, by);
            let enc = compress_dxt1_rgba(&blk);
            let ghost n = by * blocks_x + bx;
            proof {
                lemma_fundamental_div_mod_converse(n as int, nbx, by as int, bx as int);
            }
            let mut j: usize = 0;
            let ghost before = out@;
            while j < 8
                invariant
                    0 <= j <= 8,
                    out@ == before + enc@.subrange(0, j as int),
                decreases 8 - j,
            {
                out.push(enc[j]);
                assert(enc@.subrange(0, (j + 1) as int) =~= enc@.subrange(0, j as int).push(
                    enc@[j as int],
                ));
                j = j + 1;
            }
            assert(enc@.subrange(0, 8) =~= enc@);
            assert((by * blocks_x + bx + 1) as nat - 1 == n);
            bx = bx + 1;
        }
        assert((by + 1) * blocks_x == by * blocks_x + blocks_x) by (nonlinear_arith);
        by = by + 1;
    }
    proof {
        reveal(compress_image_spec);
        lemma_encode_blocks_len(rgba8@, width as int, nbx, (blocks_y * blocks_x) as nat);
        assert(blocks_y * blocks_x == blocks_x * blocks_y) by (nonlinear_arith);
    }
    out
}

// ---------------------------------------------------------------------------
// Mip chains
// ---------------------------------------------------------------------------

/// Channel `ch` of pixel `(nx, ny)` of the half-size image: the truncated
/// mean of the 2×2 source pixels it covers.
pub open spec fn box_avg(img: Seq<u8>, size: int, nx: int, ny: int, ch: int) -> int {
    (img[((2 * ny) * size + 2 * nx) * 4 + ch] + img[((2 * ny) * size + 2 * nx + 1) * 4 + ch]
        + img[((2 * ny + 1) * size + 2 * nx) * 4 + ch] + img[((2 * ny + 1) * size + 2 * nx + 1)
        * 4 + ch]) / 4
}

/// 2×2 box-filter downsample of a `size`×`size` RGBA8 image.
#[verifier::opaque]
pub open spec fn downsample_spec(img: Seq<u8>, size: int) -> Seq<u8> {
    downsample_raw(img, size)
}

pub open spec fn downsample_raw(img: Seq<u8>, size: int) -> Seq<u8> {
    let ns = size / 2;
    Seq::new(
        (ns * ns * 4) as nat,
        |k: int| box_avg(img, size, (k / 4) % ns, (k / 4) / ns, k % 4) as u8,
    )
}

/// The DXT1 mip chain the SMT writer produces: `levels` levels starting at
/// `size`×`size`, each level compressed, the image halved while it is wider
/// than one block.
pub open spec fn mip_chain_dxt1(img: Seq<u8>, size: int, levels: nat) -> Seq<u8>
    decreases levels,
{
    if levels == 0 {
        Seq::empty()
    } else {
        compress_image_spec(img, size, size) + if size > 4 {
            mip_chain_dxt1(downsample_spec(img, size), size / 2, (levels - 1) as nat)
        } else {
            mip_chain_dxt1(img, size, (levels - 1) as nat)
        }
    }
}

/// Byte length of one compressed `size`×`size` level.
pub open spec fn level_bytes(size: int) -> int {
    (size / 4) * (size / 4) * 8
}

/// Byte length of `mip_chain_dxt1` for a `size`×`size` start.
pub open spec fn mip_chain_len(size: int, levels: nat) -> int
    decreases levels,
{
    if levels == 0 {
        0
    } else {
        level_bytes(size) + mip_chain_len(
            if size > 4 {
                size / 2
            } else {
                size
            },
            (levels - 1) as nat,
        )
    }
}

/// A mip chain has the length [`mip_chain_len`] gives.
pub proof fn lemma_mip_chain_len(img: Seq<u8>, size: int, levels: nat)
    requires
        size >= 0,
    ensures
        mip_chain_dxt1(img, size, levels).len() == mip_chain_len(size, levels),
    decreases levels,
{
    if levels > 0 {
        lemma_compress_image_len(img, size, size);
        if size > 4 {
            lemma_mip_chain_len(downsample_spec(img, size), size / 2, (levels - 1) as nat);
        } else {
            lemma_mip_chain_len(img, size, (levels - 1) as nat);
        }
    }
}

/// A block inside a `s`×`s` image reads only the image's first `s*s*4` bytes.
proof fn lemma_image_block_prefix(img: Seq<u8>, s: int, bx: int, by: int)
    requires
        s >= 0,
        img.len() >= s * s * 4,
        0 <= bx < s / 4,
        0 <= by < s / 4,
    ensures
        image_block(img, s, bx, by) == image_block(img.subrange(0, s * s * 4), s, bx, by),
{
    let p = img.subrange(0, s * s * 4);
    assert forall|k: int| 0 <= k < 64 implies #[trigger] image_block(img, s, bx, by)[k] == image_block(p, s, bx, by)[k] by {
        let x = bx * 4 + (k / 4) % 4;
        let y = by * 4 + k / 16;
        lemma_pixel_offset_bound(x, y, s, s);
    }
    assert(image_block(img, s, bx, by) =~= image_block(p, s, bx, by));
}

proof fn lemma_encode_blocks_prefix(img: Seq<u8>, s: int, n: nat)
    requires
        s >= 4,
        img.len() >= s * s * 4,
        n <= (s / 4) * (s / 4),
    ensures
        encode_blocks(img, s, s / 4, n) == encode_blocks(img.subrange(0, s * s * 4), s, s / 4, n),
    decreases n,
{
    if n > 0 {
        let nbx = s / 4;
        let i = n - 1;
        lemma_encode_blocks_prefix(img, s, (n - 1) as nat);
        assert(i / nbx < nbx && i % nbx < nbx && 0 <= i / nbx) by (nonlinear_arith)
            requires
                nbx >= 1,
                0 <= i < nbx * nbx,
        ;
        lemma_image_block_prefix(img, s, i % nbx, i / nbx);
    }
}

/// A `s`×`s` level compresses from the image's first `s*s*4` bytes only.
proof fn lemma_compress_image_prefix(img: Seq<u8>, s: int)
    requires
        s >= 0,
        img.len() >= s * s * 4,
    ensures
        compress_image_spec(img, s, s) == compress_image_spec(img.subrange(0, s * s * 4), s, s),
{
    reveal(compress_image_spec);
    let nb = s / 4;
    let n = nb * nb;
    assert(n >= 0) by (nonlinear_arith)
        requires
            nb >= 0,
            n == nb * nb,
    ;
    if s >= 4 {
        lemma_encode_blocks_prefix(img, s, n as nat);
    } else {
        assert(n == 0) by (nonlinear_arith)
            requires
                nb == 0,
                n == nb * nb,
        ;
    }
}

/// Halving a `s`×`s` image reads only its first `s*s*4` bytes.
proof fn lemma_downsample_prefix(img: Seq<u8>, s: int)
    requires
        s >= 0,
        img.len() >= s * s * 4,
    ensures
        downsample_spec(img, s) == downsample_spec(img.subrange(0, s * s * 4), s),
{
    reveal(downsample_spec);
    let p = img.subrange(0, s * s * 4);
    let ns = s / 2;
    assert forall|k: int| 0 <= k < ns * ns * 4 implies #[trigger] downsample_raw(img, s)[k] == downsample_raw(p, s)[k] by {
        let nx = (k / 4) % ns;
        let ny = (k / 4) / ns;
        let ch = k % 4;
        assert(0 <= nx < ns && 0 <= ny < ns) by (nonlinear_arith)
            requires
                ns >= 1,
                0 <= k < ns * ns * 4,
                nx == (k / 4) % ns,
                ny == (k / 4) / ns,
        ;
        lemma_pixel_offset_bound(2 * nx, 2 * ny, s, s);
        lemma_pixel_offset_bound(2 * nx + 1, 2 * ny, s, s);
        lemma_pixel_offset_bound(2 * nx, 2 * ny + 1, s, s);
        lemma_pixel_offset_bound(2 * nx + 1, 2 * ny + 1, s, s);
    }
    assert(downsample_raw(img, s) =~= downsample_raw(p, s));
}

/// A mip chain starting at `s`×`s` depends only on the image's first
/// `s*s*4` bytes.
pub proof fn lemma_mip_chain_prefix(img: Seq<u8>, s: int, levels: nat)
    requires
        s >= 0,
        img.len() >= s * s * 4,
    ensures
        mip_chain_dxt1(img, s, levels) == mip_chain_dxt1(img.subrange(0, s * s * 4), s, levels),
    decreases levels,
{
    if levels > 0 {
        lemma_compress_image_prefix(img, s);
        if s > 4 {
            lemma_downsample_prefix(img, s);
        } else {
            lemma_mip_chain_prefix(img, s, (levels - 1) as nat);
        }
    }
}

/// A compressed tile depends only on the tile's first 4096 bytes (its
/// 32×32 pixels).
pub proof fn lemma_tile_chain_prefix(img: Seq<u8>)
    requires
        img.len() >= 4096,
    ensures
        mip_chain_dxt1(img, 32, 4) == mip_chain_dxt1(img.subrange(0, 4096), 32, 4),
{
    lemma_mip_chain_prefix(img, 32, 4);
}

/// A minimap depends only on the image's first 4 MiB (its 1024×1024 pixels).
pub proof fn lemma_minimap_chain_prefix(img: Seq<u8>)
    requires
        img.len() >= 1024 * 1024 * 4,
    ensures
        mip_chain_dxt1(img, 1024, 9) == mip_chain_dxt1(img.subrange(0, 4194304), 1024, 9),
{
    lemma_mip_chain_prefix(img, 1024, 9);
}

/// 2×2 box-filter downsample (truncating mean per channel).
fn downsample(img: &[u8], size: usize) -> (out: Vec<u8>)
    requires
        size >= 2,
        size as int * size as int * 4 <= usize::MAX,
        img@.len() >= size * size * 4,
    ensures
        out@ == downsample_spec(img@, size as int),
        out@.len() == (size / 2) * (size / 2) * 4,
{
    let ns = size / 2;
    let ghost gns = ns as int;
    let mut out: Vec<u8> = Vec::new();
    let mut ny: usize = 0;
    while ny < ns
        invariant
            0 <= ny <= ns,
            ns == size / 2,
            gns == ns,
            size >= 2,
            size as int * size as int * 4 <= usize::MAX,
            img@.len() >= size * size * 4,
            out@.len() == ny * ns * 4,
            forall|k: int| 0 <= k < out@.len() ==> out@[k] == downsample_raw(img@, size as int)[k],
        decreases ns - ny,
    {
        let mut nx: usize = 0;
        while nx < ns
            invariant
                0 <= nx <= ns,
                0 <= ny < ns,
                ns == size / 2,
                gns == ns,
                size >= 2,
                size as int * size as int * 4 <= usize::MAX,
                img@.len() >= size * size * 4,
                out@.len() == (ny * ns + nx) * 4,
                forall|k: int|
                    0 <= k < out@.len() ==> out@[k] == downsample_raw(img@, size as int)[k],
            decreases ns - nx,
        {
            proof {
                lemma_pixel_offset_bound(2 * nx + 1, 2 * ny + 1, size as int, size as int);
                lemma_pixel_offset_bound(2 * nx, 2 * ny, size as int, size as int);
                lemma_pixel_offset_bound(2 * nx + 1, 2 * ny, size as int, size as int);
                lemma_pixel_offset_bound(2 * nx, 2 * ny + 1, size as int, size as int);
                lemma_pixel_offset_bound(nx as int, ny as int, ns as int, ns as int);
                assert(ns * ns * 4 <= size * size * 4) by (nonlinear_arith)
                    requires
                        ns <= size,
                ;
            }
            let i00 = ((2 * ny) * size + 2 * nx) * 4;
            let i10 = ((2 * ny) * size + 2 * nx + 1) * 4;
            let i01 = ((2 * ny + 1) * size + 2 * nx) * 4;
            let i11 = ((2 * ny + 1) * size + 2 * nx + 1) * 4;
            let ghost t = ny * ns + nx;
            proof {
                lemma_fundamental_div_mod_converse(t, gns, ny as int, nx as int);
            }
            let mut ch: usize = 0;
            while ch < 4
                invariant
                    0 <= ch <= 4,
                    0 <= nx < ns,
                    0 <= ny < ns,
                    ns == size / 2,
                    gns == ns,
                    t == ny * ns + nx,
                    t % gns == nx,
                    t / gns == ny,
                    size >= 2,
                    img@.len() >= size * size * 4,
                    i00 == ((2 * ny) * size + 2 * nx) * 4,
                    i10 == ((2 * ny) * size + 2 * nx + 1) * 4,
                    i01 == ((2 * ny + 1) * size + 2 * nx) * 4,
                    i11 == ((2 * ny + 1) * size + 2 * nx + 1) * 4,
                    i11 + 4 <= size * size * 4,
                    i00 + 4 <= size * size * 4,
                    i10 + 4 <= size * size * 4,
                    i01 + 4 <= size * size * 4,
                    t * 4 + 4 <= ns * ns * 4,
                    out@.len() == t * 4 + ch,
                    forall|k: int|
                        0 <= k < out@.len() ==> out@[k] == downsample_raw(img@, size as int)[k],
                decreases 4 - ch,
            {
                let sum = img[i00 + ch] as u32 + img[i10 + ch] as u32 + img[i01 + ch] as u32
                    + img[i11 + ch] as u32;
                let v = (sum / 4) as u8;
                out.push(v);
                proof {
                    let k = t * 4 + ch;
                    assert(k / 4 == t);
                    assert(k % 4 == ch);
                    assert(v == box_avg(img@, size as int, nx as int, ny as int, ch as int) as u8);
                }
                ch = ch + 1;
            }
            nx = nx + 1;
        }
        assert((ny + 1) * ns * 4 == ny * ns * 4 + ns * 4) by (nonlinear_arith);
        ny = ny + 1;
    }
    proof {
        reveal(downsample_spec);
        assert(out@ =~= downsample_spec(img@, size as int));
    }
    out
}

/// Compresses `levels` DXT1 mip levels of a `size`×`size` RGBA8 image.
fn dxt1_mip_chain(rgba8: &[u8], size: u32, levels: u32) -> (out: Vec<u8>)
    requires
        4 <= size <= 1024,
        rgba8@.len() >= size * size * 4,
    ensures
        out@ == mip_chain_dxt1(rgba8@, size as int, levels as nat),
{
    let mut out: Vec<u8> = Vec::new();
    let mut current = slice_to_vec(rgba8);
    let mut cur_size: u32 = size;
    let mut level: u32 = 0;
    while level < levels
        invariant
            0 <= level <= levels,
            1 <= cur_size <= size <= 1024,
            current@.len() >= cur_size * cur_size * 4,
            out@ + mip_chain_dxt1(current@, cur_size as int, (levels - level) as nat)
                == mip_chain_dxt1(rgba8@, size as int, levels as nat),
        decreases levels - level,
    {
        proof {
            assert(cur_size as int * cur_size as int * 4 <= 1024 * 1024 * 4) by (nonlinear_arith)
                requires
                    cur_size <= 1024,
            ;
        }
        let ghost rest = (levels - level - 1) as nat;
        let ghost before = out@;
        let ghost prev = current@;
        let ghost prev_size = cur_size as int;
        let mut compressed = compress_image_dxt1(&current, cur_size, cur_size);
        out.append(&mut compressed);
        if cur_size > 4 {
            let next = downsample(&current, cur_size as usize);
            current = next;
            cur_size = cur_size / 2;
        }
        proof {
            assert((levels - level) as nat == rest + 1);
            let c = compress_image_spec(prev, prev_size, prev_size);
            assert(mip_chain_dxt1(prev, prev_size, rest + 1) == c + mip_chain_dxt1(
                current@,
                cur_size as int,
                rest,
            ));
            assert(before + (c + mip_chain_dxt1(current@, cur_size as int, rest)) =~= (before + c)
                + mip_chain_dxt1(current@, cur_size as int, rest));
            assert((levels - (level + 1)) as nat == rest);
        }
        level = level + 1;
    }
    out
}

/// Compress a 32×32 tile (RGBA8 bytes, row-major) into DXT1 with 4 mipmap levels.
/// Returns exactly SMALL_TILE_SIZE (680) bytes.
pub fn compress_tile_dxt1(rgba8: &[u8]) -> (out: Vec<u8>)
    requires
        rgba8@.len() >= 32 * 32 * 4,
    ensures
        out@ == mip_chain_dxt1(rgba8@, 32, 4),
        out@ == mip_chain_dxt1(rgba8@.subrange(0, 4096), 32, 4),
        out@.len() == SMALL_TILE_SIZE,
{
    let out = dxt1_mip_chain(rgba8, 32, 4);
    proof {
        lemma_tile_chain_prefix(rgba8@);
        lemma_mip_chain_len(rgba8@, 32, 4);
        assert(level_bytes(4) == 8 && level_bytes(8) == 32 && level_bytes(16) == 128 && level_bytes(32)
            == 512) by (nonlinear_arith);
        assert(mip_chain_len(4, 0) == 0);
        assert(mip_chain_len(4, 1) == 8);
        assert(mip_chain_len(8, 2) == 40);
        assert(mip_chain_len(16, 3) == 168);
        assert(mip_chain_len(32, 4) == 680);
    }
    out
}

/// Generate a Spring-compatible minimap (DXT1, 9 mipmap levels, 699048 bytes).
/// Input: 1024×1024 RGBA8 image data.
pub fn generate_minimap_dxt1(rgba8_1024: &[u8]) -> (out: Vec<u8>)
    requires
        rgba8_1024@.len() >= 1024 * 1024 * 4,
    ensures
        out@ == mip_chain_dxt1(rgba8_1024@, 1024, 9),
        out@ == mip_chain_dxt1(rgba8_1024@.subrange(0, 4194304), 1024, 9),
        out@.len() == MINIMAP_SIZE,
{
    let out = dxt1_mip_chain(rgba8_1024, 1024, 9);
    proof {
        lemma_minimap_chain_prefix(rgba8_1024@);
        lemma_mip_chain_len(rgba8_1024@, 1024, 9);
        assert(level_bytes(4) == 8 && level_bytes(8) == 32 && level_bytes(16) == 128 && level_bytes(32)
            == 512 && level_bytes(64) == 2048 && level_bytes(128) == 8192 && level_bytes(256) == 32768
            && level_bytes(512) == 131072 && level_bytes(1024) == 524288) by (nonlinear_arith);
        assert(mip_chain_len(4, 0) == 0);
        assert(mip_chain_len(4, 1) == 8);
        assert(mip_chain_len(8, 2) == 40);
        assert(mip_chain_len(16, 3) == 168);
        assert(mip_chain_len(32, 4) == 680);
        assert(mip_chain_len(64, 5) == 2728);
        assert(mip_chain_len(128, 6) == 10920);
        assert(mip_chain_len(256, 7) == 43688);
        assert(mip_chain_len(512, 8) == 174760);
        assert(mip_chain_len(1024, 9) == 699048);
    }
    out
}

// ---------------------------------------------------------------------------
// Tile decoding and BC1 assembly
// ---------------------------------------------------------------------------

/// The 8-byte DXT1 block at block coordinates `(bx, by)` of a tile's base level.
pub open spec fn tile_block(tile: Seq<u8>, bx: int, by: int) -> Seq<u8> {
    tile.subrange((by * 8 + bx) * 8, (by * 8 + bx) * 8 + 8)
}

/// Channel `ch` of pixel `(x, y)` of a decoded 32×32 tile.
pub open spec fn decoded_tile_byte(tile: Seq<u8>, x: int, y: int, ch: int) -> int {
    dxt1_texel(tile_block(tile, x / 4, y / 4), (y % 4) * 4 + x % 4, ch)
}

/// The 32×32×4 RGBA8 bytes decoded from the base level of a compressed tile.
#[verifier::opaque]
pub open spec fn decode_tile_spec(tile: Seq<u8>) -> Seq<u8> {
    decode_tile_raw(tile)
}

pub open spec fn decode_tile_raw(tile: Seq<u8>) -> Seq<u8> {
    Seq::new(4096, |k: int| decoded_tile_byte(tile, (k / 4) % 32, (k / 4) / 32, k % 4) as u8)
}

/// Decode the base mip level of a DXT1-compressed 32×32 tile.
///
/// The 680-byte tile blob contains 4 mip levels; only the first 512 bytes
/// (the 32×32 base level = 8×8 DXT1 blocks × 8 bytes each) are decoded.
/// Returns a 32×32×4 RGBA8 buffer (4096 bytes), row-major.
pub fn decode_tile_dxt1(compressed_tile: &[u8]) -> (rgba: Vec<u8>)
    requires
        compressed_tile@.len() >= 512,
    ensures
        rgba@ == decode_tile_spec(compressed_tile@),
        rgba@.len() == 4096,
{
    let mut rgba: Vec<u8> = Vec::new();
    let mut y: usize = 0;
    while y < 32
        invariant
            0 <= y <= 32,
            compressed_tile@.len() >= 512,
            rgba@.len() == y * 128,
            forall|k: int|
                0 <= k < rgba@.len() ==> rgba@[k] == decode_tile_raw(compressed_tile@)[k],
        decreases 32 - y,
    {
        let mut bx: usize = 0;
        while bx < 8
            invariant
                0 <= bx <= 8,
                0 <= y < 32,
                compressed_tile@.len() >= 512,
                rgba@.len() == y * 128 + bx * 16,
                forall|k: int|
                    0 <= k < rgba@.len() ==> rgba@[k] == decode_tile_raw(compressed_tile@)[k],
            decreases 8 - bx,
        {
            let src = ((y / 4) * 8 + bx) * 8;
            let block: [u8; 8] = [
                compressed_tile[src],
                compressed_tile[src + 1],
                compressed_tile[src + 2],
                compressed_tile[src + 3],
                compressed_tile[src + 4],
                compressed_tile[src + 5],
                compressed_tile[src + 6],
                compressed_tile[src + 7],
            ];
            assert(block@ =~= tile_block(compressed_tile@, bx as int, (y / 4) as int));
            let pixels = decode_dxt1_block(&block);
            let mut dx: usize = 0;
            while dx < 4
                invariant
                    0 <= dx <= 4,
                    0 <= bx < 8,
                    0 <= y < 32,
                    compressed_tile@.len() >= 512,
                    block@ == tile_block(compressed_tile@, bx as int, (y / 4) as int),
                    forall|i: int, ch: int|
                        0 <= i < 16 && 0 <= ch < 4 ==> #[trigger] pixels@[i]@[ch] == dxt1_texel(
                            block@,
                            i,
                            ch,
                        ),
                    rgba@.len() == y * 128 + bx * 16 + dx * 4,
                    forall|k: int|
                        0 <= k < rgba@.len() ==> rgba@[k] == decode_tile_raw(compressed_tile@)[k],
                decreases 4 - dx,
            {
                let px = pixels[(y % 4) * 4 + dx];
                let mut ch: usize = 0;
                while ch < 4
                    invariant
                        0 <= ch <= 4,
                        0 <= dx < 4,
                        0 <= bx < 8,
                        0 <= y < 32,
                        compressed_tile@.len() >= 512,
                        block@ == tile_block(compressed_tile@, bx as int, (y / 4) as int),
                        px == pixels@[(y % 4) * 4 + dx],
                        forall|i: int, c: int|
                            0 <= i < 16 && 0 <= c < 4 ==> #[trigger] pixels@[i]@[c] == dxt1_texel(
                                block@,
                                i,
                                c,
                            ),
                        rgba@.len() == y * 128 + bx * 16 + dx * 4 + ch,
                        forall|k: int|
                            0 <= k < rgba@.len() ==> rgba@[k] == decode_tile_raw(compressed_tile@)[k],
                    decreases 4 - ch,
                {
                    rgba.push(px[ch]);
                    proof {
                        let k = (y * 128 + bx * 16 + dx * 4 + ch) as int;
                        let x = (bx * 4 + dx) as int;
                        assert(k / 4 == y * 32 + x);
                        assert((k / 4) % 32 == x);
                        assert((k / 4) / 32 == y);
                        assert(k % 4 == ch);
                        assert(x / 4 == bx);
                        assert(x % 4 == dx);
                        assert(px@[ch as int] == pixels@[(y % 4) * 4 + dx]@[ch as int]);
                    }
                    ch = ch + 1;
                }
                dx = dx + 1;
            }
            bx = bx + 1;
        }
        y = y + 1;
    }
    proof {
        reveal(decode_tile_spec);
    }
    assert(rgba@ =~= decode_tile_spec(compressed_tile@));
    rgba
}

/// The base-level bytes used for tile position `pos`: the pool entry named by
/// `tile_indices[pos]` (missing or negative indices select entry 0), or 512
/// zero bytes when that entry is missing or shorter than a base level.
pub open spec fn pool_tile_bytes(pool: Seq<Vec<u8>>, tile_indices: Seq<i32>, pos: int) -> Seq<u8> {
    let idx: int = if 0 <= pos < tile_indices.len() {
        tile_indices[pos] as int
    } else {
        0
    };
    let ti: int = if idx < 0 {
        0
    } else {
        idx
    };
    if ti < pool.len() && pool[ti]@.len() >= 512 {
        pool[ti]@.subrange(0, 512)
    } else {
        Seq::new(512, |_i: int| 0u8)
    }
}

/// Byte `k` of the linear BC1 image assembled from a `tiles_x`-wide tile grid:
/// block rows of all tiles in a tile row are laid side by side.
pub open spec fn assembled_byte(pool: Seq<Vec<u8>>, tile_indices: Seq<i32>, tiles_x: int, k: int) -> u8 {
    let row_bytes = tiles_x * 64;
    let row = k / row_bytes;
    let within = k % row_bytes;
    pool_tile_bytes(pool, tile_indices, (row / 8) * tiles_x + within / 64)[(row % 8) * 64 + within % 64]
}

/// Assemble a flat linear BC1 image from a tile pool and tile index.
///
/// Each element of `tile_pool` must be exactly [`DXT1_TILE_BYTES`] bytes
/// (base-level DXT1 for a 32x32 tile). `tile_indices` maps (ty*tiles_x + tx)
/// to a tile pool index. The returned bytes are suitable for upload to a
/// `Bc1RgbaUnorm` texture of size `(tiles_x*32) x (tiles_y*32)`.
pub fn assemble_bc1_linear(tile_pool: &[Vec<u8>], tile_indices: &[i32], tiles_x: u32, tiles_y: u32) -> (out: Vec<u8>)
    requires
        tiles_x as int * tiles_y as int * 512 <= usize::MAX,
    ensures
        out@.len() == tiles_x * tiles_y * 512,
        forall|k: int|
            0 <= k < out@.len() ==> out@[k] == assembled_byte(
                tile_pool@,
                tile_indices@,
                tiles_x as int,
                k,
            ),
{
    let txn = tiles_x as usize;
    let tyn = tiles_y as usize;
    let ghost row_bytes = txn * 64;
    let empty: Vec<u8> = vec![0u8; 512];
    let mut out: Vec<u8> = Vec::new();
    if txn == 0 {
        assert(tiles_x * tiles_y * 512 == 0) by (nonlinear_arith)
            requires
                tiles_x == 0,
        ;
        return out;
    }
    proof {
        assert(tyn * 8 * (txn * 64) == txn * tyn * 512) by (nonlinear_arith);
        assert(tyn * 8 <= txn * tyn * 512) by (nonlinear_arith)
            requires
                txn >= 1,
        ;
    }
    let mut row: usize = 0;
    while row < tyn * 8
        invariant
            0 <= row <= tyn * 8,
            tyn * 8 <= txn * tyn * 512,
            txn == tiles_x,
            tyn == tiles_y,
            row_bytes == txn * 64,
            tyn * 8 * (txn * 64) == txn * tyn * 512,
            tiles_x as int * tiles_y as int * 512 <= usize::MAX,
            empty@.len() == 512,
            forall|i: int| 0 <= i < 512 ==> empty@[i] == 0,
            out@.len() == row * row_bytes,
            forall|k: int|
                0 <= k < out@.len() ==> out@[k] == assembled_byte(
                    tile_pool@,
                    tile_indices@,
                    tiles_x as int,
                    k,
                ),
        decreases tyn * 8 - row,
    {
        proof {
            assert(row * row_bytes + row_bytes <= tyn * 8 * (txn * 64)) by (nonlinear_arith)
                requires
                    row < tyn * 8,
                    row_bytes == txn * 64,
            ;
        }
        let mut tx: usize = 0;
        while tx < txn
            invariant
                0 <= tx <= txn,
                0 <= row < tyn * 8,
                txn == tiles_x,
                tyn == tiles_y,
                row_bytes == txn * 64,
                row * row_bytes + row_bytes <= tyn * 8 * (txn * 64),
                tyn * 8 * (txn * 64) == txn * tyn * 512,
                tiles_x as int * tiles_y as int * 512 <= usize::MAX,
                empty@.len() == 512,
                forall|i: int| 0 <= i < 512 ==> empty@[i] == 0,
                out@.len() == row * row_bytes + tx * 64,
                forall|k: int|
                    0 <= k < out@.len() ==> out@[k] == assembled_byte(
                        tile_pool@,
                        tile_indices@,
                        tiles_x as int,
                        k,
                    ),
            decreases txn - tx,
        {
            proof {
                assert((row / 8) * txn + tx < txn * tyn) by (nonlinear_arith)
                    requires
                        row < tyn * 8,
                        tx < txn,
                ;
            }
            let idx_pos = (row / 8) * txn + tx;
            let raw_idx: i32 = if idx_pos < tile_indices.len() {
                tile_indices[idx_pos]
            } else {
                0
            };
            let tile_idx: usize = if raw_idx < 0 {
                0
            } else {
                raw_idx as usize
            };
            let use_pool = tile_idx < tile_pool.len() && tile_pool[tile_idx].len() >= 512;
            let ghost src_tile = pool_tile_bytes(tile_pool@, tile_indices@, idx_pos as int);
            let src = (row % 8) * 64;
            let mut off: usize = 0;
            while off < 64
                invariant
                    0 <= off <= 64,
                    0 <= tx < txn,
                    0 <= row < tyn * 8,
                    txn == tiles_x,
                    row_bytes == txn * 64,
                    idx_pos == (row / 8) * txn + tx,
                    src == (row % 8) * 64,
                    src_tile == pool_tile_bytes(tile_pool@, tile_indices@, idx_pos as int),
                    use_pool == (tile_idx < tile_pool@.len() && tile_pool@[tile_idx as int]@.len() >= 512),
                    tile_idx as int == (if (if 0 <= idx_pos < tile_indices@.len() {
                        tile_indices@[idx_pos as int] as int
                    } else {
                        0
                    }) < 0 {
                        0
                    } else {
                        (if 0 <= idx_pos < tile_indices@.len() {
                            tile_indices@[idx_pos as int] as int
                        } else {
                            0
                        })
                    }),
                    empty@.len() == 512,
                    forall|i: int| 0 <= i < 512 ==> empty@[i] == 0,
                    out@.len() == row * row_bytes + tx * 64 + off,
                    forall|k: int|
                        0 <= k < out@.len() ==> out@[k] == assembled_byte(
                            tile_pool@,
                            tile_indices@,
                            tiles_x as int,
                            k,
                        ),
                decreases 64 - off,
            {
                let b = if use_pool {
                    tile_pool[tile_idx][src + off]
                } else {
                    empty[src + off]
                };
                out.push(b);
                proof {
                    let k = row * row_bytes + tx * 64 + off;
                    lemma_fundamental_div_mod_converse(
                        k as int,
                        row_bytes as int,
                        row as int,
                        (tx * 64 + off) as int,
                    );
                    assert((tx * 64 + off) / 64 == tx);
                    assert((tx * 64 + off) % 64 == off);
                    assert(b == src_tile[src + off]);
                }
                off = off + 1;
            }
            tx = tx + 1;
        }
        assert((row + 1) * row_bytes == row * row_bytes + txn * 64) by (nonlinear_arith)
            requires
                row_bytes == txn * 64,
        ;
        row = row + 1;
    }
    out
}

// ---------------------------------------------------------------------------
// SMT files
// ---------------------------------------------------------------------------

/// Errors reading or writing an SMT file.
#[derive(Debug, Clone, Copy, PartialEq, Eq)]
pub enum SmtError {
    /// The data ended before the header or a declared tile.
    UnexpectedEof,
    /// Texture dimensions must be multiples of the tile size.
    InvalidDimensions(u32, u32),
}

/// Number of tiles an SMT header declares (negative counts read as zero).
pub open spec fn smt_tile_count(data: Seq<u8>) -> int {
    let n = le_i32_at(data, 20);
    if n < 0 {
        0
    } else {
        n
    }
}

/// The data holds the 32-byte header and every declared 680-byte tile.
pub open spec fn smt_complete(data: Seq<u8>) -> bool {
    data.len() >= 32 && data.len() >= 32 + 680 * smt_tile_count(data)
}

/// The full 680-byte record of tile `i`.
pub open spec fn smt_tile_record(data: Seq<u8>, i: int) -> Seq<u8> {
    data.subrange(32 + 680 * i, 32 + 680 * i + 680)
}

/// The base-level (first 512 bytes) of tile `i`.
pub open spec fn smt_raw_tile(data: Seq<u8>, i: int) -> Seq<u8> {
    data.subrange(32 + 680 * i, 32 + 680 * i + 512)
}

/// Checks the header and returns the declared tile count when every tile is present.
fn smt_checked_count(data: &[u8]) -> (r: Result<usize, SmtError>)
    ensures
        r is Ok == smt_complete(data@),
        r matches Err(e) ==> e == SmtError::UnexpectedEof,
        r matches Ok(n) ==> n == smt_tile_count(data@),
{
    if data.len() < 32 {
        return Err(SmtError::UnexpectedEof);
    }
    let n_raw = read_i32_le(data, 20);
    let n64: u64 = if n_raw < 0 {
        0
    } else {
        n_raw as u64
    };
    if (data.len() as u64) < 32 + 680 * n64 {
        return Err(SmtError::UnexpectedEof);
    }
    Ok(n64 as usize)
}

/// Read the SMT tile pool as raw compressed DXT1 bytes (base level only).
///
/// Unlike [`read_smt`], this does not decode to RGBA. Each returned Vec is
/// exactly [`DXT1_TILE_BYTES`] bytes -- the base-level DXT1 data suitable
/// for upload to a `Bc1RgbaUnorm` GPU texture.  The magic, version, tile
/// size and compression fields are not checked.
pub fn read_smt_raw(data: &[u8]) -> (r: Result<Vec<Vec<u8>>, SmtError>)
    ensures
        r is Ok == smt_complete(data@),
        r matches Err(e) ==> e == SmtError::UnexpectedEof,
        r matches Ok(tiles) ==> {
            &&& tiles@.len() == smt_tile_count(data@)
            &&& forall|i: int|
                0 <= i < tiles@.len() ==> #[trigger] tiles@[i]@ == smt_raw_tile(data@, i)
        },
{
    let n = match smt_checked_count(data) {
        Ok(n) => n,
        Err(e) => return Err(e),
    };
    let len = data.len();
    let mut tiles: Vec<Vec<u8>> = Vec::new();
    let mut i: usize = 0;
    while i < n
        invariant
            0 <= i <= n,
            len == data@.len(),
            n == smt_tile_count(data@),
            smt_complete(data@),
            32 + 680 * n <= data@.len(),
            tiles@.len() == i,
            forall|j: int| 0 <= j < i ==> #[trigger] tiles@[j]@ == smt_raw_tile(data@, j),
        decreases n - i,
    {
        let off = 32 + 680 * i;
        let raw = slice_to_vec(slice_subrange(data, off, off + 512));
        tiles.push(raw);
        i = i + 1;
    }
    Ok(tiles)
}

/// Read all tiles from an SMT file, returning decoded RGBA8 pixel data per tile.
///
/// Each element in the returned `Vec` is a 4096-byte buffer (32×32 pixels × 4 channels).
/// Only the base mip level is decoded; higher mips are skipped.
pub fn read_smt(data: &[u8]) -> (r: Result<Vec<Vec<u8>>, SmtError>)
    ensures
        r is Ok == smt_complete(data@),
        r matches Err(e) ==> e == SmtError::UnexpectedEof,
        r matches Ok(tiles) ==> {
            &&& tiles@.len() == smt_tile_count(data@)
            &&& forall|i: int|
                0 <= i < tiles@.len() ==> #[trigger] tiles@[i]@ == decode_tile_spec(
                    smt_tile_record(data@, i),
                )
        },
{
    let n = match smt_checked_count(data) {
        Ok(n) => n,
        Err(e) => return Err(e),
    };
    let len = data.len();
    let mut tiles: Vec<Vec<u8>> = Vec::new();
    let mut i: usize = 0;
    while i < n
        invariant
            0 <= i <= n,
            len == data@.len(),
            n == smt_tile_count(data@),
            smt_complete(data@),
            32 + 680 * n <= data@.len(),
            tiles@.len() == i,
            forall|j: int|
                0 <= j < i ==> #[trigger] tiles@[j]@ == decode_tile_spec(smt_tile_record(data@, j)),
        decreases n - i,
    {
        let off = 32 + 680 * i;
        let rgba = decode_tile_dxt1(slice_subrange(data, off, off + 680));
        tiles.push(rgba);
        i = i + 1;
    }
    Ok(tiles)
}

/// The SMT magic bytes, `"spring tilefile\0"`.
pub open spec fn smt_magic() -> Seq<u8> {
    seq![115u8, 112, 114, 105, 110, 103, 32, 116, 105, 108, 101, 102, 105, 108, 101, 0]
}

/// The 32-byte SMT header for `num_tiles` DXT1 tiles.
pub open spec fn smt_header(num_tiles: int) -> Seq<u8> {
    smt_magic() + i32_le_bytes(SMT_VERSION as int) + u32_le_bytes(num_tiles) + u32_le_bytes(
        TILE_SIZE as int,
    ) + i32_le_bytes(1)
}

/// Number of 32-pixel tiles needed to cover `n` pixels.
pub open spec fn tiles_for(n: int) -> int {
    (n + 31) / 32
}

/// `min(v, hi - 1)`: clamps a pixel coordinate to the last column/row.
pub open spec fn clamp_last(v: int, hi: int) -> int {
    if v < hi - 1 {
        v
    } else {
        hi - 1
    }
}

pub open spec fn tile_rgba_raw(img: Seq<u8>, w: int, h: int, tx: int, ty: int) -> Seq<u8> {
    Seq::new(
        4096,
        |k: int|
            img[(clamp_last(ty * 32 + (k / 4) / 32, h) * w + clamp_last(tx * 32 + (k / 4) % 32, w))
                * 4 + k % 4],
    )
}

/// The 32×32 RGBA8 tile at tile coordinates `(tx, ty)` of a `w`×`h` image,
/// with pixels past the right/bottom edge repeating the last column/row.
#[verifier::opaque]
pub open spec fn tile_rgba_spec(img: Seq<u8>, w: int, h: int, tx: int, ty: int) -> Seq<u8> {
    tile_rgba_raw(img, w, h, tx, ty)
}

/// Tile `(tx, ty)` of a `w`×`h` image holds, at row-major position
/// `y * 32 + x`, the image pixel `(tx * 32 + x, ty * 32 + y)`; past the
/// right or bottom edge the column or row index stops at the last one.
pub proof fn lemma_tile_pixels(img: Seq<u8>, w: int, h: int, tx: int, ty: int)
    requires
        w >= 1,
        h >= 1,
    ensures
        tile_rgba_spec(img, w, h, tx, ty).len() == 4096,
        forall|x: int, y: int, c: int|
            0 <= x < 32 && 0 <= y < 32 && 0 <= c < 4 && tx * 32 + x < w && ty * 32 + y < h
                ==> #[trigger] tile_rgba_spec(img, w, h, tx, ty)[(y * 32 + x) * 4 + c]
                == img[((ty * 32 + y) * w + (tx * 32 + x)) * 4 + c],
        forall|x: int, y: int, c: int|
            0 <= x < 32 && 0 <= y < 32 && 0 <= c < 4 ==> #[trigger] tile_rgba_spec(img, w, h, tx, ty)[(y * 32 + x)
                * 4 + c] == img[((if ty * 32 + y < h {
                ty * 32 + y
            } else {
                h - 1
            }) * w + (if tx * 32 + x < w {
                tx * 32 + x
            } else {
                w - 1
            })) * 4 + c],
{
    reveal(tile_rgba_spec);
    assert forall|x: int, y: int, c: int| 0 <= x < 32 && 0 <= y < 32 && 0 <= c < 4 implies #[trigger] tile_rgba_spec(
        img,
        w,
        h,
        tx,
        ty,
    )[(y * 32 + x) * 4 + c] == img[((if ty * 32 + y < h {
        ty * 32 + y
    } else {
        h - 1
    }) * w + (if tx * 32 + x < w {
        tx * 32 + x
    } else {
        w - 1
    })) * 4 + c] by {
        let k = (y * 32 + x) * 4 + c;
        assert(k / 4 == y * 32 + x && k % 4 == c) by (nonlinear_arith)
            requires
                k == (y * 32 + x) * 4 + c,
                0 <= c < 4,
                0 <= x < 32,
                0 <= y < 32,
        ;
        assert((y * 32 + x) / 32 == y && (y * 32 + x) % 32 == x) by (nonlinear_arith)
            requires
                0 <= x < 32,
                0 <= y < 32,
        ;
        assert(0 <= k < 4096);
    }
}

/// The first `n` compressed tiles of an image `txn` tiles wide, row-major.
pub open spec fn smt_tiles(img: Seq<u8>, w: int, h: int, txn: int, n: nat) -> Seq<u8>
    decreases n,
{
    if n == 0 {
        Seq::empty()
    } else {
        smt_tiles(img, w, h, txn, (n - 1) as nat) + mip_chain_dxt1(
            tile_rgba_spec(img, w, h, (n - 1) % txn, (n - 1) / txn),
            32,
            4,
        )
    }
}

/// The complete SMT file written for a `w`×`h` RGBA8 image.
pub open spec fn smt_file_spec(img: Seq<u8>, w: int, h: int) -> Seq<u8> {
    let n = tiles_for(w) * tiles_for(h);
    smt_header(n) + smt_tiles(img, w, h, tiles_for(w), n as nat)
}

/// Copies out the 32×32 tile at `(tx, ty)`, clamping at the image edges.
fn extract_tile(rgba8: &[u8], width: u32, height: u32, tx: u32, ty: u32) -> (tile: Vec<u8>)
    requires
        width >= 1,
        height >= 1,
        rgba8@.len() >= width as int * height as int * 4,
    ensures
        tile@ == tile_rgba_spec(rgba8@, width as int, height as int, tx as int, ty as int),
        tile@.len() == 4096,
{
    let w = width as u64;
    let h = height as u64;
    let mut tile: Vec<u8> = Vec::new();
    let mut p: u64 = 0;
    while p < 1024
        invariant
            0 <= p <= 1024,
            w == width,
            h == height,
            width >= 1,
            height >= 1,
            rgba8@.len() >= width as int * height as int * 4,
            tile@.len() == p * 4,
            forall|k: int|
                0 <= k < tile@.len() ==> tile@[k] == tile_rgba_raw(
                    rgba8@,
                    width as int,
                    height as int,
                    tx as int,
                    ty as int,
                )[k],
        decreases 1024 - p,
    {
        let px = p % 32;
        let py = p / 32;
        let gx = tx as u64 * 32 + px;
        let gy = ty as u64 * 32 + py;
        let sx = if gx < w - 1 {
            gx
        } else {
            w - 1
        };
        let sy = if gy < h - 1 {
            gy
        } else {
            h - 1
        };
        let len = rgba8.len();
        proof {
            lemma_pixel_offset_bound(sx as int, sy as int, width as int, height as int);
            assert(width as int * 4 <= width as int * height as int * 4) by (nonlinear_arith)
                requires
                    height >= 1,
            ;
        }
        let src = (sy as usize) * (width as usize * 4) + (sx as usize) * 4;
        let mut ch: usize = 0;
        while ch < 4
            invariant
                0 <= ch <= 4,
                0 <= p < 1024,
                src + 4 <= rgba8@.len(),
                w == width,
                h == height,
                src == (sy * w + sx) * 4,
                sx == clamp_last(tx * 32 + (p % 32), width as int),
                sy == clamp_last(ty * 32 + (p / 32), height as int),
                tile@.len() == p * 4 + ch,
                forall|k: int|
                    0 <= k < tile@.len() ==> tile@[k] == tile_rgba_raw(
                        rgba8@,
                        width as int,
                        height as int,
                        tx as int,
                        ty as int,
                    )[k],
            decreases 4 - ch,
        {
            tile.push(rgba8[src + ch]);
            proof {
                let k = (p * 4 + ch) as int;
                assert(k / 4 == p);
                assert(k % 4 == ch);
                let cy = clamp_last(ty * 32 + (k / 4) / 32, height as int);
                let cx = clamp_last(tx * 32 + (k / 4) % 32, width as int);
                assert(cy == sy && cx == sx);
                assert((cy * width + cx) * 4 + k % 4 == src + ch);
                assert(tile_rgba_raw(rgba8@, width as int, height as int, tx as int, ty as int)[k]
                    == rgba8@[src + ch]);
            }
            ch = ch + 1;
        }
        p = p + 1;
    }
    proof {
        reveal(tile_rgba_spec);
        assert(tile@ =~= tile_rgba_spec(rgba8@, width as int, height as int, tx as int, ty as int));
    }
    tile
}

fn push_smt_magic(out: &mut Vec<u8>)
    ensures
        final(out)@ == old(out)@ + smt_magic(),
{
    let magic: [u8; 16] = [115, 112, 114, 105, 110, 103, 32, 116, 105, 108, 101, 102, 105, 108, 101, 0];
    let mut i: usize = 0;
    while i < 16
        invariant
            0 <= i <= 16,
            magic@ == smt_magic(),
            out@ == old(out)@ + smt_magic().subrange(0, i as int),
        decreases 16 - i,
    {
        out.push(magic[i]);
        assert(smt_magic().subrange(0, (i + 1) as int) =~= smt_magic().subrange(0, i as int).push(
            smt_magic()[i as int],
        ));
        i = i + 1;
    }
    assert(smt_magic().subrange(0, 16) =~= smt_magic());
}

/// Write an SMT file from an RGBA8 texture (`width * height * 4` bytes, row-major).
///
/// The texture is split into 32×32 tiles (the last column/row repeats past
/// the right/bottom edge), each DXT1-compressed with 4 mip levels, and the
/// file bytes are appended to `out`.  Returns the tile index map
/// (sequential indices) and the number of tiles; an empty texture gives
/// the header alone, with no tiles.
pub fn write_smt(out: &mut Vec<u8>, rgba8: &[u8], width: u32, height: u32) -> (r: (Vec<i32>, u32))
    requires
        rgba8@.len() >= width as int * height as int * 4,
        tiles_for(width as int) * tiles_for(height as int) <= u32::MAX,
    ensures
        final(out)@ == old(out)@ + smt_file_spec(rgba8@, width as int, height as int),
        r.1 == tiles_for(width as int) * tiles_for(height as int),
        r.0@.len() == r.1,
        forall|i: int| 0 <= i < r.0@.len() ==> #[trigger] r.0@[i] == u32_as_i32(i),
{
    let tiles_x: u32 = width / 32 + if width % 32 != 0 {
        1
    } else {
        0
    };
    let tiles_y: u32 = height / 32 + if height % 32 != 0 {
        1
    } else {
        0
    };
    assert(tiles_x == tiles_for(width as int));
    assert(tiles_y == tiles_for(height as int));
    let num_tiles = tiles_x * tiles_y;
    let ghost start = out@;
    if width == 0 || height == 0 {
        // An empty texture has no tiles: the file is the header alone.
        assert(num_tiles == 0) by (nonlinear_arith)
            requires
                tiles_x == 0 || tiles_y == 0,
                num_tiles == tiles_x * tiles_y,
        ;
        push_smt_magic(out);
        push_i32_le(out, SMT_VERSION);
        push_u32_le(out, num_tiles);
        push_u32_le(out, TILE_SIZE);
        push_i32_le(out, 1);
        assert(out@ =~= start + smt_file_spec(rgba8@, width as int, height as int));
        return (Vec::new(), 0);
    }
    push_smt_magic(out);
    push_i32_le(out, SMT_VERSION);
    push_u32_le(out, num_tiles);
    push_u32_le(out, TILE_SIZE);
    push_i32_le(out, 1);
    let ghost txn = tiles_x as int;
    proof {
        assert(out@ =~= start + smt_header(num_tiles as int));
        assert(out@ =~= start + smt_header(num_tiles as int) + smt_tiles(
            rgba8@,
            width as int,
            height as int,
            txn,
            0,
        ));
    }
    let mut tile_indices: Vec<i32> = Vec::new();
    let mut ty: u32 = 0;
    while ty < tiles_y
        invariant
            0 <= ty <= tiles_y,
            txn == tiles_x,
            tiles_x == tiles_for(width as int),
            tiles_y == tiles_for(height as int),
            num_tiles == tiles_x * tiles_y,
            width >= 1,
            height >= 1,
            rgba8@.len() >= width as int * height as int * 4,
            out@ == start + smt_header(num_tiles as int) + smt_tiles(
                rgba8@,
                width as int,
                height as int,
                txn,
                (ty * tiles_x) as nat,
            ),
            tile_indices@.len() == ty * tiles_x,
            forall|i: int| 0 <= i < tile_indices@.len() ==> #[trigger] tile_indices@[i] == u32_as_i32(i),
        decreases tiles_y - ty,
    {
        proof {
            assert((ty + 1) * tiles_x <= tiles_x * tiles_y) by (nonlinear_arith)
                requires
                    ty < tiles_y,
            ;
        }
        let mut tx: u32 = 0;
        while tx < tiles_x
            invariant
                0 <= tx <= tiles_x,
                0 <= ty < tiles_y,
                (ty + 1) * tiles_x <= tiles_x * tiles_y,
                txn == tiles_x,
                tiles_x == tiles_for(width as int),
                tiles_y == tiles_for(height as int),
                num_tiles == tiles_x * tiles_y,
                width >= 1,
                height >= 1,
                rgba8@.len() >= width as int * height as int * 4,
                out@ == start + smt_header(num_tiles as int) + smt_tiles(
                    rgba8@,
                    width as int,
                    height as int,
                    txn,
                    (ty * tiles_x + tx) as nat,
                ),
                tile_indices@.len() == ty * tiles_x + tx,
                forall|i: int|
                    0 <= i < tile_indices@.len() ==> #[trigger] tile_indices@[i] == u32_as_i32(i),
            decreases tiles_x - tx,
        {
            let tile = extract_tile(rgba8, width, height, tx, ty);
            let mut compressed = compress_tile_dxt1(&tile);
            let ghost before = out@;
            out.append(&mut compressed);
            proof {
                assert(ty * tiles_x + tx < (ty + 1) * tiles_x) by (nonlinear_arith)
                    requires
                        tx < tiles_x,
                ;
            }
            let idx = ty * tiles_x + tx;
            tile_indices.push(u32_to_i32(idx));
            proof {
                lemma_fundamental_div_mod_converse(idx as int, txn, ty as int, tx as int);
                let n1 = (idx + 1) as nat;
                assert((n1 - 1) as nat == idx);
                assert(smt_tiles(rgba8@, width as int, height as int, txn, n1) == smt_tiles(
                    rgba8@,
                    width as int,
                    height as int,
                    txn,
                    idx as nat,
                ) + mip_chain_dxt1(
                    tile_rgba_spec(rgba8@, width as int, height as int, tx as int, ty as int),
                    32,
                    4,
                ));
                assert(out@ =~= start + smt_header(num_tiles as int) + smt_tiles(
                    rgba8@,
                    width as int,
                    height as int,
                    txn,
                    n1,
                ));
            }
            tx = tx + 1;
        }
        proof {
            assert(ty * tiles_x + tiles_x == (ty + 1) * tiles_x) by (nonlinear_arith);
        }
        ty = ty + 1;
    }
    proof {
        assert(ty * tiles_x == num_tiles) by (nonlinear_arith)
            requires
                ty == tiles_y,
                num_tiles == tiles_x * tiles_y,
        ;
    }
    (tile_indices, num_tiles)
}

// ---------------------------------------------------------------------------
// Laws
// ---------------------------------------------------------------------------

/// Every tile's mip chain is 680 bytes, its first 512 being the base level.
pub proof fn lemma_tile_chain_layout(img: Seq<u8>)
    ensures
        mip_chain_dxt1(img, 32, 4).len() == 680,
        mip_chain_dxt1(img, 32, 4).subrange(0, 512) == compress_image_spec(img, 32, 32),
{
    lemma_mip_chain_len(img, 32, 4);
    assert(level_bytes(4) == 8 && level_bytes(8) == 32 && level_bytes(16) == 128 && level_bytes(32)
        == 512) by (nonlinear_arith);
    assert(mip_chain_len(4, 0) == 0);
    assert(mip_chain_len(4, 1) == 8);
    assert(mip_chain_len(8, 2) == 40);
    assert(mip_chain_len(16, 3) == 168);
    assert(mip_chain_len(32, 4) == 680);
    lemma_compress_image_len(img, 32, 32);
    assert((32int / 4) * (32int / 4) == 64) by (nonlinear_arith);
    let c = compress_image_spec(img, 32, 32);
    let rest = mip_chain_dxt1(downsample_spec(img, 32), 16, 3);
    assert(mip_chain_dxt1(img, 32, 4) == c + rest);
    assert((c + rest).subrange(0, 512) =~= c);
}

/// The first `n` tile records lie back to back, 680 bytes each.
pub proof fn lemma_smt_tiles_layout(img: Seq<u8>, w: int, h: int, txn: int, n: nat)
    ensures
        smt_tiles(img, w, h, txn, n).len() == 680 * n,
        forall|i: int|
            0 <= i < n ==> #[trigger] smt_tiles(img, w, h, txn, n).subrange(680 * i, 680 * i + 680)
                == mip_chain_dxt1(tile_rgba_spec(img, w, h, i % txn, i / txn), 32, 4),
    decreases n,
{
    if n > 0 {
        let m = (n - 1) as nat;
        lemma_smt_tiles_layout(img, w, h, txn, m);
        let prev = smt_tiles(img, w, h, txn, m);
        let mi = m as int;
        let last = mip_chain_dxt1(tile_rgba_spec(img, w, h, mi % txn, mi / txn), 32, 4);
        lemma_tile_chain_layout(tile_rgba_spec(img, w, h, mi % txn, mi / txn));
        assert(smt_tiles(img, w, h, txn, n) == prev + last);
        assert forall|i: int| 0 <= i < n implies #[trigger] smt_tiles(img, w, h, txn, n).subrange(
            680 * i,
            680 * i + 680,
        ) == mip_chain_dxt1(tile_rgba_spec(img, w, h, i % txn, i / txn), 32, 4) by {
            if i < m {
                assert((prev + last).subrange(680 * i, 680 * i + 680) =~= prev.subrange(
                    680 * i,
                    680 * i + 680,
                ));
            } else {
                assert((prev + last).subrange(680 * i, 680 * i + 680) =~= last);
            }
        }
    }
}

/// An SMT file produced by `write_smt` reads back completely: its header
/// declares exactly the tiles that were written, and the raw base level of
/// tile `i` (as `read_smt_raw` returns it) is the DXT1 compression of the
/// `i`-th 32×32 region of the source image, row-major by tile.
pub proof fn lemma_smt_write_read_roundtrip(img: Seq<u8>, w: int, h: int)
    requires
        w >= 1,
        h >= 1,
        tiles_for(w) * tiles_for(h) <= 0x7fff_ffff,
    ensures
        smt_complete(smt_file_spec(img, w, h)),
        smt_tile_count(smt_file_spec(img, w, h)) == tiles_for(w) * tiles_for(h),
        forall|i: int|
            0 <= i < tiles_for(w) * tiles_for(h) ==> #[trigger] smt_raw_tile(
                smt_file_spec(img, w, h),
                i,
            ) == compress_image_spec(
                tile_rgba_spec(img, w, h, i % tiles_for(w), i / tiles_for(w)),
                32,
                32,
            ),
        forall|i: int|
            0 <= i < tiles_for(w) * tiles_for(h) ==> #[trigger] smt_tile_record(
                smt_file_spec(img, w, h),
                i,
            ) == mip_chain_dxt1(
                tile_rgba_spec(img, w, h, i % tiles_for(w), i / tiles_for(w)),
                32,
                4,
            ),
{
    let txn = tiles_for(w);
    let n = txn * tiles_for(h);
    assert(n >= 0) by (nonlinear_arith)
        requires
            txn >= 1,
            tiles_for(h) >= 1,
            n == txn * tiles_for(h),
    ;
    let hdr = smt_header(n);
    let body = smt_tiles(img, w, h, txn, n as nat);
    let f = smt_file_spec(img, w, h);
    assert(f == hdr + body);
    assert(hdr.len() == 32);
    lemma_smt_tiles_layout(img, w, h, txn, n as nat);
    assert(f.subrange(20, 24) =~= u32_le_bytes(n));
    lemma_u32_le_roundtrip(n, f, 20);
    assert(smt_tile_count(f) == n);
    assert forall|i: int| 0 <= i < tiles_for(w) * tiles_for(h) implies #[trigger] smt_tile_record(
        smt_file_spec(img, w, h),
        i,
    ) == mip_chain_dxt1(
        tile_rgba_spec(img, w, h, i % tiles_for(w), i / tiles_for(w)),
        32,
        4,
    ) by {
        let t = tile_rgba_spec(img, w, h, i % txn, i / txn);
        assert(body.subrange(680 * i, 680 * i + 680) == mip_chain_dxt1(t, 32, 4));
        assert(smt_tile_record(f, i) =~= body.subrange(680 * i, 680 * i + 680));
    }
    assert forall|i: int| 0 <= i < tiles_for(w) * tiles_for(h) implies #[trigger] smt_raw_tile(
        smt_file_spec(img, w, h),
        i,
    ) == compress_image_spec(
        tile_rgba_spec(img, w, h, i % tiles_for(w), i / tiles_for(w)),
        32,
        32,
    ) by {
        let t = tile_rgba_spec(img, w, h, i % txn, i / txn);
        lemma_tile_chain_layout(t);
        assert(smt_tile_record(f, i) == mip_chain_dxt1(t, 32, 4));
        assert(smt_raw_tile(f, i) =~= smt_tile_record(f, i).subrange(0, 512));
    }
}

} // verus!
