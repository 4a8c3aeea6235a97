//! DDS texture decoding for skybox cubemaps and 2D map textures.
//!
//! BAR maps ship their skybox as a single `.dds` cubemap (six faces packed
//! into one file) and several 2D textures as `.dds` with a mip chain.  The
//! `ddsfile` crate parses the container (header, pixel format, per-layer
//! data); this module decides how many bytes each mip level takes and
//! decodes it into `Rgba8Unorm` texels.  Supported are uncompressed 32-bit
//! and 24-bit RGB(A) and the BC1/BC2/BC3 block formats, of which only the
//! colour block is decoded (alpha is opaque).

use vstd::prelude::*;

use crate::dxt1::{decode_dxt1_block, dxt1_texel};
use crate::dds_layout::{dds_format_sizes_of, dds_layer_readable, dds_layer_readable_exec, read_dds_format_sizes};

verus! {

// Pixel-format codes.  D3D formats are numbered by their position in
// `ddsfile::D3DFormat`; DXGI formats by their DXGI value.
pub const D3D_A8B8G8R8: u32 = 0;
pub const D3D_A8R8G8B8: u32 = 6;
pub const D3D_X8R8G8B8: u32 = 7;
pub const D3D_X8B8G8R8: u32 = 8;
pub const D3D_R8G8B8: u32 = 10;
pub const D3D_DXT1: u32 = 19;
pub const D3D_DXT3: u32 = 20;
pub const D3D_DXT5: u32 = 21;
pub const DXGI_R8G8B8A8_UNORM: u32 = 28;
pub const DXGI_R8G8B8A8_UNORM_SRGB: u32 = 29;
pub const DXGI_BC1_UNORM: u32 = 71;
pub const DXGI_BC1_UNORM_SRGB: u32 = 72;
pub const DXGI_BC3_UNORM: u32 = 77;
pub const DXGI_BC3_UNORM_SRGB: u32 = 78;

/// What the decoder reads from a parsed DDS header.
#[derive(Debug, Clone, Copy, PartialEq, Eq)]
pub struct DdsHeaderInfo {
    pub width: u32,
    pub height: u32,
    /// Number of mip levels the header declares (1 when it declares none).
    pub mip_levels: u32,
    /// Whether the header carries the CUBEMAP caps flag.
    pub cubemap: bool,
    /// The D3D pixel format, when the file has one.
    pub d3d_format: Option<u32>,
    /// The DXGI pixel format, when the file has one.
    pub dxgi_format: Option<u32>,
    /// The header's row pitch, when its PITCH flag is set.
    pub pitch: Option<u32>,
    /// The header's linear size, when its LINEARSIZE flag is set.
    pub linear_size: Option<u32>,
    /// The header's depth, when its DEPTH flag is set.
    pub depth: Option<u32>,
    /// The pixel format's bit count, when it declares RGB or luminance data.
    pub rgb_bit_count: Option<u32>,
}

/// Errors decoding a DDS texture.
#[derive(Debug, Clone, Copy, PartialEq, Eq)]
pub enum SkyboxError {
    /// The container could not be parsed, or a layer's data is missing.
    Parse,
    /// A cubemap was expected but the CUBEMAP caps flag is missing.
    NotACubemap,
    /// The pixel format is not one of the supported ones.
    UnsupportedFormat,
}

/// Decoded skybox cubemap: 6 face buffers, all in `Rgba8Unorm` layout,
/// row-major top-to-bottom. Face order is the wgpu / D3D convention:
/// +X, -X, +Y, -Y, +Z, -Z.
pub struct Cubemap {
    pub width: u32,
    pub height: u32,
    /// Length 6 -- one `width*height*4` buffer per face.
    pub faces: [Vec<u8>; 6],
}

/// One mip level decoded to `Rgba8Unorm`.
pub struct DdsMip {
    pub width: u32,
    pub height: u32,
    pub rgba: Vec<u8>,
}

/// Mathematical value of a mip level.
pub struct MipView {
    pub width: u32,
    pub height: u32,
    pub rgba: Seq<u8>,
}

impl View for DdsMip {
    type V = MipView;

    open spec fn view(&self) -> MipView {
        MipView { width: self.width, height: self.height, rgba: self.rgba@ }
    }
}

pub open spec fn mips_view(ms: Seq<DdsMip>) -> Seq<MipView> {
    Seq::new(ms.len(), |i: int| ms[i]@)
}

/// How a level's bytes are turned into RGBA texels.
pub enum DecodePath {
    /// 4 bytes per texel stored B, G, R, A (alpha forced opaque when `opaque`).
    Bgra { opaque: bool },
    /// 4 bytes per texel stored R, G, B, A (alpha forced opaque when `opaque`).
    Rgba { opaque: bool },
    /// 3 bytes per texel stored R, G, B.
    Rgb,
    /// 4×4 blocks: 8-byte BC1 blocks, or 16-byte BC2/BC3 blocks whose colour
    /// block is the second half (`bc3`).
    Blocks { bc3: bool },
    Unsupported,
}

pub open spec fn is_rgba_dxgi(c: u32) -> bool {
    c == DXGI_R8G8B8A8_UNORM || c == DXGI_R8G8B8A8_UNORM_SRGB
}

pub open spec fn is_bc1_dxgi(c: u32) -> bool {
    c == DXGI_BC1_UNORM || c == DXGI_BC1_UNORM_SRGB
}

pub open spec fn is_bc3_dxgi(c: u32) -> bool {
    c == DXGI_BC3_UNORM || c == DXGI_BC3_UNORM_SRGB
}

/// Whether the blocks carry a separate alpha block before the colour block.
pub open spec fn wide_blocks(info: DdsHeaderInfo) -> bool {
    info.d3d_format == Some(D3D_DXT3) || info.d3d_format == Some(D3D_DXT5) || (match info.dxgi_format {
        Some(c) => is_bc3_dxgi(c),
        None => false,
    })
}

/// The decoding path: the D3D format decides first (uncompressed formats
/// directly, DXT formats defer to the DXGI format), then the DXGI format.
pub open spec fn decode_path(info: DdsHeaderInfo) -> DecodePath {
    let second = match info.dxgi_format {
        None => DecodePath::Blocks { bc3: wide_blocks(info) },
        Some(c) => if is_rgba_dxgi(c) {
            DecodePath::Rgba { opaque: false }
        } else if is_bc1_dxgi(c) || is_bc3_dxgi(c) {
            DecodePath::Blocks { bc3: wide_blocks(info) }
        } else {
            DecodePath::Unsupported
        },
    };
    match info.d3d_format {
        Some(c) => if c == D3D_A8R8G8B8 {
            DecodePath::Bgra { opaque: false }
        } else if c == D3D_X8R8G8B8 {
            DecodePath::Bgra { opaque: true }
        } else if c == D3D_A8B8G8R8 {
            DecodePath::Rgba { opaque: false }
        } else if c == D3D_X8B8G8R8 {
            DecodePath::Rgba { opaque: true }
        } else if c == D3D_R8G8B8 {
            DecodePath::Rgb
        } else if c == D3D_DXT1 || c == D3D_DXT3 || c == D3D_DXT5 {
            second
        } else {
            DecodePath::Unsupported
        },
        None => second,
    }
}

/// Blocks across a `w`-texel row (`⌈w / 4⌉`).
pub open spec fn blocks_across(w: int) -> int {
    (w + 3) / 4
}

/// Bytes of one `w × h` mip level, by pixel format (`None` for formats
/// without a supported layout).
pub open spec fn mip_len_spec(info: DdsHeaderInfo, w: int, h: int) -> Option<int> {
    let blocks = blocks_across(w) * blocks_across(h);
    match info.d3d_format {
        Some(c) => if c == D3D_A8B8G8R8 || c == D3D_A8R8G8B8 || c == D3D_X8R8G8B8 || c == D3D_X8B8G8R8 {
            Some(4 * (w * h))
        } else if c == D3D_R8G8B8 {
            Some(3 * (w * h))
        } else if c == D3D_DXT1 {
            Some(8 * blocks)
        } else if c == D3D_DXT3 || c == D3D_DXT5 {
            Some(16 * blocks)
        } else {
            None
        },
        None => match info.dxgi_format {
            Some(c) => if is_rgba_dxgi(c) {
                Some(4 * (w * h))
            } else if is_bc1_dxgi(c) {
                Some(8 * blocks)
            } else if is_bc3_dxgi(c) {
                Some(16 * blocks)
            } else {
                None
            },
            None => None,
        },
    }
}

/// Whether the size arithmetic for a `w × h` level stays in range: the
/// texel count fits in 32 bits, the RGBA output fits in memory, and a
/// block format's byte count fits in 32 bits.
pub open spec fn sizes_fit(info: DdsHeaderInfo, w: int, h: int) -> bool {
    &&& w * h <= u32::MAX
    &&& 4 * (w * h) <= usize::MAX
    &&& (match info.d3d_format {
        Some(c) => (c == D3D_DXT1 || c == D3D_DXT3 || c == D3D_DXT5) ==> 16 * (blocks_across(w) * blocks_across(h))
            <= u32::MAX,
        None => 16 * (blocks_across(w) * blocks_across(h)) <= u32::MAX,
    })
}

/// Whether the byte count `mip_len_spec` gives a level is what its
/// decoding path reads (false only for a D3D block format paired with a
/// DXGI format of another layout).
pub open spec fn format_consistent(info: DdsHeaderInfo) -> bool {
    match info.d3d_format {
        Some(c) => (c == D3D_DXT1 || c == D3D_DXT3 || c == D3D_DXT5) ==> match info.dxgi_format {
            Some(g) => !is_rgba_dxgi(g) && !(c == D3D_DXT1 && is_bc3_dxgi(g)),
            None => true,
        },
        None => true,
    }
}

/// Bytes the decoding path reads for a `w × h` level.
pub open spec fn decode_need(info: DdsHeaderInfo, w: int, h: int) -> int {
    match decode_path(info) {
        DecodePath::Bgra { .. } => 4 * (w * h),
        DecodePath::Rgba { .. } => 4 * (w * h),
        DecodePath::Rgb => 3 * (w * h),
        DecodePath::Blocks { bc3 } => (if bc3 {
            16int
        } else {
            8int
        }) * (blocks_across(w) * blocks_across(h)),
        DecodePath::Unsupported => 0,
    }
}

/// Output byte `k` of a BGRA level.
pub open spec fn bgra_byte(src: Seq<u8>, k: int, opaque: bool) -> u8 {
    let i = k / 4;
    let c = k % 4;
    if c == 0 {
        src[4 * i + 2]
    } else if c == 1 {
        src[4 * i + 1]
    } else if c == 2 {
        src[4 * i]
    } else if opaque {
        255
    } else {
        src[4 * i + 3]
    }
}

/// Output byte `k` of an RGBA level.
pub open spec fn rgba_byte(src: Seq<u8>, k: int, opaque: bool) -> u8 {
    if k % 4 == 3 && opaque {
        255
    } else {
        src[k]
    }
}

/// Output byte `k` of an RGB level.
pub open spec fn rgb_byte(src: Seq<u8>, k: int) -> u8 {
    if k % 4 == 3 {
        255
    } else {
        src[3 * (k / 4) + k % 4]
    }
}

/// Offset of the colour block holding texel `(x, y)` of a `w`-wide level.
pub open spec fn colour_block_offset(w: int, bc3: bool, x: int, y: int) -> int {
    ((y / 4) * blocks_across(w) + x / 4) * (if bc3 {
        16int
    } else {
        8int
    }) + (if bc3 {
        8int
    } else {
        0int
    })
}

/// Output byte `k` of a block-compressed level: the BC1 colour of the
/// texel, with opaque alpha.
pub open spec fn block_byte(src: Seq<u8>, w: int, bc3: bool, k: int) -> u8 {
    let p = k / 4;
    let x = p % w;
    let y = p / w;
    let c = k % 4;
    if c == 3 {
        255
    } else {
        let off = colour_block_offset(w, bc3, x, y);
        dxt1_texel(src.subrange(off, off + 8), (y % 4) * 4 + x % 4, c) as u8
    }
}

/// The `w × h × 4` RGBA bytes a level decodes to.
pub open spec fn decode_spec(info: DdsHeaderInfo, src: Seq<u8>, w: int, h: int) -> Result<Seq<u8>, SkyboxError> {
    let n = (4 * (w * h)) as nat;
    match decode_path(info) {
        DecodePath::Bgra { opaque } => Ok(Seq::new(n, |k: int| bgra_byte(src, k, opaque))),
        DecodePath::Rgba { opaque } => Ok(Seq::new(n, |k: int| rgba_byte(src, k, opaque))),
        DecodePath::Rgb => Ok(Seq::new(n, |k: int| rgb_byte(src, k))),
        DecodePath::Blocks { bc3 } => Ok(Seq::new(n, |k: int| block_byte(src, w, bc3, k))),
        DecodePath::Unsupported => Err(SkyboxError::UnsupportedFormat),
    }
}

/// Where a block-compressed level's texels come from: texel `(x, y)` of a
/// `w × h` level is decoded by BC1 from the 4×4 block holding it, blocks
/// stored row by row with `(w + 3) / 4` blocks to a row.  With 8-byte
/// blocks (BC1) the block is the colour block; with 16-byte blocks
/// (BC2/BC3) the colour block is the block's second half, bytes 8..16, and
/// the first half (the alpha block) plays no part.  Alpha is opaque.
#[verifier::rlimit(40)]
pub proof fn lemma_block_texels(info: DdsHeaderInfo, src: Seq<u8>, w: int, h: int, bc3: bool)
    requires
        decode_path(info) == (DecodePath::Blocks { bc3 }),
        w >= 1,
        h >= 0,
    ensures
        decode_spec(info, src, w, h) is Ok,
        decode_spec(info, src, w, h)->Ok_0.len() == 4 * (w * h),
        forall|x: int, y: int, ch: int|
            0 <= x < w && 0 <= y < h && 0 <= ch < 3 ==> {
                let block_len: int = if bc3 { 16 } else { 8 };
                let half: int = if bc3 { block_len / 2 } else { 0 };
                let start = ((y / 4) * ((w + 3) / 4) + x / 4) * block_len + half;
                #[trigger] decode_spec(info, src, w, h)->Ok_0[4 * (y * w + x) + ch] == dxt1_texel(
                    src.subrange(start, start + 8),
                    (y % 4) * 4 + x % 4,
                    ch,
                ) as u8
            },
        forall|x: int, y: int|
            0 <= x < w && 0 <= y < h ==> #[trigger] decode_spec(info, src, w, h)->Ok_0[4 * (y * w + x) + 3] == 255,
{
    let out = decode_spec(info, src, w, h)->Ok_0;
    assert(w * h >= 0) by (nonlinear_arith)
        requires
            w >= 1,
            h >= 0,
    ;
    assert forall|x: int, y: int, ch: int| 0 <= x < w && 0 <= y < h && 0 <= ch < 4 implies #[trigger] out[4 * (y * w + x)
        + ch] == block_byte(src, w, bc3, 4 * (y * w + x) + ch) && (4 * (y * w + x) + ch) / 4 % w == x && (4 * (y * w + x)
        + ch) / 4 / w == y && (4 * (y * w + x) + ch) % 4 == ch by {
        assert((4 * (y * w + x) + ch) / 4 == y * w + x && (4 * (y * w + x) + ch) % 4 == ch) by (nonlinear_arith)
            requires
                0 <= ch < 4,
                0 <= x,
                0 <= y,
                w >= 1,
        ;
        assert((y * w + x) % w == x && (y * w + x) / w == y) by (nonlinear_arith)
            requires
                0 <= x < w,
                0 <= y,
        ;
        assert(y * w + x < w * h) by (nonlinear_arith)
            requires
                0 <= x < w,
                0 <= y < h,
        ;
    }
}

fn decode_path_exec(info: &DdsHeaderInfo) -> (p: DecodePath)
    ensures
        p == decode_path(*info),
{
    let bc3 = match info.d3d_format {
        Some(c) => c == D3D_DXT3 || c == D3D_DXT5,
        None => false,
    } || match info.dxgi_format {
        Some(c) => c == DXGI_BC3_UNORM || c == DXGI_BC3_UNORM_SRGB,
        None => false,
    };
    let second = match info.dxgi_format {
        None => DecodePath::Blocks { bc3 },
        Some(c) => if c == DXGI_R8G8B8A8_UNORM || c == DXGI_R8G8B8A8_UNORM_SRGB {
            DecodePath::Rgba { opaque: false }
        } else if c == DXGI_BC1_UNORM || c == DXGI_BC1_UNORM_SRGB || c == DXGI_BC3_UNORM || c == DXGI_BC3_UNORM_SRGB {
            DecodePath::Blocks { bc3 }
        } else {
            DecodePath::Unsupported
        },
    };
    match info.d3d_format {
        Some(c) => if c == D3D_A8R8G8B8 {
            DecodePath::Bgra { opaque: false }
        } else if c == D3D_X8R8G8B8 {
            DecodePath::Bgra { opaque: true }
        } else if c == D3D_A8B8G8R8 {
            DecodePath::Rgba { opaque: false }
        } else if c == D3D_X8B8G8R8 {
            DecodePath::Rgba { opaque: true }
        } else if c == D3D_R8G8B8 {
            DecodePath::Rgb
        } else if c == D3D_DXT1 || c == D3D_DXT3 || c == D3D_DXT5 {
            second
        } else {
            DecodePath::Unsupported
        },
        None => second,
    }
}

/// `⌈v / 4⌉`.
fn blocks_across_exec(v: u32) -> (r: u32)
    ensures
        r == blocks_across(v as int),
{
    ((v as u64 + 3) / 4) as u32
}

/// Bytes for one mip level of size `w` x `h`, derived from the DDS pixel
/// format.
fn mip_byte_len_for(info: &DdsHeaderInfo, w: u32, h: u32) -> (r: Result<usize, SkyboxError>)
    requires
        sizes_fit(*info, w as int, h as int),
    ensures
        match r {
            Ok(n) => mip_len_spec(*info, w as int, h as int) == Some(n as int),
            Err(e) => mip_len_spec(*info, w as int, h as int) is None && e == SkyboxError::UnsupportedFormat,
        },
{
    let pixels: u64 = w as u64 * h as u64;
    let bw = blocks_across_exec(w);
    let bh = blocks_across_exec(h);
    match info.d3d_format {
        Some(c) => if c == D3D_A8B8G8R8 || c == D3D_A8R8G8B8 || c == D3D_X8R8G8B8 || c == D3D_X8B8G8R8 {
            Ok((pixels * 4) as usize)
        } else if c == D3D_R8G8B8 {
            Ok((pixels * 3) as usize)
        } else if c == D3D_DXT1 {
            assert(8 * (bw as int * bh as int) <= u32::MAX);
            Ok((bw as u64 * bh as u64 * 8) as usize)
        } else if c == D3D_DXT3 || c == D3D_DXT5 {
            Ok((bw as u64 * bh as u64 * 16) as usize)
        } else {
            Err(SkyboxError::UnsupportedFormat)
        },
        None => match info.dxgi_format {
            Some(c) => if c == DXGI_R8G8B8A8_UNORM || c == DXGI_R8G8B8A8_UNORM_SRGB {
                Ok((pixels * 4) as usize)
            } else if c == DXGI_BC1_UNORM || c == DXGI_BC1_UNORM_SRGB {
                Ok((bw as u64 * bh as u64 * 8) as usize)
            } else if c == DXGI_BC3_UNORM || c == DXGI_BC3_UNORM_SRGB {
                Ok((bw as u64 * bh as u64 * 16) as usize)
            } else {
                Err(SkyboxError::UnsupportedFormat)
            },
            None => Err(SkyboxError::UnsupportedFormat),
        },
    }
}

fn decode_bgra(src: &[u8], pixels: usize, opaque: bool) -> (out: Vec<u8>)
    requires
        4 * pixels <= src@.len(),
    ensures
        out@ == Seq::new((4 * pixels) as nat, |k: int| bgra_byte(src@, k, opaque)),
{
    let mut out: Vec<u8> = Vec::new();
    let slen = src.len();
    let mut i: usize = 0;
    while i < pixels
        invariant
            0 <= i <= pixels,
            slen == src@.len(),
            4 * pixels <= src@.len(),
            out@ == Seq::new((4 * i) as nat, |k: int| bgra_byte(src@, k, opaque)),
        decreases pixels - i,
    {
        let s = 4 * i;
        out.push(src[s + 2]);
        out.push(src[s + 1]);
        out.push(src[s]);
        out.push(if opaque {
            255
        } else {
            src[s + 3]
        });
        assert(out@ =~= Seq::new((4 * (i + 1)) as nat, |k: int| bgra_byte(src@, k, opaque)));
        i = i + 1;
    }
    out
}

fn decode_rgba(src: &[u8], pixels: usize, opaque: bool) -> (out: Vec<u8>)
    requires
        4 * pixels <= src@.len(),
    ensures
        out@ == Seq::new((4 * pixels) as nat, |k: int| rgba_byte(src@, k, opaque)),
{
    let mut out: Vec<u8> = Vec::new();
    let slen = src.len();
    let mut i: usize = 0;
    while i < pixels
        invariant
            0 <= i <= pixels,
            slen == src@.len(),
            4 * pixels <= src@.len(),
            out@ == Seq::new((4 * i) as nat, |k: int| rgba_byte(src@, k, opaque)),
        decreases pixels - i,
    {
        let s = 4 * i;
        out.push(src[s]);
        out.push(src[s + 1]);
        out.push(src[s + 2]);
        out.push(if opaque {
            255
        } else {
            src[s + 3]
        });
        assert(out@ =~= Seq::new((4 * (i + 1)) as nat, |k: int| rgba_byte(src@, k, opaque)));
        i = i + 1;
    }
    out
}

fn decode_rgb(src: &[u8], pixels: usize) -> (out: Vec<u8>)
    requires
        3 * pixels <= src@.len(),
        4 * pixels <= usize::MAX,
    ensures
        out@ == Seq::new((4 * pixels) as nat, |k: int| rgb_byte(src@, k)),
{
    let mut out: Vec<u8> = Vec::new();
    let slen = src.len();
    let mut i: usize = 0;
    while i < pixels
        invariant
            0 <= i <= pixels,
            slen == src@.len(),
            3 * pixels <= src@.len(),
            out@ == Seq::new((4 * i) as nat, |k: int| rgb_byte(src@, k)),
        decreases pixels - i,
    {
        let s = 3 * i;
        out.push(src[s]);
        out.push(src[s + 1]);
        out.push(src[s + 2]);
        out.push(255);
        assert(out@ =~= Seq::new((4 * (i + 1)) as nat, |k: int| rgb_byte(src@, k)));
        i = i + 1;
    }
    out
}

proof fn lemma_pixel_pos(y: int, x: int, w: int)
    requires
        0 <= y,
        0 <= x < w,
    ensures
        (y * w + x) % w == x,
        (y * w + x) / w == y,
{
    vstd::arithmetic::div_mod::lemma_fundamental_div_mod_converse(y * w + x, w, y, x);
}

proof fn lemma_block_in_bounds(y: int, h: int, bx: int, bw: int, stride: int)
    requires
        0 <= y < h,
        0 <= bx < bw,
        stride >= 0,
    ensures
        ((y / 4) * bw + bx + 1) * stride <= bw * blocks_across(h) * stride,
        0 <= (y / 4) * bw + bx,
        stride >= 1 ==> (y / 4) * bw + bx + 1 <= ((y / 4) * bw + bx + 1) * stride,
{
    let by = y / 4;
    let bh = blocks_across(h);
    assert(by < bh);
    assert((by * bw + bx + 1) <= bh * bw) by (nonlinear_arith)
        requires
            0 <= by < bh,
            0 <= bx < bw,
    ;
    assert((by * bw + bx + 1) * stride <= (bh * bw) * stride) by (nonlinear_arith)
        requires
            (by * bw + bx + 1) <= bh * bw,
            stride >= 0,
    ;
    assert(bw * bh * stride == (bh * bw) * stride) by (nonlinear_arith);
    assert(0 <= by * bw) by (nonlinear_arith)
        requires
            0 <= by,
            0 <= bw,
    ;
    assert(stride >= 1 ==> (by * bw + bx + 1) <= (by * bw + bx + 1) * stride) by (nonlinear_arith)
        requires
            0 <= by * bw + bx,
    ;
}

/// Decodes a block-compressed level of `w × h` texels, row by row.
fn decode_blocks(src: &[u8], w: u32, h: u32, bc3: bool) -> (out: Vec<u8>)
    requires
        w as int * h as int <= u32::MAX,
        4 * (w as int * h as int) <= usize::MAX,
        (if bc3 {
            16int
        } else {
            8int
        }) * (blocks_across(w as int) * blocks_across(h as int)) <= src@.len(),
    ensures
        out@ == Seq::new((4 * (w as int * h as int)) as nat, |k: int| block_byte(src@, w as int, bc3, k)),
{
    let ghost spec_out = Seq::new((4 * (w as int * h as int)) as nat, |k: int| block_byte(src@, w as int, bc3, k));
    let stride: usize = if bc3 {
        16
    } else {
        8
    };
    let coff: usize = if bc3 {
        8
    } else {
        0
    };
    let bw = blocks_across_exec(w);
    let ghost bh = blocks_across(h as int);
    let mut out: Vec<u8> = Vec::new();
    let slen = src.len();
    let mut y: u32 = 0;
    while y < h
        invariant
            0 <= y <= h,
            slen == src@.len(),
            w as int * h as int <= u32::MAX,
            stride == (if bc3 {
                16int
            } else {
                8int
            }),
            coff == (if bc3 {
                8int
            } else {
                0int
            }),
            bw == blocks_across(w as int),
            bh == blocks_across(h as int),
            stride * (bw * bh) <= src@.len(),
            out@.len() == 4 * (y * w),
            forall|k: int| 0 <= k < out@.len() ==> out@[k] == block_byte(src@, w as int, bc3, k),
        decreases h - y,
    {
        let mut bx: u32 = 0;
        while bx < bw
            invariant
                0 <= y < h,
                0 <= bx <= bw,
                slen == src@.len(),
                w as int * h as int <= u32::MAX,
                stride == (if bc3 {
                    16int
                } else {
                    8int
                }),
                coff == (if bc3 {
                    8int
                } else {
                    0int
                }),
                bw == blocks_across(w as int),
                bh == blocks_across(h as int),
                stride * (bw * bh) <= src@.len(),
                out@.len() == 4 * (y * w + (if 4 * bx < w {
                    4 * bx
                } else {
                    w as int
                })),
                forall|k: int| 0 <= k < out@.len() ==> out@[k] == block_byte(src@, w as int, bc3, k),
            decreases bw - bx,
        {
            proof {
                lemma_block_in_bounds(y as int, h as int, bx as int, bw as int, stride as int);
                assert(bw * bh * stride == stride * (bw * bh)) by (nonlinear_arith);
            }
            let bi: usize = ((y / 4) as usize) * (bw as usize) + bx as usize;
            let off: usize = bi * stride + coff;
            let block: [u8; 8] = [
                src[off],
                src[off + 1],
                src[off + 2],
                src[off + 3],
                src[off + 4],
                src[off + 5],
                src[off + 6],
                src[off + 7],
            ];
            assert(block@ =~= src@.subrange(off as int, off + 8));
            let texels = decode_dxt1_block(&block);
            let mut dx: u32 = 0;
            while dx < 4 && 4 * bx + dx < w
                invariant
                    0 <= y < h,
                    0 <= bx < bw,
                    4 * bx < w,
                    0 <= dx <= 4,
                    4 * bx + dx <= w,
                    w as int * h as int <= u32::MAX,
                    bw == blocks_across(w as int),
                    off == ((y / 4) * bw + bx) * stride + coff,
                    off + 8 <= src@.len(),
                    stride == (if bc3 {
                        16int
                    } else {
                        8int
                    }),
                    coff == (if bc3 {
                        8int
                    } else {
                        0int
                    }),
                    block@ == src@.subrange(off as int, off + 8),
                    forall|i: int, ch: int|
                        0 <= i < 16 && 0 <= ch < 4 ==> #[trigger] texels@[i]@[ch] == dxt1_texel(block@, i, ch),
                    out@.len() == 4 * (y * w + 4 * bx + dx),
                    forall|k: int| 0 <= k < out@.len() ==> out@[k] == block_byte(src@, w as int, bc3, k),
                decreases 4 - dx,
            {
                let t = texels[((y % 4) * 4 + dx) as usize];
                let ghost base = out@.len() as int;
                let ghost x = (4 * bx + dx) as int;
                out.push(t[0]);
                out.push(t[1]);
                out.push(t[2]);
                out.push(255);
                proof {
                    lemma_pixel_pos(y as int, x, w as int);
                    assert(base == 4 * (y * w + x));
                    assert forall|c: int| 0 <= c < 4 implies #[trigger] out@[base + c] == block_byte(
                        src@,
                        w as int,
                        bc3,
                        base + c,
                    ) by {
                        assert((base + c) / 4 == y * w + x);
                        assert((base + c) % 4 == c);
                        assert(x / 4 == bx && x % 4 == dx);
                        assert(colour_block_offset(w as int, bc3, x, y as int) == off);
                        if c < 3 {
                            assert(t@[c] == texels@[(y % 4) * 4 + dx]@[c]);
                        }
                    }
                }
                dx = dx + 1;
            }
            assert(out@.len() == 4 * (y * w + (if 4 * (bx + 1) < w {
                4 * (bx + 1)
            } else {
                w as int
            })));
            bx = bx + 1;
        }
        assert(4 * bw >= w);
        assert(out@.len() == 4 * ((y + 1) * w)) by (nonlinear_arith)
            requires
                out@.len() == 4 * (y * w + w),
        ;
        y = y + 1;
    }
    assert(out@.len() == 4 * (w as int * h as int)) by (nonlinear_arith)
        requires
            out@.len() == 4 * (y * w),
            y == h,
    ;
    assert(out@ =~= spec_out);
    out
}

/// Decode a single level into a `width*height*4` `Rgba8Unorm` buffer.
fn decode_face(info: &DdsHeaderInfo, src: &[u8], w: u32, h: u32) -> (r: Result<Vec<u8>, SkyboxError>)
    requires
        sizes_fit(*info, w as int, h as int),
        decode_need(*info, w as int, h as int) <= src@.len(),
    ensures
        match r {
            Ok(v) => decode_spec(*info, src@, w as int, h as int) == Ok::<Seq<u8>, SkyboxError>(v@),
            Err(e) => decode_spec(*info, src@, w as int, h as int) == Err::<Seq<u8>, SkyboxError>(e),
        },
{
    let pixels = (w as u64 * h as u64) as usize;
    match decode_path_exec(info) {
        DecodePath::Bgra { opaque } => Ok(decode_bgra(src, pixels, opaque)),
        DecodePath::Rgba { opaque } => Ok(decode_rgba(src, pixels, opaque)),
        DecodePath::Rgb => Ok(decode_rgb(src, pixels)),
        DecodePath::Blocks { bc3 } => Ok(decode_blocks(src, w, h, bc3)),
        DecodePath::Unsupported => Err(SkyboxError::UnsupportedFormat),
    }
}

/// For a consistent format, a level's byte count is exactly what its
/// decoding path reads.
proof fn lemma_need_is_len(info: DdsHeaderInfo, w: int, h: int)
    requires
        format_consistent(info),
        mip_len_spec(info, w, h) is Some,
        !(decode_path(info) is Unsupported),
    ensures
        decode_need(info, w, h) == mip_len_spec(info, w, h).unwrap(),
{
}

/// The size bounds of a level carry over to any smaller level.
proof fn lemma_sizes_fit_smaller(info: DdsHeaderInfo, w: int, h: int, w2: int, h2: int)
    requires
        sizes_fit(info, w, h),
        0 <= w2 <= w,
        0 <= h2 <= h,
    ensures
        sizes_fit(info, w2, h2),
{
    assert(w2 * h2 <= w * h) by (nonlinear_arith)
        requires
            0 <= w2 <= w,
            0 <= h2 <= h,
    ;
    assert(blocks_across(w2) <= blocks_across(w) && blocks_across(h2) <= blocks_across(h));
    assert(blocks_across(w2) * blocks_across(h2) <= blocks_across(w) * blocks_across(h)) by (nonlinear_arith)
        requires
            0 <= blocks_across(w2) <= blocks_across(w),
            0 <= blocks_across(h2) <= blocks_across(h),
    ;
}

/// `v` halved `level` times (`v >> level`).
pub open spec fn halve(v: u32, level: nat) -> u32
    decreases level,
{
    if level == 0 {
        v
    } else {
        halve(v, (level - 1) as nat) / 2
    }
}

/// Side length of mip `level` of a `v`-texel side: `max(v >> level, 1)`.
pub open spec fn mip_dim(v: u32, level: nat) -> u32 {
    if halve(v, level) < 1 {
        1
    } else {
        halve(v, level)
    }
}

proof fn lemma_mip_dim_le(v: u32, level: nat)
    ensures
        mip_dim(v, level) <= mip_dim(v, 0),
        halve(v, level) <= v,
    decreases level,
{
    if level > 0 {
        lemma_mip_dim_le(v, (level - 1) as nat);
    }
}

/// The decoded bytes of a level (empty if the level does not decode).
pub open spec fn decoded_or_empty(info: DdsHeaderInfo, src: Seq<u8>, w: int, h: int) -> Seq<u8> {
    match decode_spec(info, src, w, h) {
        Ok(v) => v,
        Err(_) => Seq::empty(),
    }
}

/// The mip levels from `level` on, read back to back from `offset` of `raw`
/// until `n` levels are read or the data runs out.
pub open spec fn mip_walk(info: DdsHeaderInfo, raw: Seq<u8>, level: nat, offset: int, n: nat) -> Seq<MipView>
    decreases n - level,
{
    if level >= n {
        Seq::empty()
    } else {
        let w = mip_dim(info.width, level);
        let h = mip_dim(info.height, level);
        match mip_len_spec(info, w as int, h as int) {
            None => Seq::empty(),
            Some(len) => if offset + len > raw.len() {
                Seq::empty()
            } else {
                seq![MipView { width: w, height: h, rgba: decoded_or_empty(info, raw.subrange(offset, offset + len), w as int, h as int) }]
                    + mip_walk(info, raw, level + 1, offset + len, n)
            },
        }
    }
}

/// Number of mip levels to read: the declared count, at least one.
pub open spec fn mip_count(info: DdsHeaderInfo) -> nat {
    if info.mip_levels < 1 {
        1
    } else {
        info.mip_levels as nat
    }
}

/// Every mip level present in the layer data `raw`: an unsupported pixel
/// format, or data too short for even the base level, is an error.
pub open spec fn mips_spec(info: DdsHeaderInfo, raw: Seq<u8>) -> Result<Seq<MipView>, SkyboxError> {
    if mip_len_spec(info, mip_dim(info.width, 0) as int, mip_dim(info.height, 0) as int) is None
        || decode_path(info) is Unsupported {
        Err(SkyboxError::UnsupportedFormat)
    } else {
        let walk = mip_walk(info, raw, 0, 0, mip_count(info));
        if walk.len() == 0 {
            Err(SkyboxError::UnsupportedFormat)
        } else {
            Ok(walk)
        }
    }
}

/// Whether the decoder can handle the sizes and format of `info` (it
/// always can for a header `ddsfile` parsed, short of sizes beyond 32 bits).
pub open spec fn dds_decodable(info: DdsHeaderInfo) -> bool {
    sizes_fit(info, mip_dim(info.width, 0) as int, mip_dim(info.height, 0) as int) && format_consistent(info)
}

/// Decodes every mip level present in the base layer's data `raw`
/// (see [`mips_spec`]).  The first entry is the base mip; subsequent
/// entries are the half-size chain down to the declared level count or
/// the end of the data.
pub fn decode_dds_mips(info: &DdsHeaderInfo, raw: &[u8]) -> (r: Result<Vec<DdsMip>, SkyboxError>)
    requires
        dds_decodable(*info),
    ensures
        match r {
            Ok(ms) => mips_spec(*info, raw@) == Ok::<Seq<MipView>, SkyboxError>(mips_view(ms@)),
            Err(e) => mips_spec(*info, raw@) == Err::<Seq<MipView>, SkyboxError>(e),
        },
{
    let ghost full = mip_walk(*info, raw@, 0, 0, mip_count(*info));
    let n: u32 = if info.mip_levels < 1 {
        1
    } else {
        info.mip_levels
    };
    let w0: u32 = if info.width < 1 {
        1
    } else {
        info.width
    };
    let h0: u32 = if info.height < 1 {
        1
    } else {
        info.height
    };
    match mip_byte_len_for(info, w0, h0) {
        Err(e) => {
            return Err(e);
        },
        Ok(_) => {},
    }
    match decode_path_exec(info) {
        DecodePath::Unsupported => {
            return Err(SkyboxError::UnsupportedFormat);
        },
        _ => {},
    }
    let dlen = raw.len();
    let mut out: Vec<DdsMip> = Vec::new();
    let mut offset: usize = 0;
    let mut sw: u32 = info.width;
    let mut sh: u32 = info.height;
    let mut level: u32 = 0;
    while level < n
        invariant_except_break
            0 <= level <= n,
            n == mip_count(*info),
            dlen == raw@.len(),
            offset <= raw@.len(),
            dds_decodable(*info),
            !(decode_path(*info) is Unsupported),
            mip_len_spec(*info, mip_dim(info.width, 0) as int, mip_dim(info.height, 0) as int) is Some,
            sw == halve(info.width, level as nat),
            sh == halve(info.height, level as nat),
            mips_view(out@) + mip_walk(*info, raw@, level as nat, offset as int, n as nat) == full,
            full == mip_walk(*info, raw@, 0, 0, mip_count(*info)),
        ensures
            mips_view(out@) == full,
        decreases n - level,
    {
        let w: u32 = if sw < 1 {
            1
        } else {
            sw
        };
        let h: u32 = if sh < 1 {
            1
        } else {
            sh
        };
        proof {
            lemma_mip_dim_le(info.width, level as nat);
            lemma_mip_dim_le(info.height, level as nat);
            lemma_sizes_fit_smaller(*info, mip_dim(info.width, 0) as int, mip_dim(info.height, 0) as int, w as int, h as int);
        }
        let byte_len = match mip_byte_len_for(info, w, h) {
            Ok(b) => b,
            Err(_) => {
                assert(false);
                0
            },
        };
        let ghost walk_here = mip_walk(*info, raw@, level as nat, offset as int, n as nat);
        if byte_len > dlen - offset {
            assert(walk_here =~= Seq::<MipView>::empty());
            assert(mips_view(out@) =~= full);
            break;
        }
        proof {
            lemma_need_is_len(*info, w as int, h as int);
        }
        let src = vstd::slice::slice_subrange(raw, offset, offset + byte_len);
        let rgba = match decode_face(info, src, w, h) {
            Ok(v) => v,
            Err(_) => {
                assert(false);
                Vec::new()
            },
        };
        let ghost before = out@;
        out.push(DdsMip { width: w, height: h, rgba });
        proof {
            let m = MipView { width: w, height: h, rgba: decoded_or_empty(*info, raw@.subrange(offset as int, offset + byte_len), w as int, h as int) };
            assert(out@[out@.len() - 1]@ == m);
            assert(walk_here == seq![m] + mip_walk(*info, raw@, (level + 1) as nat, offset + byte_len, n as nat));
            assert(mips_view(out@) =~= mips_view(before).push(m));
            assert(mips_view(out@) + mip_walk(*info, raw@, (level + 1) as nat, offset + byte_len, n as nat)
                =~= mips_view(before) + walk_here);
        }
        offset = offset + byte_len;
        sw = sw / 2;
        sh = sh / 2;
        level = level + 1;
    }
    if out.len() == 0 {
        return Err(SkyboxError::UnsupportedFormat);
    }
    Ok(out)
}

/// The base level of layer data `raw`, with the header's dimensions.
pub open spec fn base_spec(info: DdsHeaderInfo, raw: Seq<u8>) -> Result<(Seq<u8>, u32, u32), SkyboxError> {
    match mip_len_spec(info, info.width as int, info.height as int) {
        None => Err(SkyboxError::UnsupportedFormat),
        Some(len) => if len > raw.len() {
            Err(SkyboxError::UnsupportedFormat)
        } else {
            match decode_spec(info, raw.subrange(0, len), info.width as int, info.height as int) {
                Ok(v) => Ok((v, info.width, info.height)),
                Err(e) => Err(e),
            }
        },
    }
}

/// Decodes the base level of the base layer's data `raw` (see [`base_spec`]).
pub fn decode_dds_base(info: &DdsHeaderInfo, raw: &[u8]) -> (r: Result<(Vec<u8>, u32, u32), SkyboxError>)
    requires
        sizes_fit(*info, info.width as int, info.height as int),
        format_consistent(*info),
    ensures
        match r {
            Ok((v, w, h)) => base_spec(*info, raw@) == Ok::<(Seq<u8>, u32, u32), SkyboxError>((v@, w, h)),
            Err(e) => base_spec(*info, raw@) == Err::<(Seq<u8>, u32, u32), SkyboxError>(e),
        },
{
    let byte_len = match mip_byte_len_for(info, info.width, info.height) {
        Ok(b) => b,
        Err(e) => {
            return Err(e);
        },
    };
    if byte_len > raw.len() {
        return Err(SkyboxError::UnsupportedFormat);
    }
    match decode_path_exec(info) {
        DecodePath::Unsupported => {
            return Err(SkyboxError::UnsupportedFormat);
        },
        _ => {},
    }
    proof {
        lemma_need_is_len(*info, info.width as int, info.height as int);
    }
    let src = vstd::slice::slice_subrange(raw, 0, byte_len);
    match decode_face(info, src, info.width, info.height) {
        Ok(v) => Ok((v, info.width, info.height)),
        Err(e) => Err(e),
    }
}

/// One cubemap face from its layer data `face` (`None` when the layer
/// could not be read), trimmed to the base level of `len` bytes.
pub open spec fn cube_face_spec(info: DdsHeaderInfo, face: Option<Seq<u8>>, len: int) -> Result<Seq<u8>, SkyboxError> {
    match face {
        None => Err(SkyboxError::Parse),
        Some(f) => if f.len() < len {
            Err(SkyboxError::UnsupportedFormat)
        } else {
            decode_spec(info, f.subrange(0, len), info.width as int, info.height as int)
        },
    }
}

/// The first error among per-face results, or all the faces.
pub open spec fn first_error(rs: Seq<Result<Seq<u8>, SkyboxError>>) -> Result<Seq<Seq<u8>>, SkyboxError>
    decreases rs.len(),
{
    if rs.len() == 0 {
        Ok(Seq::empty())
    } else {
        match rs[0] {
            Err(e) => Err(e),
            Ok(v) => match first_error(rs.drop_first()) {
                Ok(rest) => Ok(seq![v] + rest),
                Err(e) => Err(e),
            },
        }
    }
}

proof fn lemma_first_error_at(rs: Seq<Result<Seq<u8>, SkyboxError>>, k: int, e: SkyboxError)
    requires
        0 <= k < rs.len(),
        forall|j: int| 0 <= j < k ==> rs[j] is Ok,
        rs[k] == Err::<Seq<u8>, SkyboxError>(e),
    ensures
        first_error(rs) == Err::<Seq<Seq<u8>>, SkyboxError>(e),
    decreases k,
{
    if k > 0 {
        assert forall|j: int| 0 <= j < k - 1 implies rs.drop_first()[j] is Ok by {
            assert(rs.drop_first()[j] == rs[j + 1]);
        }
        lemma_first_error_at(rs.drop_first(), k - 1, e);
    }
}

proof fn lemma_first_error_all_ok(rs: Seq<Result<Seq<u8>, SkyboxError>>)
    requires
        forall|j: int| 0 <= j < rs.len() ==> rs[j] is Ok,
    ensures
        first_error(rs) == Ok::<Seq<Seq<u8>>, SkyboxError>(Seq::new(rs.len(), |j: int| rs[j]->Ok_0)),
    decreases rs.len(),
{
    if rs.len() > 0 {
        assert forall|j: int| 0 <= j < rs.len() - 1 implies rs.drop_first()[j] is Ok by {
            assert(rs.drop_first()[j] == rs[j + 1]);
        }
        lemma_first_error_all_ok(rs.drop_first());
        assert(seq![rs[0]->Ok_0] + Seq::new(rs.drop_first().len(), |j: int| rs.drop_first()[j]->Ok_0) =~= Seq::new(
            rs.len(),
            |j: int| rs[j]->Ok_0,
        ));
        assert(rs[0] == Ok::<Seq<u8>, SkyboxError>(rs[0]->Ok_0));
    } else {
        assert(Seq::new(rs.len(), |j: int| rs[j]->Ok_0) =~= Seq::<Seq<u8>>::empty());
    }
}

/// The six decoded faces of a cubemap, from the per-layer data `faces`.
pub open spec fn cubemap_spec(info: DdsHeaderInfo, faces: Seq<Option<Seq<u8>>>) -> Result<Seq<Seq<u8>>, SkyboxError> {
    if !info.cubemap {
        Err(SkyboxError::NotACubemap)
    } else {
        match mip_len_spec(info, info.width as int, info.height as int) {
            None => Err(SkyboxError::UnsupportedFormat),
            Some(len) => first_error(Seq::new(6, |i: int| cube_face_spec(info, faces[i], len))),
        }
    }
}

pub open spec fn opt_bytes_view(v: Seq<Option<Vec<u8>>>) -> Seq<Option<Seq<u8>>> {
    Seq::new(
        v.len(),
        |i: int|
            match v[i] {
                Some(b) => Some(b@),
                None => None,
            },
    )
}

pub open spec fn cube_faces_view(c: Cubemap) -> Seq<Seq<u8>> {
    Seq::new(6, |i: int| c.faces@[i]@)
}

fn decode_cube_face(info: &DdsHeaderInfo, face: &Option<Vec<u8>>, len: usize) -> (r: Result<Vec<u8>, SkyboxError>)
    requires
        sizes_fit(*info, info.width as int, info.height as int),
        format_consistent(*info),
        mip_len_spec(*info, info.width as int, info.height as int) == Some(len as int),
    ensures
        ({
            let fv = match face {
                Some(b) => Some(b@),
                None => None,
            };
            match r {
                Ok(v) => cube_face_spec(*info, fv, len as int) == Ok::<Seq<u8>, SkyboxError>(v@),
                Err(e) => cube_face_spec(*info, fv, len as int) == Err::<Seq<u8>, SkyboxError>(e),
            }
        }),
{
    match face {
        None => Err(SkyboxError::Parse),
        Some(f) => {
            if f.len() < len {
                return Err(SkyboxError::UnsupportedFormat);
            }
            match decode_path_exec(info) {
                DecodePath::Unsupported => {
                    return Err(SkyboxError::UnsupportedFormat);
                },
                _ => {},
            }
            proof {
                lemma_need_is_len(*info, info.width as int, info.height as int);
            }
            let src = vstd::slice::slice_subrange(f.as_slice(), 0, len);
            decode_face(info, src, info.width, info.height)
        },
    }
}

/// Decodes the six faces of a cubemap from the layer data of each face
/// (`None` for a layer that could not be read), trimming each to its base
/// level (see [`cubemap_spec`]).  Face order is +X, -X, +Y, -Y, +Z, -Z.
pub fn decode_dds_cubemap(info: &DdsHeaderInfo, faces: &[Option<Vec<u8>>]) -> (r: Result<Cubemap, SkyboxError>)
    requires
        faces@.len() == 6,
        sizes_fit(*info, info.width as int, info.height as int),
        format_consistent(*info),
    ensures
        match r {
            Ok(c) => {
                &&& cubemap_spec(*info, opt_bytes_view(faces@)) == Ok::<Seq<Seq<u8>>, SkyboxError>(cube_faces_view(c))
                &&& c.width == info.width
                &&& c.height == info.height
            },
            Err(e) => cubemap_spec(*info, opt_bytes_view(faces@)) == Err::<Seq<Seq<u8>>, SkyboxError>(e),
        },
{
    if !info.cubemap {
        return Err(SkyboxError::NotACubemap);
    }
    let len = match mip_byte_len_for(info, info.width, info.height) {
        Ok(b) => b,
        Err(e) => {
            return Err(e);
        },
    };
    let ghost fv = opt_bytes_view(faces@);
    let ghost rs = Seq::new(6, |i: int| cube_face_spec(*info, fv[i], len as int));
    assert(cubemap_spec(*info, fv) == first_error(rs));
    let f0 = match decode_cube_face(info, &faces[0], len) {
        Ok(v) => v,
        Err(e) => {
            proof {
                lemma_first_error_at(rs, 0, e);
            }
            return Err(e);
        },
    };
    let f1 = match decode_cube_face(info, &faces[1], len) {
        Ok(v) => v,
        Err(e) => {
            proof {
                lemma_first_error_at(rs, 1, e);
            }
            return Err(e);
        },
    };
    let f2 = match decode_cube_face(info, &faces[2], len) {
        Ok(v) => v,
        Err(e) => {
            proof {
                lemma_first_error_at(rs, 2, e);
            }
            return Err(e);
        },
    };
    let f3 = match decode_cube_face(info, &faces[3], len) {
        Ok(v) => v,
        Err(e) => {
            proof {
                lemma_first_error_at(rs, 3, e);
            }
            return Err(e);
        },
    };
    let f4 = match decode_cube_face(info, &faces[4], len) {
        Ok(v) => v,
        Err(e) => {
            proof {
                lemma_first_error_at(rs, 4, e);
            }
            return Err(e);
        },
    };
    let f5 = match decode_cube_face(info, &faces[5], len) {
        Ok(v) => v,
        Err(e) => {
            proof {
                lemma_first_error_at(rs, 5, e);
            }
            return Err(e);
        },
    };
    let c = Cubemap { width: info.width, height: info.height, faces: [f0, f1, f2, f3, f4, f5] };
    proof {
        lemma_first_error_all_ok(rs);
        assert(Seq::new(rs.len(), |j: int| rs[j]->Ok_0) =~= seq![f0@, f1@, f2@, f3@, f4@, f5@]);
        assert(cube_faces_view(c) =~= seq![f0@, f1@, f2@, f3@, f4@, f5@]);
    }
    Ok(c)
}

fn sizes_fit_exec(info: &DdsHeaderInfo, w: u32, h: u32) -> (r: bool)
    ensures
        r == sizes_fit(*info, w as int, h as int),
{
    let bw = blocks_across_exec(w);
    let bh = blocks_across_exec(h);
    assert((w as u64) * (h as u64) <= u64::MAX && (bw as u64) * (bh as u64) <= u64::MAX) by (nonlinear_arith)
        requires
            w <= u32::MAX,
            h <= u32::MAX,
            bw <= u32::MAX,
            bh <= u32::MAX,
    ;
    let px: u64 = w as u64 * h as u64;
    let blocks: u64 = bw as u64 * bh as u64;
    let block_ok = blocks <= 0xFFFF_FFFFu64 / 16;
    let block_needed = match info.d3d_format {
        Some(c) => c == D3D_DXT1 || c == D3D_DXT3 || c == D3D_DXT5,
        None => true,
    };
    px <= 0xFFFF_FFFFu64 && px <= (usize::MAX as u64) / 4 && (!block_needed || block_ok)
}

fn consistent_exec(info: &DdsHeaderInfo) -> (r: bool)
    ensures
        r == format_consistent(*info),
{
    match info.d3d_format {
        Some(c) => if c == D3D_DXT1 || c == D3D_DXT3 || c == D3D_DXT5 {
            match info.dxgi_format {
                Some(g) => !(g == DXGI_R8G8B8A8_UNORM || g == DXGI_R8G8B8A8_UNORM_SRGB) && !(c == D3D_DXT1 && (g
                    == DXGI_BC3_UNORM || g == DXGI_BC3_UNORM_SRGB)),
                None => true,
            }
        } else {
            true
        },
        None => true,
    }
}

fn decodable_exec(info: &DdsHeaderInfo) -> (r: bool)
    ensures
        r == dds_decodable(*info),
{
    let w: u32 = if info.width < 1 {
        1
    } else {
        info.width
    };
    let h: u32 = if info.height < 1 {
        1
    } else {
        info.height
    };
    sizes_fit_exec(info, w, h) && consistent_exec(info)
}

// -- Reading DDS files -----------------------------------------------------------

/// The header information `ddsfile` parses from a DDS file's bytes (`None`
/// when it rejects the file).
pub uninterp spec fn dds_header_of(bytes: Seq<u8>) -> Option<DdsHeaderInfo>;

/// The data of array layer `layer` (a face, for cubemaps) of a DDS file:
/// all of its mip levels, base level first (`None` when `ddsfile` rejects
/// the file or cannot locate the layer).
pub uninterp spec fn dds_layer_of(bytes: Seq<u8>, layer: u32) -> Option<Seq<u8>>;

/// Calls `ddsfile::Dds::read` and reports the header fields the decoder
/// uses: `header.width`, `header.height`, `get_num_mipmap_levels()`, the
/// CUBEMAP bit of `header.caps2`, and the D3D and DXGI pixel formats (the D3D
/// format as its position in `ddsfile::D3DFormat`, the DXGI format as its
/// `u32` value), and the raw `header.pitch`, `header.linear_size`,
/// `header.depth` and `header.spf.rgb_bit_count` that bound `get_data`'s
/// size arithmetic.  `Dds::read` only reads fields (no arithmetic).  The
/// contract only names the result: it is a function of the bytes.
#[verifier::external_body]
fn read_dds_header(bytes: &[u8]) -> (r: Option<DdsHeaderInfo>)
    ensures
        r == dds_header_of(bytes@),
{
    let dds = ddsfile::Dds::read(bytes).ok()?;
    Some(DdsHeaderInfo {
        width: dds.header.width,
        height: dds.header.height,
        mip_levels: dds.get_num_mipmap_levels(),
        cubemap: dds.header.caps2.contains(ddsfile::Caps2::CUBEMAP),
        d3d_format: dds.get_d3d_format().map(|f| f as u32),
        dxgi_format: dds.get_dxgi_format().map(|f| f as u32),
        pitch: dds.header.pitch,
        linear_size: dds.header.linear_size,
        depth: dds.header.depth,
        rgb_bit_count: dds.header.spf.rgb_bit_count,
    })
}

/// Calls `ddsfile::Dds::read` and then `Dds::get_data(layer)`, copying the
/// layer's bytes out.  The contract only names the result: it is a function
/// of the bytes and the layer index.  `get_data` computes the layer's place
/// in `u32` arithmetic (the pitch, pitch times rows times depth, the sum
/// over the mip chain, the layer offset plus size); the `requires` admits
/// exactly the headers on which none of it overflows (see
/// [`dds_layer_readable`]).
#[verifier::external_body]
fn read_dds_layer(bytes: &[u8], layer: u32) -> (r: Option<Vec<u8>>)
    requires
        dds_header_of(bytes@) matches Some(info) && dds_format_sizes_of(bytes@) matches Some(fs)
            && dds_layer_readable(info, fs, layer),
    ensures
        match r {
            Some(v) => dds_layer_of(bytes@, layer) == Some(v@),
            None => dds_layer_of(bytes@, layer) is None,
        },
{
    match ddsfile::Dds::read(bytes) {
        Ok(dds) => match dds.get_data(layer) {
            Ok(d) => Some(d.to_vec()),
            Err(_) => None,
        },
        Err(_) => None,
    }
}

pub open spec fn mips_result_view(r: Result<Vec<DdsMip>, SkyboxError>) -> Result<Seq<MipView>, SkyboxError> {
    match r {
        Ok(ms) => Ok(mips_view(ms@)),
        Err(e) => Err(e),
    }
}

/// The mip chain of a 2D DDS file's bytes: parse errors, the bound on the
/// layer's place, then the size and format checks, then [`mips_spec`] on
/// the base layer.
pub open spec fn load_2d_spec(bytes: Seq<u8>) -> Result<Seq<MipView>, SkyboxError> {
    match dds_header_of(bytes) {
        None => Err(SkyboxError::Parse),
        Some(info) => match dds_format_sizes_of(bytes) {
            None => Err(SkyboxError::Parse),
            Some(fs) => if !dds_layer_readable(info, fs, 0) {
            Err(SkyboxError::UnsupportedFormat)
        } else {
            match dds_layer_of(bytes, 0) {
            None => Err(SkyboxError::Parse),
            Some(raw) => if dds_decodable(info) {
                mips_spec(info, raw)
            } else {
                Err(SkyboxError::UnsupportedFormat)
            },
            }
        },
        },
    }
}

/// Decode every mip level of a 2D DDS file (NOT a cubemap). The first entry
/// is the base mip; subsequent entries are the half-size chain
/// (1024 -> 512 -> 256 -> ...) down to 1x1 or the end of the data.
pub fn load_dds_2d_with_mips(bytes: &[u8]) -> (r: Result<Vec<DdsMip>, SkyboxError>)
    ensures
        mips_result_view(r) == load_2d_spec(bytes@),
{
    let info = match read_dds_header(bytes) {
        Some(i) => i,
        None => {
            return Err(SkyboxError::Parse);
        },
    };
    let fs = match read_dds_format_sizes(bytes) {
        Some(f) => f,
        None => {
            return Err(SkyboxError::Parse);
        },
    };
    if !dds_layer_readable_exec(&info, &fs, 0) {
        return Err(SkyboxError::UnsupportedFormat);
    }
    let raw = match read_dds_layer(bytes, 0) {
        Some(d) => d,
        None => {
            return Err(SkyboxError::Parse);
        },
    };
    if !decodable_exec(&info) {
        return Err(SkyboxError::UnsupportedFormat);
    }
    let r = decode_dds_mips(&info, raw.as_slice());
    assert(mips_result_view(r) == mips_spec(info, raw@));
    r
}

/// Decode the base mip of a 2D DDS file: its RGBA bytes, width and height.
pub fn load_dds_2d(bytes: &[u8]) -> (r: Result<(Vec<u8>, u32, u32), SkyboxError>)
    ensures
        match load_2d_spec(bytes@) {
            Ok(ms) => r matches Ok((v, w, h)) && v@ == ms[0].rgba && w == ms[0].width && h == ms[0].height,
            Err(e) => r == Err::<(Vec<u8>, u32, u32), SkyboxError>(e),
        },
{
    let mut mips = match load_dds_2d_with_mips(bytes) {
        Ok(m) => m,
        Err(e) => {
            return Err(e);
        },
    };
    let ghost mv = mips_view(mips@);
    assert(mips@.len() > 0);
    let base = mips.remove(0);
    assert(base@ == mv[0]);
    Ok((base.rgba, base.width, base.height))
}

/// The base level of a 2D DDS file's bytes: parse errors, the bound on
/// the layer's place, then the size and format checks, then [`base_spec`]
/// on the base layer.
pub open spec fn load_2d_base_spec(bytes: Seq<u8>) -> Result<(Seq<u8>, u32, u32), SkyboxError> {
    match dds_header_of(bytes) {
        None => Err(SkyboxError::Parse),
        Some(info) => match dds_format_sizes_of(bytes) {
            None => Err(SkyboxError::Parse),
            Some(fs) => if !dds_layer_readable(info, fs, 0) {
            Err(SkyboxError::UnsupportedFormat)
        } else {
            match dds_layer_of(bytes, 0) {
                None => Err(SkyboxError::Parse),
                Some(raw) => if sizes_fit(info, info.width as int, info.height as int) && format_consistent(info) {
                    base_spec(info, raw)
                } else {
                    Err(SkyboxError::UnsupportedFormat)
                },
            }
        },
        },
    }
}

/// Decode the base mip of a DDS from in-memory bytes, at the header's
/// dimensions.
pub fn load_dds_2d_bytes(bytes: &[u8]) -> (r: Result<(Vec<u8>, u32, u32), SkyboxError>)
    ensures
        match r {
            Ok((v, w, h)) => load_2d_base_spec(bytes@) == Ok::<(Seq<u8>, u32, u32), SkyboxError>((v@, w, h)),
            Err(e) => load_2d_base_spec(bytes@) == Err::<(Seq<u8>, u32, u32), SkyboxError>(e),
        },
{
    let info = match read_dds_header(bytes) {
        Some(i) => i,
        None => {
            return Err(SkyboxError::Parse);
        },
    };
    let fs = match read_dds_format_sizes(bytes) {
        Some(f) => f,
        None => {
            return Err(SkyboxError::Parse);
        },
    };
    if !dds_layer_readable_exec(&info, &fs, 0) {
        return Err(SkyboxError::UnsupportedFormat);
    }
    let raw = match read_dds_layer(bytes, 0) {
        Some(d) => d,
        None => {
            return Err(SkyboxError::Parse);
        },
    };
    if !(sizes_fit_exec(&info, info.width, info.height) && consistent_exec(&info)) {
        return Err(SkyboxError::UnsupportedFormat);
    }
    decode_dds_base(&info, raw.as_slice())
}

/// The cubemap of a DDS file's bytes: parse errors, the CUBEMAP flag, the
/// size and format checks, then [`cubemap_spec`] on the six layers.
pub open spec fn load_cubemap_spec(bytes: Seq<u8>) -> Result<Seq<Seq<u8>>, SkyboxError> {
    match dds_header_of(bytes) {
        None => Err(SkyboxError::Parse),
        Some(info) => if !info.cubemap {
            Err(SkyboxError::NotACubemap)
        } else if !(sizes_fit(info, info.width as int, info.height as int) && format_consistent(info)) {
            Err(SkyboxError::UnsupportedFormat)
        } else {
            match dds_format_sizes_of(bytes) {
                None => Err(SkyboxError::Parse),
                Some(fs) => if !(forall|i: u32| i < 6 ==> #[trigger] dds_layer_readable(info, fs, i)) {
                    Err(SkyboxError::UnsupportedFormat)
                } else {
                    cubemap_spec(info, Seq::new(6, |i: int| dds_layer_of(bytes, i as u32)))
                },
            }
        },
    }
}

/// Decode a DDS cubemap's six faces to `Rgba8Unorm`.
pub fn load_dds_cubemap(bytes: &[u8]) -> (r: Result<Cubemap, SkyboxError>)
    ensures
        match r {
            Ok(c) => {
                &&& load_cubemap_spec(bytes@) == Ok::<Seq<Seq<u8>>, SkyboxError>(cube_faces_view(c))
                &&& dds_header_of(bytes@) matches Some(info) && c.width == info.width && c.height == info.height
            },
            Err(e) => load_cubemap_spec(bytes@) == Err::<Seq<Seq<u8>>, SkyboxError>(e),
        },
{
    let info = match read_dds_header(bytes) {
        Some(i) => i,
        None => {
            return Err(SkyboxError::Parse);
        },
    };
    if !info.cubemap {
        return Err(SkyboxError::NotACubemap);
    }
    if !(sizes_fit_exec(&info, info.width, info.height) && consistent_exec(&info)) {
        return Err(SkyboxError::UnsupportedFormat);
    }
    let fs = match read_dds_format_sizes(bytes) {
        Some(f) => f,
        None => {
            return Err(SkyboxError::Parse);
        },
    };
    let mut k: u32 = 0;
    while k < 6
        invariant
            0 <= k <= 6,
            dds_header_of(bytes@) == Some(info),
            dds_format_sizes_of(bytes@) == Some(fs),
            info.cubemap,
            sizes_fit(info, info.width as int, info.height as int) && format_consistent(info),
            forall|j: u32| j < k ==> #[trigger] dds_layer_readable(info, fs, j),
        decreases 6 - k,
    {
        if !dds_layer_readable_exec(&info, &fs, k) {
            assert(!(forall|j: u32| j < 6 ==> #[trigger] dds_layer_readable(info, fs, j)));
            return Err(SkyboxError::UnsupportedFormat);
        }
        k = k + 1;
    }
    let mut faces: Vec<Option<Vec<u8>>> = Vec::new();
    let mut i: u32 = 0;
    while i < 6
        invariant
            0 <= i <= 6,
            faces@.len() == i,
            dds_header_of(bytes@) == Some(info),
            dds_format_sizes_of(bytes@) == Some(fs),
            forall|j: u32| j < 6 ==> #[trigger] dds_layer_readable(info, fs, j),
            forall|j: int| 0 <= j < i ==> #[trigger] opt_bytes_view(faces@)[j] == dds_layer_of(bytes@, j as u32),
        decreases 6 - i,
    {
        let f = read_dds_layer(bytes, i);
        let ghost before = faces@;
        faces.push(f);
        proof {
            assert forall|j: int| 0 <= j < i + 1 implies #[trigger] opt_bytes_view(faces@)[j] == dds_layer_of(
                bytes@,
                j as u32,
            ) by {
                if j < i {
                    assert(faces@[j] == before[j]);
                    assert(opt_bytes_view(before)[j] == dds_layer_of(bytes@, j as u32));
                }
            }
        }
        i = i + 1;
    }
    assert(opt_bytes_view(faces@) =~= Seq::new(6, |j: int| dds_layer_of(bytes@, j as u32)));
    decode_dds_cubemap(&info, faces.as_slice())
}

} // verus!
