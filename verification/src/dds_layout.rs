//! Where `ddsfile` finds an array layer of a DDS file, and on which headers
//! the `u32` arithmetic it does for that stays in range.
//!
//! `Dds::get_data(layer)` works out the row pitch (from the pixel format,
//! else the header's pitch, else the bit count), the main texture size
//! (the header's linear size, else pitch × rows × depth), the layer stride
//! (the sum over the mip chain, each level a quarter of the one before but
//! at least the format's minimum level size) and the layer's offset, all
//! in `u32`.  [`dds_layer_readable`] holds exactly when none of these steps
//! overflows (or the layer is past the last one, which `get_data` rejects
//! before any arithmetic).

use vstd::prelude::*;

use crate::skybox::DdsHeaderInfo;

verus! {

/// Size facts of the pixel format `ddsfile` picks for a file (the DXGI
/// format when there is one, else the D3D format).
#[derive(Debug, Clone, Copy, PartialEq, Eq)]
pub struct DdsFormatSizes {
    /// The format's bits per pixel (`None` for block formats, for formats
    /// without one, and when the file has no known format).
    pub format_bpp: Option<u8>,
    /// The format's block size in bytes, for block-compressed formats.
    pub format_block: Option<u32>,
    /// The number of array layers (`get_num_array_layers`).
    pub layers: u32,
}

/// The format size facts `ddsfile` reports for a DDS file's bytes (`None`
/// when it rejects the file).
pub uninterp spec fn dds_format_sizes_of(bytes: Seq<u8>) -> Option<DdsFormatSizes>;

/// Calls `ddsfile::Dds::read`, then `get_format()` with the format's
/// `get_bits_per_pixel()` and `get_block_size()`, and
/// `get_num_array_layers()`; none of these does arithmetic.  The contract
/// only names the result: it is a function of the bytes.
#[verifier::external_body]
pub(crate) fn read_dds_format_sizes(bytes: &[u8]) -> (r: Option<DdsFormatSizes>)
    ensures
        r == dds_format_sizes_of(bytes@),
{
    let dds = ddsfile::Dds::read(bytes).ok()?;
    let (format_bpp, format_block) = match dds.get_format() {
        Some(f) => (f.get_bits_per_pixel(), f.get_block_size()),
        None => (None, None),
    };
    Some(DdsFormatSizes { format_bpp, format_block, layers: dds.get_num_array_layers() })
}

/// One step of the size arithmetic: it overflows `u32`, has nothing to
/// give, or gives a value.
#[derive(Debug, Clone, Copy, PartialEq, Eq)]
pub enum DdsCalc {
    Overflow,
    Absent,
    Value(u128),
}

pub open spec fn u32_max() -> int {
    0xFFFF_FFFF
}

/// Whether the file has a pixel format `ddsfile` knows.
pub open spec fn has_format(info: DdsHeaderInfo) -> bool {
    info.dxgi_format is Some || info.d3d_format is Some
}

/// Whether that format is a packed 4:2:2 one (`R8G8_B8G8`, `G8R8_G8B8`:
/// DXGI values 68 and 69, D3D positions 22 and 23), pitched by pixel pairs.
pub open spec fn packed_format(info: DdsHeaderInfo) -> bool {
    match info.dxgi_format {
        Some(v) => v == 68 || v == 69,
        None => match info.d3d_format {
            Some(p) => p == 22 || p == 23,
            None => false,
        },
    }
}

/// `(w * bpp + 7) / 8`.
pub open spec fn bpp_pitch(w: int, bpp: int) -> DdsCalc {
    if w * bpp + 7 > u32_max() {
        DdsCalc::Overflow
    } else {
        DdsCalc::Value(((w * bpp + 7) / 8) as u128)
    }
}

/// The pitch the format gives for the header's width.
pub open spec fn format_pitch(info: DdsHeaderInfo, fs: DdsFormatSizes) -> DdsCalc {
    let w = info.width as int;
    if !has_format(info) {
        DdsCalc::Absent
    } else if packed_format(info) {
        if w + 1 > u32_max() || ((w + 1) / 2) * 4 > u32_max() {
            DdsCalc::Overflow
        } else {
            DdsCalc::Value((((w + 1) / 2) * 4) as u128)
        }
    } else {
        match fs.format_bpp {
            Some(b) => bpp_pitch(w, b as int),
            None => match fs.format_block {
                Some(bs) => if w + 3 > u32_max() {
                    DdsCalc::Overflow
                } else {
                    let q = if (w + 3) / 4 >= 1 {
                        (w + 3) / 4
                    } else {
                        1
                    };
                    if q * bs > u32_max() {
                        DdsCalc::Overflow
                    } else {
                        DdsCalc::Value((q * bs) as u128)
                    }
                },
                None => DdsCalc::Absent,
            },
        }
    }
}

/// The file's bits per pixel: the format's, else the pixel format's bit count.
pub open spec fn dds_bpp(info: DdsHeaderInfo, fs: DdsFormatSizes) -> Option<int> {
    match fs.format_bpp {
        Some(b) => Some(b as int),
        None => match info.rgb_bit_count {
            Some(c) => Some(c as int),
            None => None,
        },
    }
}

/// The row pitch: the format's, else the header's, else from the bit count.
pub open spec fn dds_pitch(info: DdsHeaderInfo, fs: DdsFormatSizes) -> DdsCalc {
    match format_pitch(info, fs) {
        DdsCalc::Absent => match info.pitch {
            Some(p) => DdsCalc::Value(p as u128),
            None => match dds_bpp(info, fs) {
                Some(b) => bpp_pitch(info.width as int, b),
                None => DdsCalc::Absent,
            },
        },
        other => other,
    }
}

/// Rows of blocks (4 pixels high) or of pixels.
pub open spec fn pitch_height(info: DdsHeaderInfo, fs: DdsFormatSizes) -> int {
    if has_format(info) && fs.format_block is Some {
        4
    } else {
        1
    }
}

/// The main texture size: the header's linear size, else pitch × rows ×
/// depth.  The pitch is worked out first in either case.
pub open spec fn main_size(info: DdsHeaderInfo, fs: DdsFormatSizes) -> DdsCalc {
    match dds_pitch(info, fs) {
        DdsCalc::Overflow => DdsCalc::Overflow,
        pitch => match info.linear_size {
            Some(ls) => DdsCalc::Value(ls as u128),
            None => match pitch {
                DdsCalc::Value(p) => {
                    let ph = pitch_height(info, fs);
                    let h = info.height as int;
                    let d: int = match info.depth {
                        Some(d) => d as int,
                        None => 1,
                    };
                    if h + ph - 1 > u32_max() {
                        DdsCalc::Overflow
                    } else if p * ((h + ph - 1) / ph) > u32_max() {
                        DdsCalc::Overflow
                    } else if p * ((h + ph - 1) / ph) * d > u32_max() {
                        DdsCalc::Overflow
                    } else {
                        DdsCalc::Value((p * ((h + ph - 1) / ph) * d) as u128)
                    }
                },
                _ => DdsCalc::Absent,
            },
        },
    }
}

/// The smallest size a mip level takes: the format's minimum, else from the
/// bit count, else 1.
pub open spec fn min_level_size(info: DdsHeaderInfo, fs: DdsFormatSizes) -> DdsCalc {
    let format_min: Option<int> = if has_format(info) {
        match fs.format_bpp {
            Some(b) => Some((b + 7) / 8),
            None => match fs.format_block {
                Some(bs) => Some(bs as int),
                None => None,
            },
        }
    } else {
        None
    };
    match format_min {
        Some(m) => DdsCalc::Value(m as u128),
        None => match dds_bpp(info, fs) {
            Some(b) => if b + 7 > u32_max() {
                DdsCalc::Overflow
            } else {
                DdsCalc::Value(((b + 7) / 8) as u128)
            },
            None => DdsCalc::Value(1),
        },
    }
}

/// The layer stride accumulated over `n` more levels, the current level
/// being `cur` bytes and `acc` summed so far.
pub open spec fn stride_from(cur: int, min: int, acc: int, n: nat) -> DdsCalc
    decreases n,
{
    if n == 0 {
        DdsCalc::Value(acc as u128)
    } else if acc + cur > u32_max() {
        DdsCalc::Overflow
    } else {
        let quarter = cur / 4;
        stride_from(
            if quarter < min {
                min
            } else {
                quarter
            },
            min,
            acc + cur,
            (n - 1) as nat,
        )
    }
}

/// Whether `ddsfile` locates array layer `layer` without overflowing.
pub open spec fn dds_layer_readable(info: DdsHeaderInfo, fs: DdsFormatSizes, layer: u32) -> bool {
    if layer >= fs.layers {
        true
    } else {
        match main_size(info, fs) {
            DdsCalc::Overflow => false,
            DdsCalc::Absent => true,
            DdsCalc::Value(size) => match min_level_size(info, fs) {
                DdsCalc::Value(m) => match stride_from(size as int, m as int, 0, info.mip_levels as nat) {
                    DdsCalc::Value(st) => layer * st <= u32_max() && layer * st + st <= usize::MAX,
                    _ => false,
                },
                _ => false,
            },
        }
    }
}

fn bpp_pitch_exec(w: u128, bpp: u128) -> (r: DdsCalc)
    requires
        w <= u32_max(),
        bpp <= u32_max(),
    ensures
        r == bpp_pitch(w as int, bpp as int),
{
    assert(w * bpp <= 0xFFFF_FFFF * 0xFFFF_FFFF) by (nonlinear_arith)
        requires
            w <= 0xFFFF_FFFF,
            bpp <= 0xFFFF_FFFF,
    ;
    if w * bpp + 7 > 0xFFFF_FFFF {
        DdsCalc::Overflow
    } else {
        DdsCalc::Value((w * bpp + 7) / 8)
    }
}

fn format_pitch_exec(info: &DdsHeaderInfo, fs: &DdsFormatSizes) -> (r: DdsCalc)
    ensures
        r == format_pitch(*info, *fs),
{
    let w = info.width as u128;
    let known = info.dxgi_format.is_some() || info.d3d_format.is_some();
    let packed = match info.dxgi_format {
        Some(v) => v == 68 || v == 69,
        None => match info.d3d_format {
            Some(p) => p == 22 || p == 23,
            None => false,
        },
    };
    if !known {
        DdsCalc::Absent
    } else if packed {
        if w + 1 > 0xFFFF_FFFF || ((w + 1) / 2) * 4 > 0xFFFF_FFFF {
            DdsCalc::Overflow
        } else {
            DdsCalc::Value(((w + 1) / 2) * 4)
        }
    } else {
        match fs.format_bpp {
            Some(b) => bpp_pitch_exec(w, b as u128),
            None => match fs.format_block {
                Some(bs) => if w + 3 > 0xFFFF_FFFF {
                    DdsCalc::Overflow
                } else {
                    let q: u128 = if (w + 3) / 4 >= 1 {
                        (w + 3) / 4
                    } else {
                        1
                    };
                    let bs = bs as u128;
                    assert(q * bs <= 0xFFFF_FFFF * 0xFFFF_FFFF) by (nonlinear_arith)
                        requires
                            q <= 0xFFFF_FFFF,
                            bs <= 0xFFFF_FFFF,
                    ;
                    if q * bs > 0xFFFF_FFFF {
                        DdsCalc::Overflow
                    } else {
                        DdsCalc::Value(q * bs)
                    }
                },
                None => DdsCalc::Absent,
            },
        }
    }
}

fn dds_bpp_exec(info: &DdsHeaderInfo, fs: &DdsFormatSizes) -> (r: Option<u128>)
    ensures
        match r {
            Some(b) => dds_bpp(*info, *fs) == Some(b as int) && b <= u32_max(),
            None => dds_bpp(*info, *fs) is None,
        },
{
    match fs.format_bpp {
        Some(b) => Some(b as u128),
        None => match info.rgb_bit_count {
            Some(c) => Some(c as u128),
            None => None,
        },
    }
}

fn dds_pitch_exec(info: &DdsHeaderInfo, fs: &DdsFormatSizes) -> (r: DdsCalc)
    ensures
        r == dds_pitch(*info, *fs),
        r matches DdsCalc::Value(p) ==> p <= u32_max(),
{
    match format_pitch_exec(info, fs) {
        DdsCalc::Absent => match info.pitch {
            Some(p) => DdsCalc::Value(p as u128),
            None => match dds_bpp_exec(info, fs) {
                Some(b) => bpp_pitch_exec(info.width as u128, b),
                None => DdsCalc::Absent,
            },
        },
        other => other,
    }
}

fn main_size_exec(info: &DdsHeaderInfo, fs: &DdsFormatSizes) -> (r: DdsCalc)
    ensures
        r == main_size(*info, *fs),
        r matches DdsCalc::Value(s) ==> s <= u32_max(),
{
    let pitch = dds_pitch_exec(info, fs);
    if let DdsCalc::Overflow = pitch {
        return DdsCalc::Overflow;
    }
    if let Some(ls) = info.linear_size {
        return DdsCalc::Value(ls as u128);
    }
    match pitch {
        DdsCalc::Value(p) => {
            let ph: u128 = if (info.dxgi_format.is_some() || info.d3d_format.is_some()) && fs.format_block.is_some() {
                4
            } else {
                1
            };
            let h = info.height as u128;
            let d: u128 = match info.depth {
                Some(d) => d as u128,
                None => 1,
            };
            if h + ph - 1 > 0xFFFF_FFFF {
                return DdsCalc::Overflow;
            }
            let rows = (h + ph - 1) / ph;
            assert(p * rows <= 0xFFFF_FFFF * 0xFFFF_FFFF) by (nonlinear_arith)
                requires
                    p <= 0xFFFF_FFFF,
                    rows <= 0xFFFF_FFFF,
            ;
            if p * rows > 0xFFFF_FFFF {
                return DdsCalc::Overflow;
            }
            let pr = p * rows;
            assert(pr * d <= 0xFFFF_FFFF * 0xFFFF_FFFF) by (nonlinear_arith)
                requires
                    pr <= 0xFFFF_FFFF,
                    d <= 0xFFFF_FFFF,
            ;
            if pr * d > 0xFFFF_FFFF {
                DdsCalc::Overflow
            } else {
                DdsCalc::Value(pr * d)
            }
        },
        _ => DdsCalc::Absent,
    }
}

fn min_level_size_exec(info: &DdsHeaderInfo, fs: &DdsFormatSizes) -> (r: DdsCalc)
    ensures
        r == min_level_size(*info, *fs),
        r matches DdsCalc::Value(m) ==> m <= u32_max(),
{
    let known = info.dxgi_format.is_some() || info.d3d_format.is_some();
    let format_min: Option<u128> = if known {
        match fs.format_bpp {
            Some(b) => Some((b as u128 + 7) / 8),
            None => match fs.format_block {
                Some(bs) => Some(bs as u128),
                None => None,
            },
        }
    } else {
        None
    };
    match format_min {
        Some(m) => DdsCalc::Value(m),
        None => match dds_bpp_exec(info, fs) {
            Some(b) => if b + 7 > 0xFFFF_FFFF {
                DdsCalc::Overflow
            } else {
                DdsCalc::Value((b + 7) / 8)
            },
            None => DdsCalc::Value(1),
        },
    }
}

fn stride_exec(size: u128, min: u128, levels: u32) -> (r: DdsCalc)
    requires
        size <= u32_max(),
        min <= u32_max(),
    ensures
        r == stride_from(size as int, min as int, 0, levels as nat),
        r matches DdsCalc::Value(st) ==> st <= u32_max(),
{
    let mut cur = size;
    let mut acc: u128 = 0;
    let mut i: u32 = 0;
    while i < levels
        invariant
            0 <= i <= levels,
            cur <= u32_max(),
            acc <= u32_max(),
            min <= u32_max(),
            stride_from(size as int, min as int, 0, levels as nat) == stride_from(
                cur as int,
                min as int,
                acc as int,
                (levels - i) as nat,
            ),
        decreases levels - i,
    {
        if acc + cur > 0xFFFF_FFFF {
            return DdsCalc::Overflow;
        }
        acc = acc + cur;
        let quarter = cur / 4;
        cur = if quarter < min {
            min
        } else {
            quarter
        };
        i = i + 1;
    }
    DdsCalc::Value(acc)
}

/// Checks [`dds_layer_readable`].
pub fn dds_layer_readable_exec(info: &DdsHeaderInfo, fs: &DdsFormatSizes, layer: u32) -> (r: bool)
    ensures
        r == dds_layer_readable(*info, *fs, layer),
{
    if layer >= fs.layers {
        return true;
    }
    match main_size_exec(info, fs) {
        DdsCalc::Overflow => false,
        DdsCalc::Absent => true,
        DdsCalc::Value(size) => match min_level_size_exec(info, fs) {
            DdsCalc::Value(m) => match stride_exec(size, m, info.mip_levels) {
                DdsCalc::Value(st) => {
                    let l = layer as u128;
                    assert(l * st <= 0xFFFF_FFFF * 0xFFFF_FFFF) by (nonlinear_arith)
                        requires
                            l <= 0xFFFF_FFFF,
                            st <= 0xFFFF_FFFF,
                    ;
                    l * st <= 0xFFFF_FFFF && l * st + st <= usize::MAX as u128
                },
                _ => false,
            },
            _ => false,
        },
    }
}

} // verus!
