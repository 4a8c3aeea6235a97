//! SMF (Spring Map Format) reader/writer for Spring/Recoil engine maps.
//!
//! The SMF file contains:
//! - Map header (dimensions, heights, section offsets)
//! - Heightmap (16-bit unsigned)
//! - Typemap (8-bit)
//! - Tile section (SMT file names + tile index map)
//! - Minimap (DXT1 compressed, 9 mip levels)
//! - Metalmap (8-bit)
//! - Feature section (type-name table + placements)
//!
//! Floating-point header and placement fields are carried as their
//! IEEE-754 bit patterns; the heightmap is carried as its raw 16-bit
//! samples; names are carried as the bytes stored in the file.

use vstd::prelude::*;
use vstd::slice::{slice_subrange, slice_to_vec};

use crate::le::{
    i16_le_bytes, i32_bits, i32_le_bytes, i32_to_u32, le_i16_at, le_i32_at, le_u16_at, le_u32_at, push_i16_le,
    push_i32_le, push_u16_le, push_u32_le, read_i16_le, read_i32_le, read_u16_le, read_u32_le,
    u16_le_bytes, u32_le_bytes,
};

verus! {

/// Errors of the heightmap buffer (reported by the SMF reader).
#[derive(Debug, Clone, Copy, PartialEq, Eq)]
pub enum HeightmapError {
    DimensionMismatch { expected: usize, actual: usize },
    InvalidDimensions { width: u32, height: u32 },
}

/// Errors reading or writing an SMF file.
#[derive(Debug, Clone, Copy, PartialEq, Eq)]
#[allow(inconsistent_fields)]
pub enum Sd7Error {
    /// The data ended before a required field.
    UnexpectedEof,
    InvalidMagic { expected: u32, actual: u32 },
    UnsupportedVersion(u32),
    InvalidDimensions { width: u32, height: u32 },
    DataSizeMismatch { expected: usize, actual: usize },
    Heightmap(HeightmapError),
}

/// Current supported SMF version.
pub const SMF_VERSION: i32 = 1;

/// Header size in bytes (16 magic bytes + 16 four-byte fields).
pub const SMF_HEADER_SIZE: usize = 80;

/// DXT1 minimap: 1024×1024 with 9 mipmap levels.
pub const SMF_MINIMAP_SIZE: usize = 699048;

/// Header for the Spring Map Format (.smf).
#[derive(Debug, Clone, Copy, PartialEq, Eq)]
pub struct SmfHeader {
    pub version: i32,
    /// Unique map ID
    pub map_id: i32,
    /// Map width in spring units
    pub map_x: i32,
    /// Map height in spring units
    pub map_y: i32,
    /// Square size (typically 8)
    pub square_size: i32,
    /// Texels per square (typically 8)
    pub texels_per_square: i32,
    /// Tile size (typically 32)
    pub tile_size: i32,
    /// Minimum terrain height (world units), IEEE-754 bits
    pub min_height_bits: u32,
    /// Maximum terrain height (world units), IEEE-754 bits
    pub max_height_bits: u32,
    /// Offset to heightmap data
    pub heightmap_ptr: i32,
    /// Offset to typemap data
    pub typemap_ptr: i32,
    /// Offset to tile index map
    pub tilesmap_ptr: i32,
    /// Offset to minimap
    pub minimap_ptr: i32,
    /// Offset to metalmap
    pub metalmap_ptr: i32,
    /// Offset to feature data
    pub featuremap_ptr: i32,
    /// Number of extra headers
    pub num_extra_headers: i32,
}

/// The 16 magic bytes, `"spring map file\0"`.
pub open spec fn smf_magic() -> Seq<u8> {
    seq![115u8, 112, 114, 105, 110, 103, 32, 109, 97, 112, 32, 102, 105, 108, 101, 0]
}

/// Rust's truncating division of `a` by a positive `b`.
pub open spec fn trunc_div(a: int, b: int) -> int {
    if a >= 0 {
        a / b
    } else {
        -((-a) / b)
    }
}

/// Rust's truncating division of `a` by a non-zero `b`.
pub open spec fn trunc_quot(a: int, b: int) -> int {
    let q = (if a >= 0 {
        a
    } else {
        -a
    }) / (if b >= 0 {
        b
    } else {
        -b
    });
    if (a >= 0) == (b > 0) || a == 0 {
        q
    } else {
        -q
    }
}

/// Signed division as Rust performs it (truncating toward zero).
pub(crate) fn div_i32(a: i32, b: i32) -> (q: i32)
    requires
        b != 0,
        !(a == i32::MIN && b == -1),
    ensures
        q == trunc_quot(a as int, b as int),
{
    let aa: u64 = if a >= 0 {
        a as u64
    } else {
        (-(a as i64)) as u64
    };
    let bb: u64 = if b >= 0 {
        b as u64
    } else {
        (-(b as i64)) as u64
    };
    let m = aa / bb;
    assert(m <= aa) by (nonlinear_arith)
        requires
            bb >= 1,
            m == aa / bb,
    ;
    if a == i32::MIN && b < 0 {
        assert(bb >= 2);
        assert(m * 2 <= aa) by (nonlinear_arith)
            requires
                bb >= 2,
                m == aa / bb,
        ;
    }
    if (a >= 0) == (b > 0) || a == 0 {
        m as i32
    } else {
        (-(m as i64)) as i32
    }
}

/// The header fields stored at bytes 16..80.
pub open spec fn header_at(d: Seq<u8>) -> SmfHeader {
    SmfHeader {
        version: le_i32_at(d, 16) as i32,
        map_id: le_i32_at(d, 20) as i32,
        map_x: le_i32_at(d, 24) as i32,
        map_y: le_i32_at(d, 28) as i32,
        square_size: le_i32_at(d, 32) as i32,
        texels_per_square: le_i32_at(d, 36) as i32,
        tile_size: le_i32_at(d, 40) as i32,
        min_height_bits: le_u32_at(d, 44) as u32,
        max_height_bits: le_u32_at(d, 48) as u32,
        heightmap_ptr: le_i32_at(d, 52) as i32,
        typemap_ptr: le_i32_at(d, 56) as i32,
        tilesmap_ptr: le_i32_at(d, 60) as i32,
        minimap_ptr: le_i32_at(d, 64) as i32,
        metalmap_ptr: le_i32_at(d, 68) as i32,
        featuremap_ptr: le_i32_at(d, 72) as i32,
        num_extra_headers: le_i32_at(d, 76) as i32,
    }
}

/// The result of reading an SMF header from the start of `d`.
pub open spec fn header_read_spec(d: Seq<u8>) -> Result<SmfHeader, Sd7Error> {
    if d.len() < 16 {
        Err(Sd7Error::UnexpectedEof)
    } else if d.subrange(0, 16) != smf_magic() {
        Err(
            Sd7Error::InvalidMagic {
                expected: le_u32_at(smf_magic(), 0) as u32,
                actual: le_u32_at(d, 0) as u32,
            },
        )
    } else if d.len() < 20 {
        Err(Sd7Error::UnexpectedEof)
    } else if le_i32_at(d, 16) != SMF_VERSION {
        Err(Sd7Error::UnsupportedVersion((le_i32_at(d, 16) as i32) as u32))
    } else if d.len() < 80 {
        Err(Sd7Error::UnexpectedEof)
    } else {
        Ok(header_at(d))
    }
}

/// The 32-bit pattern of header field `j` (0 = version ... 15 = extra headers),
/// in file order.
pub open spec fn header_word(h: SmfHeader, j: int) -> int {
    if j == 0 {
        i32_bits(h.version as int)
    } else if j == 1 {
        i32_bits(h.map_id as int)
    } else if j == 2 {
        i32_bits(h.map_x as int)
    } else if j == 3 {
        i32_bits(h.map_y as int)
    } else if j == 4 {
        i32_bits(h.square_size as int)
    } else if j == 5 {
        i32_bits(h.texels_per_square as int)
    } else if j == 6 {
        i32_bits(h.tile_size as int)
    } else if j == 7 {
        h.min_height_bits as int
    } else if j == 8 {
        h.max_height_bits as int
    } else if j == 9 {
        i32_bits(h.heightmap_ptr as int)
    } else if j == 10 {
        i32_bits(h.typemap_ptr as int)
    } else if j == 11 {
        i32_bits(h.tilesmap_ptr as int)
    } else if j == 12 {
        i32_bits(h.minimap_ptr as int)
    } else if j == 13 {
        i32_bits(h.metalmap_ptr as int)
    } else if j == 14 {
        i32_bits(h.featuremap_ptr as int)
    } else {
        i32_bits(h.num_extra_headers as int)
    }
}

/// The 80 bytes a header is written as: the magic, then the 16 fields as
/// little-endian 32-bit words.
pub open spec fn header_bytes(h: SmfHeader) -> Seq<u8> {
    smf_magic() + Seq::new(64, |k: int| header_body_byte(h, k))
}

/// Byte `k` of the 64 bytes of header fields.
pub open spec fn header_body_byte(h: SmfHeader, k: int) -> u8 {
    u32_le_bytes(header_word(h, k / 4))[k % 4]
}

/// The header a new map of `map_x × map_y` spring units starts with:
/// square size 8, 8 texels per square, 32-texel tiles, heights 0 to 800
/// (`0x4448_0000` is the bit pattern of 800.0) and no sections yet.
pub open spec fn default_header(map_x: i32, map_y: i32) -> SmfHeader {
    SmfHeader {
        version: SMF_VERSION,
        map_id: 0,
        map_x,
        map_y,
        square_size: 8,
        texels_per_square: 8,
        tile_size: 32,
        min_height_bits: 0,
        max_height_bits: 0x4448_0000,
        heightmap_ptr: 0,
        typemap_ptr: 0,
        tilesmap_ptr: 0,
        minimap_ptr: 0,
        metalmap_ptr: 0,
        featuremap_ptr: 0,
        num_extra_headers: 0,
    }
}

impl SmfHeader {
    /// Heightmap dimensions in samples: `(map_x + 1) × (map_y + 1)` vertices
    /// (wrapping at the `i32` limit, then read as unsigned).
    pub open spec fn heightmap_size_spec(&self) -> (u32, u32) {
        (self.map_x.wrapping_add(1) as u32, self.map_y.wrapping_add(1) as u32)
    }

    /// Metalmap/typemap dimensions: `(map_x / 2) × (map_y / 2)` (truncating,
    /// then read as unsigned).
    pub open spec fn metalmap_size_spec(&self) -> (u32, u32) {
        (trunc_div(self.map_x as int, 2) as u32, trunc_div(self.map_y as int, 2) as u32)
    }

    /// Get heightmap dimensions in pixels.
    /// In Spring, the heightmap is (mapx + 1) × (mapy + 1) vertices.
    pub fn heightmap_size(&self) -> (r: (u32, u32))
        ensures
            r == self.heightmap_size_spec(),
    {
        (self.map_x.wrapping_add(1) as u32, self.map_y.wrapping_add(1) as u32)
    }

    /// Get metalmap dimensions (half resolution of map squares).
    /// In Spring, metalmap/typemap are (mapx / 2) × (mapy / 2).
    pub fn metalmap_size(&self) -> (r: (u32, u32))
        ensures
            r == self.metalmap_size_spec(),
    {
        let w = self.map_x / 2;
        let h = self.map_y / 2;
        (w as u32, h as u32)
    }

    /// Get typemap dimensions (same as metalmap).
    pub fn typemap_size(&self) -> (r: (u32, u32))
        ensures
            r == self.metalmap_size_spec(),
    {
        self.metalmap_size()
    }

    /// Full diffuse texture dimensions: map_x * texels_per_square × map_y * texels_per_square.
    pub fn texture_size(&self) -> (r: (u32, u32))
        requires
            (self.map_x as u32) as int * (self.texels_per_square as u32) as int <= u32::MAX,
            (self.map_y as u32) as int * (self.texels_per_square as u32) as int <= u32::MAX,
        ensures
            r.0 == (self.map_x as u32) as int * (self.texels_per_square as u32) as int,
            r.1 == (self.map_y as u32) as int * (self.texels_per_square as u32) as int,
    {
        (
            self.map_x as u32 * self.texels_per_square as u32,
            self.map_y as u32 * self.texels_per_square as u32,
        )
    }

    /// Tile grid dimensions: how many 32×32 tiles span the texture.
    pub fn tile_grid_size(&self) -> (r: (u32, u32))
        requires
            self.square_size != 0,
            !(self.tile_size == i32::MIN && self.square_size == -1),
        ensures
            ({
                let q = trunc_quot(self.tile_size as int, self.square_size as int);
                let res = (if q < 1 {
                    1
                } else {
                    q
                }) as u32;
                r == ((self.map_x as u32) / res, (self.map_y as u32) / res)
            }),
    {
        let q = div_i32(self.tile_size, self.square_size);
        let tile_res = (if q < 1 {
            1
        } else {
            q
        }) as u32;
        ((self.map_x as u32) / tile_res, (self.map_y as u32) / tile_res)
    }

    /// Create a default header for a given map size in spring units.
    pub fn new(map_x: i32, map_y: i32) -> (h: Self)
        ensures
            h == default_header(map_x, map_y),
    {
        SmfHeader {
            version: SMF_VERSION,
            map_id: 0,
            map_x,
            map_y,
            square_size: 8,
            texels_per_square: 8,
            tile_size: 32,
            min_height_bits: 0,
            max_height_bits: 0x4448_0000,
            heightmap_ptr: 0,
            typemap_ptr: 0,
            tilesmap_ptr: 0,
            minimap_ptr: 0,
            metalmap_ptr: 0,
            featuremap_ptr: 0,
            num_extra_headers: 0,
        }
    }
}

fn push_smf_magic(out: &mut Vec<u8>)
    ensures
        final(out)@ == old(out)@ + smf_magic(),
{
    let magic: [u8; 16] = [115, 112, 114, 105, 110, 103, 32, 109, 97, 112, 32, 102, 105, 108, 101, 0];
    let mut i: usize = 0;
    while i < 16
        invariant
            0 <= i <= 16,
            magic@ == smf_magic(),
            out@ == old(out)@ + smf_magic().subrange(0, i as int),
        decreases 16 - i,
    {
        out.push(magic[i]);
        assert(smf_magic().subrange(0, (i + 1) as int) =~= smf_magic().subrange(0, i as int).push(
            smf_magic()[i as int],
        ));
        i = i + 1;
    }
    assert(smf_magic().subrange(0, 16) =~= smf_magic());
}

fn has_smf_magic(data: &[u8]) -> (r: bool)
    requires
        data@.len() >= 16,
    ensures
        r == (data@.subrange(0, 16) == smf_magic()),
{
    let magic: [u8; 16] = [115, 112, 114, 105, 110, 103, 32, 109, 97, 112, 32, 102, 105, 108, 101, 0];
    let mut i: usize = 0;
    while i < 16
        invariant
            0 <= i <= 16,
            data@.len() >= 16,
            magic@ == smf_magic(),
            forall|j: int| 0 <= j < i ==> data@[j] == smf_magic()[j],
        decreases 16 - i,
    {
        if data[i] != magic[i] {
            assert(data@.subrange(0, 16)[i as int] != smf_magic()[i as int]);
            return false;
        }
        i = i + 1;
    }
    assert(data@.subrange(0, 16) =~= smf_magic());
    true
}

impl SmfHeader {
    /// Read a header from the start of `data`.
    pub fn read(data: &[u8]) -> (r: Result<SmfHeader, Sd7Error>)
        ensures
            r == header_read_spec(data@),
    {
        let len = data.len();
        if len < 16 {
            return Err(Sd7Error::UnexpectedEof);
        }
        if !has_smf_magic(data) {
            let magic: [u8; 4] = [115, 112, 114, 105];
            assert(le_u32_at(smf_magic(), 0) == le_u32_at(magic@, 0));
            return Err(
                Sd7Error::InvalidMagic {
                    expected: read_u32_le(&magic, 0),
                    actual: read_u32_le(data, 0),
                },
            );
        }
        if len < 20 {
            return Err(Sd7Error::UnexpectedEof);
        }
        let version = read_i32_le(data, 16);
        if version != SMF_VERSION {
            return Err(Sd7Error::UnsupportedVersion(version as u32));
        }
        if len < 80 {
            return Err(Sd7Error::UnexpectedEof);
        }
        Ok(
            SmfHeader {
                version,
                map_id: read_i32_le(data, 20),
                map_x: read_i32_le(data, 24),
                map_y: read_i32_le(data, 28),
                square_size: read_i32_le(data, 32),
                texels_per_square: read_i32_le(data, 36),
                tile_size: read_i32_le(data, 40),
                min_height_bits: read_u32_le(data, 44),
                max_height_bits: read_u32_le(data, 48),
                heightmap_ptr: read_i32_le(data, 52),
                typemap_ptr: read_i32_le(data, 56),
                tilesmap_ptr: read_i32_le(data, 60),
                minimap_ptr: read_i32_le(data, 64),
                metalmap_ptr: read_i32_le(data, 68),
                featuremap_ptr: read_i32_le(data, 72),
                num_extra_headers: read_i32_le(data, 76),
            },
        )
    }

    /// Append the 80-byte header to `out`.
    pub fn write(&self, out: &mut Vec<u8>)
        ensures
            final(out)@ == old(out)@ + header_bytes(*self),
    {
        push_smf_magic(out);
        let ghost start = out@;
        let mut j: usize = 0;
        while j < 16
            invariant
                0 <= j <= 16,
                out@.len() == start.len() + 4 * j,
                start == old(out)@ + smf_magic(),
                forall|k: int| 0 <= k < start.len() ==> out@[k] == start[k],
                forall|k: int|
                    start.len() <= k < out@.len() ==> #[trigger] out@[k] == header_body_byte(
                        *self,
                        k - start.len(),
                    ),
            decreases 16 - j,
        {
            let w: u32 = header_word_exec(self, j);
            let ghost before = out@;
            push_u32_le(out, w);
            assert forall|k: int| start.len() + 4 * j <= k < out@.len() implies #[trigger] out@[k]
                == header_body_byte(*self, k - start.len()) by {
                assert((k - start.len()) / 4 == j);
                assert(out@[k] == u32_le_bytes(w as int)[k - start.len() - 4 * j]);
            }
            j = j + 1;
        }
        let ghost body = Seq::new(64, |k: int| header_body_byte(*self, k));
        assert(out@ =~= start + body);
        assert(old(out)@ + (smf_magic() + body) =~= (old(out)@ + smf_magic()) + body);
    }
}

fn header_word_exec(h: &SmfHeader, j: usize) -> (w: u32)
    requires
        j < 16,
    ensures
        w == header_word(*h, j as int),
{
    if j == 0 {
        i32_to_u32(h.version)
    } else if j == 1 {
        i32_to_u32(h.map_id)
    } else if j == 2 {
        i32_to_u32(h.map_x)
    } else if j == 3 {
        i32_to_u32(h.map_y)
    } else if j == 4 {
        i32_to_u32(h.square_size)
    } else if j == 5 {
        i32_to_u32(h.texels_per_square)
    } else if j == 6 {
        i32_to_u32(h.tile_size)
    } else if j == 7 {
        h.min_height_bits
    } else if j == 8 {
        h.max_height_bits
    } else if j == 9 {
        i32_to_u32(h.heightmap_ptr)
    } else if j == 10 {
        i32_to_u32(h.typemap_ptr)
    } else if j == 11 {
        i32_to_u32(h.tilesmap_ptr)
    } else if j == 12 {
        i32_to_u32(h.minimap_ptr)
    } else if j == 13 {
        i32_to_u32(h.metalmap_ptr)
    } else if j == 14 {
        i32_to_u32(h.featuremap_ptr)
    } else {
        i32_to_u32(h.num_extra_headers)
    }
}

// ---------------------------------------------------------------------------
// Whole map
// ---------------------------------------------------------------------------

/// A placed feature instance read from or written to an SMF feature section.
///
/// Feature type names are resolved from the in-file index table during read
/// and re-deduplicated into an index table during write.
#[derive(Debug, Clone)]
pub struct SmfFeaturePlacement {
    /// Feature type name bytes (e.g. "arborreal", "GeoTherm_Lava_Rock").
    pub feature_type: Vec<u8>,
    /// World X position, IEEE-754 bits.
    pub x: u32,
    /// World Y position (engine snaps to terrain; typically 0 at import), IEEE-754 bits.
    pub y: u32,
    /// World Z position, IEEE-754 bits.
    pub z: u32,
    /// Rotation angle (Spring convention), IEEE-754 bits.
    pub angle: u32,
    pub taken_damage: i16,
}

/// Mathematical value of a feature placement.
pub struct FeatureView {
    pub feature_type: Seq<u8>,
    pub x: u32,
    pub y: u32,
    pub z: u32,
    pub angle: u32,
    pub taken_damage: i16,
}

/// The text `String::from_utf8_lossy` makes of `bytes`: valid UTF-8 decoded,
/// every invalid sequence replaced by U+FFFD.
pub uninterp spec fn utf8_lossy_of(bytes: Seq<u8>) -> Seq<char>;

/// Calls `String::from_utf8_lossy` and takes the owned text.  The contract
/// names the result, a function of the bytes, and states the ASCII case:
/// bytes below 0x80 decode one character each, to the same code point.
#[verifier::external_body]
fn utf8_lossy(bytes: &[u8]) -> (r: String)
    ensures
        r@ == utf8_lossy_of(bytes@),
        (forall|i: int| 0 <= i < bytes@.len() ==> #[trigger] bytes@[i] < 0x80) ==> r@ == Seq::new(
            bytes@.len(),
            |i: int| bytes@[i] as char,
        ),
{
    String::from_utf8_lossy(bytes).into_owned()
}

impl SmfFeaturePlacement {
    /// The feature type name as text, decoded from its bytes as UTF-8 with
    /// invalid sequences replaced.
    pub fn feature_type_text(&self) -> (r: String)
        ensures
            r@ == utf8_lossy_of(self.feature_type@),
            (forall|i: int| 0 <= i < self.feature_type@.len() ==> #[trigger] self.feature_type@[i] < 0x80) ==> r@
                == Seq::new(self.feature_type@.len(), |i: int| self.feature_type@[i] as char),
    {
        utf8_lossy(self.feature_type.as_slice())
    }
}

impl View for SmfFeaturePlacement {
    type V = FeatureView;

    open spec fn view(&self) -> FeatureView {
        FeatureView {
            feature_type: self.feature_type@,
            x: self.x,
            y: self.y,
            z: self.z,
            angle: self.angle,
            taken_damage: self.taken_damage,
        }
    }
}

/// Complete map data as read from/written to an SMF file.
pub struct SmfMap {
    pub header: SmfHeader,
    /// Raw 16-bit height samples, `(map_x + 1) × (map_y + 1)` row-major.
    pub heightmap: Vec<u16>,
    /// Metal distribution (8-bit, values 0-255)
    pub metalmap: Vec<u8>,
    /// Terrain type indices (8-bit)
    pub typemap: Vec<u8>,
    /// SMT filename bytes referenced in the tile header (e.g., "maps/mymap.smt").
    pub smt_filename: Vec<u8>,
    /// Tile index map: one i32 per tile position (tiles_x × tiles_y, row-major).
    pub tile_indices: Vec<i32>,
    /// Pre-compressed DXT1 minimap with 9 mipmap levels (exactly 699048 bytes).
    /// If it has any other length, a solid-color placeholder is written.
    pub minimap_dxt1: Vec<u8>,
    /// Feature placements read from or written to the SMF feature section.
    pub features: Vec<SmfFeaturePlacement>,
}

/// Mathematical value of a map.
pub struct SmfMapView {
    pub header: SmfHeader,
    pub heightmap: Seq<u16>,
    pub metalmap: Seq<u8>,
    pub typemap: Seq<u8>,
    pub smt_filename: Seq<u8>,
    pub tile_indices: Seq<i32>,
    pub minimap_dxt1: Seq<u8>,
    pub features: Seq<FeatureView>,
}

pub open spec fn features_view(fs: Seq<SmfFeaturePlacement>) -> Seq<FeatureView> {
    Seq::new(fs.len(), |i: int| fs[i]@)
}

impl View for SmfMap {
    type V = SmfMapView;

    open spec fn view(&self) -> SmfMapView {
        SmfMapView {
            header: self.header,
            heightmap: self.heightmap@,
            metalmap: self.metalmap@,
            typemap: self.typemap@,
            smt_filename: self.smt_filename@,
            tile_indices: self.tile_indices@,
            minimap_dxt1: self.minimap_dxt1@,
            features: features_view(self.features@),
        }
    }
}

// -- Read specification ---------------------------------------------------------

/// Position of the first NUL byte at or after `pos`.
pub open spec fn nul_from(d: Seq<u8>, pos: int) -> Option<int>
    decreases d.len() - pos,
{
    if pos < 0 || pos >= d.len() {
        None
    } else if d[pos] == 0 {
        Some(pos)
    } else {
        nul_from(d, pos + 1)
    }
}

/// The NUL-terminated string at `pos` and the position just past its NUL.
pub open spec fn cstr_at(d: Seq<u8>, pos: int) -> Option<(Seq<u8>, int)> {
    match nul_from(d, pos) {
        Some(z) => Some((d.subrange(pos, z), z + 1)),
        None => None,
    }
}

pub open spec fn nonneg(v: int) -> int {
    if v < 0 {
        0
    } else {
        v
    }
}

/// Walks `k` tile-file entries (count word + NUL-terminated name) from
/// `pos`, keeping the first non-empty name.  Returns the position after the
/// entries (`None` if the data ended first) and the name found so far.
pub open spec fn tile_files(d: Seq<u8>, pos: int, k: nat, name: Seq<u8>) -> (Option<int>, Seq<u8>)
    decreases k,
{
    if k == 0 {
        (Some(pos), name)
    } else if pos + 4 > d.len() {
        (None, name)
    } else {
        match cstr_at(d, pos + 4) {
            None => (None, name),
            Some((nm, next)) => tile_files(
                d,
                next,
                (k - 1) as nat,
                if name.len() == 0 {
                    nm
                } else {
                    name
                },
            ),
        }
    }
}

/// The complete little-endian `i32` words among the first `n` at `pos`.
pub open spec fn read_i32s(d: Seq<u8>, pos: int, n: int) -> Seq<i32> {
    let avail = if pos > d.len() {
        0
    } else {
        (d.len() - pos) / 4
    };
    Seq::new(
        (if n < avail {
            n
        } else {
            avail
        }) as nat,
        |i: int| le_i32_at(d, pos + 4 * i) as i32,
    )
}

/// SMT file name and tile index map of the tile section at `ptr`.  Data
/// missing part-way leaves what was read before it.
pub open spec fn tile_section(d: Seq<u8>, ptr: int) -> (Seq<u8>, Seq<i32>) {
    if ptr <= 0 || ptr + 8 > d.len() {
        (Seq::empty(), Seq::empty())
    } else {
        let ntf = nonneg(le_i32_at(d, ptr));
        let total = nonneg(le_i32_at(d, ptr + 4));
        let r = tile_files(d, ptr + 8, ntf as nat, Seq::empty());
        match r.0 {
            None => (r.1, Seq::empty()),
            Some(p) => (r.1, read_i32s(d, p, total)),
        }
    }
}

/// Reads `k` NUL-terminated type names from `pos`.
pub open spec fn type_names(d: Seq<u8>, pos: int, k: nat, acc: Seq<Seq<u8>>) -> (Option<int>, Seq<Seq<u8>>)
    decreases k,
{
    if k == 0 {
        (Some(pos), acc)
    } else {
        match cstr_at(d, pos) {
            None => (None, acc),
            Some((nm, next)) => type_names(d, next, (k - 1) as nat, acc.push(nm)),
        }
    }
}

/// The 24-byte feature record at `pos`, its type resolved through `names`
/// (an out-of-range type index gives an empty name).
pub open spec fn feature_at(d: Seq<u8>, pos: int, names: Seq<Seq<u8>>) -> FeatureView {
    let ti = nonneg(le_i32_at(d, pos));
    FeatureView {
        feature_type: if ti < names.len() {
            names[ti]
        } else {
            Seq::empty()
        },
        x: le_u32_at(d, pos + 4) as u32,
        y: le_u32_at(d, pos + 8) as u32,
        z: le_u32_at(d, pos + 12) as u32,
        angle: le_u32_at(d, pos + 16) as u32,
        taken_damage: le_i16_at(d, pos + 20) as i16,
    }
}

/// Feature placements of the feature section at `ptr`: every complete
/// record among those declared.  Data missing part-way leaves what was read
/// before it.
pub open spec fn feature_section(d: Seq<u8>, ptr: int) -> Seq<FeatureView> {
    if ptr <= 0 || ptr + 8 > d.len() {
        Seq::empty()
    } else {
        let nt = nonneg(le_i32_at(d, ptr));
        let nr = nonneg(le_i32_at(d, ptr + 4));
        let r = type_names(d, ptr + 8, nt as nat, Seq::empty());
        match r.0 {
            None => Seq::empty(),
            Some(p) => {
                let avail = (d.len() - p) / 24;
                Seq::new(
                    (if nr < avail {
                        nr
                    } else {
                        avail
                    }) as nat,
                    |i: int| feature_at(d, p + 24 * i, r.1),
                )
            },
        }
    }
}

/// A section pointer as the reader seeks to it (sign-extended to 64 bits).
pub open spec fn seek_pos(ptr: int) -> int {
    if ptr < 0 {
        ptr + 0x1_0000_0000_0000_0000
    } else {
        ptr
    }
}

/// The `n` 16-bit samples at `pos`.
pub open spec fn read_u16s(d: Seq<u8>, pos: int, n: int) -> Seq<u16> {
    Seq::new(n as nat, |i: int| le_u16_at(d, pos + 2 * i) as u16)
}

/// An 8-bit map section: `n` bytes at `ptr` when `ptr > 0`, zeros otherwise.
pub open spec fn byte_section(d: Seq<u8>, ptr: int, n: int) -> Seq<u8> {
    if ptr > 0 && n > 0 {
        d.subrange(ptr, ptr + n)
    } else {
        Seq::new(n as nat, |i: int| 0u8)
    }
}

/// Whether an 8-bit section of `n` bytes at `ptr` can be read.
pub open spec fn byte_section_ok(d: Seq<u8>, ptr: int, n: int) -> bool {
    ptr <= 0 || n == 0 || ptr + n <= d.len()
}

/// The result of reading an SMF file.
pub open spec fn smf_read_spec(d: Seq<u8>) -> Result<SmfMapView, Sd7Error> {
    match header_read_spec(d) {
        Err(e) => Err(e),
        Ok(h) => {
            let (hm_w, hm_h) = h.heightmap_size_spec();
            let hm = hm_w * hm_h;
            let (mm_w, mm_h) = h.metalmap_size_spec();
            let mm = mm_w * mm_h;
            let hp = seek_pos(h.heightmap_ptr as int);
            if hm > usize::MAX {
                Err(Sd7Error::InvalidDimensions { width: hm_w, height: hm_h })
            } else if !(hm == 0 || hp + 2 * hm <= d.len()) {
                Err(Sd7Error::UnexpectedEof)
            } else if mm > usize::MAX {
                Err(Sd7Error::InvalidDimensions { width: mm_w, height: mm_h })
            } else if !byte_section_ok(d, h.metalmap_ptr as int, mm) {
                Err(Sd7Error::UnexpectedEof)
            } else if !byte_section_ok(d, h.typemap_ptr as int, mm) {
                Err(Sd7Error::UnexpectedEof)
            } else {
                let tiles = tile_section(d, h.tilesmap_ptr as int);
                Ok(
                    SmfMapView {
                        header: h,
                        heightmap: read_u16s(d, hp, hm),
                        metalmap: byte_section(d, h.metalmap_ptr as int, mm),
                        typemap: byte_section(d, h.typemap_ptr as int, mm),
                        smt_filename: tiles.0,
                        tile_indices: tiles.1,
                        minimap_dxt1: Seq::empty(),
                        features: feature_section(d, h.featuremap_ptr as int),
                    },
                )
            }
        },
    }
}

// -- Reading --------------------------------------------------------------------

/// Reads the NUL-terminated string at `pos`.
fn read_cstr(data: &[u8], pos: u64) -> (r: Option<(Vec<u8>, u64)>)
    ensures
        r matches Some((nm, next)) ==> cstr_at(data@, pos as int) == Some((nm@, next as int)),
        r matches Some((nm, next)) ==> pos < next <= data@.len(),
        r is None ==> cstr_at(data@, pos as int) is None,
{
    let dlen = data.len();
    let len = dlen as u64;
    if pos >= len {
        return None;
    }
    let mut i: u64 = pos;
    while i < len && data[i as usize] != 0
        invariant
            pos <= i <= len,
            len == data@.len(),
            dlen == data@.len(),
            nul_from(data@, i as int) == nul_from(data@, pos as int),
        decreases len - i,
    {
        i = i + 1;
    }
    if i == len {
        return None;
    }
    let nm = slice_to_vec(slice_subrange(data, pos as usize, i as usize));
    Some((nm, i + 1))
}

/// Reads the tile section at `ptr` (see [`tile_section`]).
fn read_tile_section(data: &[u8], ptr: i32) -> (r: (Vec<u8>, Vec<i32>))
    ensures
        (r.0@, r.1@) == tile_section(data@, ptr as int),
{
    let dlen = data.len();
    let len = dlen as u64;
    let mut name: Vec<u8> = Vec::new();
    let mut indices: Vec<i32> = Vec::new();
    if ptr <= 0 || (ptr as u64) + 8 > len {
        return (name, indices);
    }
    let p = ptr as u64;
    let ntf_raw = read_i32_le(data, p as usize);
    let total_raw = read_i32_le(data, (p + 4) as usize);
    let ntf: u64 = if ntf_raw < 0 {
        0
    } else {
        ntf_raw as u64
    };
    let total: u64 = if total_raw < 0 {
        0
    } else {
        total_raw as u64
    };
    let ghost full = tile_files(data@, ptr + 8, ntf as nat, Seq::empty());
    let mut pos: u64 = p + 8;
    let mut k: u64 = 0;
    while k < ntf
        invariant
            0 <= k <= ntf,
            len == data@.len(),
            dlen == data@.len(),
            pos <= len,
            ntf < 0x8000_0000,
            tile_files(data@, pos as int, (ntf - k) as nat, name@) == full,
            full == tile_files(data@, ptr + 8, ntf as nat, Seq::empty()),
            0 < ptr,
            ptr + 8 <= len,
            ntf == nonneg(le_i32_at(data@, ptr as int)),
            indices@ == Seq::<i32>::empty(),
        decreases ntf - k,
    {
        if len - pos < 4 {
            assert(full == (Option::<int>::None, name@));
            return (name, indices);
        }
        match read_cstr(data, pos + 4) {
            None => {
                assert(full == (Option::<int>::None, name@));
                return (name, indices);
            },
            Some((nm, next)) => {
                let ghost old_name = name@;
                if name.len() == 0 {
                    name = nm;
                }
                assert(name@ == (if old_name.len() == 0 {
                    nm@
                } else {
                    old_name
                }));
                pos = next;
            },
        }
        k = k + 1;
    }
    assert(full == (Some(pos as int), name@));
    let avail = (len - pos) / 4;
    let n = if total < avail {
        total
    } else {
        avail
    };
    let mut i: u64 = 0;
    while i < n
        invariant
            0 <= i <= n,
            n <= (len - pos) / 4,
            pos <= len,
            len == data@.len(),
            dlen == data@.len(),
            indices@ == read_i32s(data@, pos as int, total as int).subrange(0, i as int),
            read_i32s(data@, pos as int, total as int).len() == n,
        decreases n - i,
    {
        let v = read_i32_le(data, (pos + 4 * i) as usize);
        indices.push(v);
        assert(read_i32s(data@, pos as int, total as int).subrange(0, (i + 1) as int)
            =~= read_i32s(data@, pos as int, total as int).subrange(0, i as int).push(v));
        i = i + 1;
    }
    assert(indices@ =~= read_i32s(data@, pos as int, total as int));
    (name, indices)
}

/// Reads `count` NUL-terminated type names from `pos` (see [`type_names`]).
fn read_type_names(data: &[u8], pos: u64, count: u64) -> (r: Option<(Vec<Vec<u8>>, u64)>)
    requires
        pos <= data@.len(),
    ensures
        ({
            let t = type_names(data@, pos as int, count as nat, Seq::empty());
            match r {
                Some((names, next)) => {
                    &&& t.0 == Some(next as int)
                    &&& names@.len() == t.1.len()
                    &&& forall|i: int| 0 <= i < names@.len() ==> #[trigger] names@[i]@ == t.1[i]
                    &&& next <= data@.len()
                },
                None => t.0 is None,
            }
        }),
{
    let ghost full = type_names(data@, pos as int, count as nat, Seq::empty());
    let mut names: Vec<Vec<u8>> = Vec::new();
    let ghost mut acc: Seq<Seq<u8>> = Seq::empty();
    let mut p = pos;
    let mut k: u64 = 0;
    while k < count
        invariant
            0 <= k <= count,
            p <= data@.len(),
            names@.len() == acc.len(),
            forall|i: int| 0 <= i < names@.len() ==> #[trigger] names@[i]@ == acc[i],
            type_names(data@, p as int, (count - k) as nat, acc) == full,
            full == type_names(data@, pos as int, count as nat, Seq::empty()),
        decreases count - k,
    {
        match read_cstr(data, p) {
            None => {
                assert(full.0 is None);
                return None;
            },
            Some((nm, next)) => {
                proof {
                    acc = acc.push(nm@);
                }
                names.push(nm);
                p = next;
            },
        }
        k = k + 1;
    }
    assert(full == (Some(p as int), acc));
    Some((names, p))
}

/// Reads the feature section at `ptr` (see [`feature_section`]).
fn read_feature_section(data: &[u8], ptr: i32) -> (r: Vec<SmfFeaturePlacement>)
    ensures
        features_view(r@) == feature_section(data@, ptr as int),
{
    let dlen = data.len();
    let len = dlen as u64;
    let mut features: Vec<SmfFeaturePlacement> = Vec::new();
    if ptr <= 0 || (ptr as u64) + 8 > len {
        assert(features_view(features@) =~= Seq::<FeatureView>::empty());
        return features;
    }
    let p = ptr as u64;
    let nt_raw = read_i32_le(data, p as usize);
    let nr_raw = read_i32_le(data, (p + 4) as usize);
    let nt: u64 = if nt_raw < 0 {
        0
    } else {
        nt_raw as u64
    };
    let nr: u64 = if nr_raw < 0 {
        0
    } else {
        nr_raw as u64
    };
    let ghost t = type_names(data@, ptr + 8, nt as nat, Seq::empty());
    let (names, pos) = match read_type_names(data, p + 8, nt) {
        None => {
            assert(features_view(features@) =~= Seq::<FeatureView>::empty());
            return features;
        },
        Some(x) => x,
    };
    let avail = (len - pos) / 24;
    let n = if nr < avail {
        nr
    } else {
        avail
    };
    let ghost expected = Seq::new(n as nat, |i: int| feature_at(data@, pos + 24 * i, t.1));
    let mut i: u64 = 0;
    while i < n
        invariant
            0 <= i <= n,
            n <= (len - pos) / 24,
            pos <= len,
            len == data@.len(),
            dlen == data@.len(),
            names@.len() == t.1.len(),
            forall|j: int| 0 <= j < names@.len() ==> #[trigger] names@[j]@ == t.1[j],
            expected == Seq::new(n as nat, |j: int| feature_at(data@, pos + 24 * j, t.1)),
            features@.len() == i,
            features_view(features@) =~= expected.subrange(0, i as int),
        decreases n - i,
    {
        let off = pos + 24 * i;
        let ti_raw = read_i32_le(data, off as usize);
        let ti: u64 = if ti_raw < 0 {
            0
        } else {
            ti_raw as u64
        };
        let feature_type: Vec<u8> = if ti < names.len() as u64 {
            slice_to_vec(names[ti as usize].as_slice())
        } else {
            Vec::new()
        };
        let f = SmfFeaturePlacement {
            feature_type,
            x: read_u32_le(data, (off + 4) as usize),
            y: read_u32_le(data, (off + 8) as usize),
            z: read_u32_le(data, (off + 12) as usize),
            angle: read_u32_le(data, (off + 16) as usize),
            taken_damage: read_i16_le(data, (off + 20) as usize),
        };
        assert(f@ == feature_at(data@, pos + 24 * i, t.1));
        let ghost before = features@;
        features.push(f);
        assert forall|j: int| 0 <= j <= i implies #[trigger] features_view(features@)[j] == expected[j] by {
            if j < i {
                assert(features@[j] == before[j]);
                assert(features_view(before)[j] == expected.subrange(0, i as int)[j]);
            }
        }
        assert(features_view(features@) =~= expected.subrange(0, (i + 1) as int));
        i = i + 1;
    }
    assert(features_view(features@) =~= feature_section(data@, ptr as int));
    features
}

/// Reads an 8-bit map section (see [`byte_section`]).
fn read_byte_section(data: &[u8], ptr: i32, n: u64) -> (r: Vec<u8>)
    requires
        byte_section_ok(data@, ptr as int, n as int),
    ensures
        r@ == byte_section(data@, ptr as int, n as int),
{
    let dlen = data.len();
    if ptr > 0 && n > 0 {
        assert(ptr + n <= dlen);
        let start = ptr as usize;
        let end = start + n as usize;
        slice_to_vec(slice_subrange(data, start, end))
    } else {
        let mut v: Vec<u8> = Vec::new();
        let mut i: u64 = 0;
        while i < n
            invariant
                0 <= i <= n,
                v@ == Seq::new(i as nat, |j: int| 0u8),
            decreases n - i,
        {
            v.push(0);
            assert(v@ =~= Seq::new((i + 1) as nat, |j: int| 0u8));
            i = i + 1;
        }
        v
    }
}

/// Reads the heightmap samples (see [`read_u16s`]).
fn read_heightmap(data: &[u8], pos: u64, n: u64) -> (r: Vec<u16>)
    requires
        n == 0 || pos + 2 * n <= data@.len(),
    ensures
        r@ == read_u16s(data@, pos as int, n as int),
{
    let mut v: Vec<u16> = Vec::new();
    if n == 0 {
        assert(v@ =~= read_u16s(data@, pos as int, n as int));
        return v;
    }
    let dlen = data.len();
    let mut i: u64 = 0;
    while i < n
        invariant
            0 <= i <= n,
            dlen == data@.len(),
            pos + 2 * n <= data@.len(),
            v@ == read_u16s(data@, pos as int, n as int).subrange(0, i as int),
        decreases n - i,
    {
        let off: u64 = pos + 2 * i;
        let s = read_u16_le(data, off as usize);
        assert(s == read_u16s(data@, pos as int, n as int)[i as int]);
        v.push(s);
        assert(v@ =~= read_u16s(data@, pos as int, n as int).subrange(0, (i + 1) as int));
        i = i + 1;
    }
    assert(v@ =~= read_u16s(data@, pos as int, n as int));
    v
}

impl SmfMap {
    /// Read a map from the bytes of an SMF file.
    ///
    /// The header, heightmap, metalmap and typemap must be readable; the tile
    /// and feature sections are optional, and data missing part-way through
    /// them leaves what was read before it.  The minimap is not read.
    pub fn read(data: &[u8]) -> (r: Result<SmfMap, Sd7Error>)
        ensures
            match r {
                Ok(m) => smf_read_spec(data@) == Ok::<SmfMapView, Sd7Error>(m@),
                Err(e) => smf_read_spec(data@) == Err::<SmfMapView, Sd7Error>(e),
            },
    {
        let header = match SmfHeader::read(data) {
            Ok(h) => h,
            Err(e) => {
                return Err(e);
            },
        };
        let dlen = data.len();
        let len = dlen as u64;
        let (hm_w, hm_h) = header.heightmap_size();
        let (mm_w, mm_h) = header.metalmap_size();
        assert((hm_w as u64) * (hm_h as u64) <= u64::MAX) by (nonlinear_arith)
            requires
                hm_w <= u32::MAX,
                hm_h <= u32::MAX,
        ;
        let hm: u64 = hm_w as u64 * hm_h as u64;
        if hm > usize::MAX as u64 {
            return Err(Sd7Error::InvalidDimensions { width: hm_w, height: hm_h });
        }
        let hp: u64 = if header.heightmap_ptr < 0 {
            u64::MAX - ((-(header.heightmap_ptr as i64) - 1) as u64)
        } else {
            header.heightmap_ptr as u64
        };
        assert(hp == seek_pos(header.heightmap_ptr as int));
        if hm != 0 && (hp > len || (len - hp) / 2 < hm) {
            return Err(Sd7Error::UnexpectedEof);
        }
        let heightmap = read_heightmap(data, hp, hm);
        assert((mm_w as u64) * (mm_h as u64) <= u64::MAX) by (nonlinear_arith)
            requires
                mm_w <= u32::MAX,
                mm_h <= u32::MAX,
        ;
        let mm: u64 = mm_w as u64 * mm_h as u64;
        if mm > usize::MAX as u64 {
            return Err(Sd7Error::InvalidDimensions { width: mm_w, height: mm_h });
        }
        if !(header.metalmap_ptr <= 0 || mm == 0 || (mm <= len && header.metalmap_ptr as u64 <= len - mm)) {
            return Err(Sd7Error::UnexpectedEof);
        }
        let metalmap = read_byte_section(data, header.metalmap_ptr, mm);
        if !(header.typemap_ptr <= 0 || mm == 0 || (mm <= len && header.typemap_ptr as u64 <= len - mm)) {
            return Err(Sd7Error::UnexpectedEof);
        }
        let typemap = read_byte_section(data, header.typemap_ptr, mm);
        let (smt_filename, tile_indices) = read_tile_section(data, header.tilesmap_ptr);
        let features = read_feature_section(data, header.featuremap_ptr);
        let m = SmfMap {
            header,
            heightmap,
            metalmap,
            typemap,
            smt_filename,
            tile_indices,
            minimap_dxt1: Vec::new(),
            features,
        };
        assert(m@.minimap_dxt1 =~= Seq::<u8>::empty());
        Ok(m)
    }
}

/// `n` zero values.
pub open spec fn zeros<T>(n: int, z: T) -> Seq<T> {
    Seq::new(n as nat, |i: int| z)
}

/// The result of creating a new, empty map of `map_x × map_y` spring units.
pub open spec fn smf_new_spec(map_x: i32, map_y: i32) -> Result<SmfMapView, Sd7Error> {
    let h = default_header(map_x, map_y);
    let (hm_w, hm_h) = h.heightmap_size_spec();
    let (mm_w, mm_h) = h.metalmap_size_spec();
    if hm_w == 0 || hm_h == 0 {
        Err(Sd7Error::Heightmap(HeightmapError::InvalidDimensions { width: hm_w, height: hm_h }))
    } else {
        Ok(
            SmfMapView {
                header: h,
                heightmap: zeros(hm_w * hm_h, 0u16),
                metalmap: zeros(mm_w * mm_h, 0u8),
                typemap: zeros(mm_w * mm_h, 0u8),
                smt_filename: Seq::empty(),
                tile_indices: Seq::empty(),
                minimap_dxt1: Seq::empty(),
                features: Seq::empty(),
            },
        )
    }
}

fn zero_u16s(n: u64) -> (v: Vec<u16>)
    ensures
        v@ == zeros(n as int, 0u16),
{
    let mut v: Vec<u16> = Vec::new();
    let mut i: u64 = 0;
    while i < n
        invariant
            0 <= i <= n,
            v@ == zeros(i as int, 0u16),
        decreases n - i,
    {
        v.push(0);
        assert(v@ =~= zeros((i + 1) as int, 0u16));
        i = i + 1;
    }
    v
}

fn zero_u8s(n: u64) -> (v: Vec<u8>)
    ensures
        v@ == zeros(n as int, 0u8),
{
    let mut v: Vec<u8> = Vec::new();
    let mut i: u64 = 0;
    while i < n
        invariant
            0 <= i <= n,
            v@ == zeros(i as int, 0u8),
        decreases n - i,
    {
        v.push(0);
        assert(v@ =~= zeros((i + 1) as int, 0u8));
        i = i + 1;
    }
    v
}

impl SmfMap {
    /// Create a new empty map with given dimensions (in spring units).
    /// Spring units: map_x=2 means 2*512=1024 world units wide.
    ///
    /// Fails when the heightmap, `(map_x + 1) × (map_y + 1)`, would be empty.
    pub fn new(map_x: i32, map_y: i32) -> (r: Result<SmfMap, Sd7Error>)
        ensures
            match r {
                Ok(m) => smf_new_spec(map_x, map_y) == Ok::<SmfMapView, Sd7Error>(m@),
                Err(e) => smf_new_spec(map_x, map_y) == Err::<SmfMapView, Sd7Error>(e),
            },
    {
        let header = SmfHeader::new(map_x, map_y);
        let (hm_w, hm_h) = header.heightmap_size();
        let (mm_w, mm_h) = header.metalmap_size();
        if hm_w == 0 || hm_h == 0 {
            return Err(Sd7Error::Heightmap(HeightmapError::InvalidDimensions { width: hm_w, height: hm_h }));
        }
        assert((hm_w as u64) * (hm_h as u64) <= u64::MAX) by (nonlinear_arith)
            requires
                hm_w <= u32::MAX,
                hm_h <= u32::MAX,
        ;
        assert((mm_w as u64) * (mm_h as u64) <= u64::MAX) by (nonlinear_arith)
            requires
                mm_w <= u32::MAX,
                mm_h <= u32::MAX,
        ;
        let heightmap = zero_u16s(hm_w as u64 * hm_h as u64);
        let metalmap = zero_u8s(mm_w as u64 * mm_h as u64);
        let typemap = zero_u8s(mm_w as u64 * mm_h as u64);
        let m = SmfMap {
            header,
            heightmap,
            metalmap,
            typemap,
            smt_filename: Vec::new(),
            tile_indices: Vec::new(),
            minimap_dxt1: Vec::new(),
            features: Vec::new(),
        };
        assert(m@.smt_filename =~= Seq::<u8>::empty());
        assert(m@.tile_indices =~= Seq::<i32>::empty());
        assert(m@.minimap_dxt1 =~= Seq::<u8>::empty());
        assert(m@.features =~= Seq::<FeatureView>::empty());
        Ok(m)
    }
}

// -- Header round trip ---------------------------------------------------------------

proof fn lemma_header_word_at(h: SmfHeader, d: Seq<u8>, j: int)
    requires
        0 <= j < 16,
        d.len() >= 80,
        forall|k: int| 0 <= k < 64 ==> #[trigger] d[16 + k] == header_body_byte(h, k),
    ensures
        le_u32_at(d, 16 + 4 * j) == header_word(h, j),
{
    let w = header_word(h, j);
    assert(0 <= w < 0x1_0000_0000);
    assert forall|t: int| 0 <= t < 4 implies #[trigger] d.subrange(16 + 4 * j, 20 + 4 * j)[t] == u32_le_bytes(
        w,
    )[t] by {
        assert(d[16 + (4 * j + t)] == header_body_byte(h, 4 * j + t));
        assert((4 * j + t) / 4 == j);
        assert((4 * j + t) % 4 == t);
    }
    assert(d.subrange(16 + 4 * j, 20 + 4 * j) =~= u32_le_bytes(w));
    crate::le::lemma_u32_le_roundtrip(w, d, 16 + 4 * j);
}

/// Reading a header back from bytes that start with its written form gives
/// the header, when its version is the supported one.
pub proof fn lemma_header_write_read_roundtrip(h: SmfHeader, d: Seq<u8>)
    requires
        h.version == SMF_VERSION,
        d.len() >= 80,
        d.subrange(0, 80) == header_bytes(h),
    ensures
        header_read_spec(d) == Ok::<SmfHeader, Sd7Error>(h),
{
    assert forall|k: int| 0 <= k < 64 implies #[trigger] d[16 + k] == header_body_byte(h, k) by {
        assert(d[16 + k] == d.subrange(0, 80)[16 + k]);
    }
    assert(d.subrange(0, 16) =~= smf_magic()) by {
        assert forall|k: int| 0 <= k < 16 implies d.subrange(0, 16)[k] == smf_magic()[k] by {
            assert(d[k] == d.subrange(0, 80)[k]);
        }
    }
    assert(le_i32_at(d, 16) == h.version) by {
        lemma_header_word_at(h, d, 0);
    }
    assert(le_i32_at(d, 20) == h.map_id) by {
        lemma_header_word_at(h, d, 1);
    }
    assert(le_i32_at(d, 24) == h.map_x) by {
        lemma_header_word_at(h, d, 2);
    }
    assert(le_i32_at(d, 28) == h.map_y) by {
        lemma_header_word_at(h, d, 3);
    }
    assert(le_i32_at(d, 32) == h.square_size) by {
        lemma_header_word_at(h, d, 4);
    }
    assert(le_i32_at(d, 36) == h.texels_per_square) by {
        lemma_header_word_at(h, d, 5);
    }
    assert(le_i32_at(d, 40) == h.tile_size) by {
        lemma_header_word_at(h, d, 6);
    }
    assert(le_u32_at(d, 44) == h.min_height_bits) by {
        lemma_header_word_at(h, d, 7);
    }
    assert(le_u32_at(d, 48) == h.max_height_bits) by {
        lemma_header_word_at(h, d, 8);
    }
    assert(le_i32_at(d, 52) == h.heightmap_ptr) by {
        lemma_header_word_at(h, d, 9);
    }
    assert(le_i32_at(d, 56) == h.typemap_ptr) by {
        lemma_header_word_at(h, d, 10);
    }
    assert(le_i32_at(d, 60) == h.tilesmap_ptr) by {
        lemma_header_word_at(h, d, 11);
    }
    assert(le_i32_at(d, 64) == h.minimap_ptr) by {
        lemma_header_word_at(h, d, 12);
    }
    assert(le_i32_at(d, 68) == h.metalmap_ptr) by {
        lemma_header_word_at(h, d, 13);
    }
    assert(le_i32_at(d, 72) == h.featuremap_ptr) by {
        lemma_header_word_at(h, d, 14);
    }
    assert(le_i32_at(d, 76) == h.num_extra_headers) by {
        lemma_header_word_at(h, d, 15);
    }
    assert(header_at(d) == h);
}

/// The header's fields sit at their fixed SMF offsets, in file order after
/// the 16 magic bytes: version at 16, map id at 20, `map_x` at 24, `map_y`
/// at 28, square size 32, texels per square 36, tile size 40, minimum and
/// maximum height 44 and 48, then the heightmap, typemap, tile map, minimap,
/// metalmap and feature pointers at 52..72 and the extra-header count at 76.
/// A header read from `d` takes each field from its offset in `d`, and the
/// written form of `h` holds each field of `h` at its offset.
pub proof fn lemma_header_field_offsets(d: Seq<u8>, h: SmfHeader)
    ensures
        header_read_spec(d) matches Ok(r) ==> ({ r.version == le_i32_at(d, 16) && r.map_id == le_i32_at(d, 20) && r.map_x == le_i32_at(d, 24) && r.map_y == le_i32_at(d, 28) && r.square_size == le_i32_at(d, 32) && r.texels_per_square == le_i32_at(d, 36) && r.tile_size == le_i32_at(d, 40) && r.min_height_bits == le_u32_at(d, 44) && r.max_height_bits == le_u32_at(d, 48) && r.heightmap_ptr == le_i32_at(d, 52) && r.typemap_ptr == le_i32_at(d, 56) && r.tilesmap_ptr == le_i32_at(d, 60) && r.minimap_ptr == le_i32_at(d, 64) && r.metalmap_ptr == le_i32_at(d, 68) && r.featuremap_ptr == le_i32_at(d, 72) && r.num_extra_headers == le_i32_at(d, 76) }),
        header_bytes(h).len() == 80,
        header_bytes(h).subrange(0, 16) == smf_magic(),
        h.version == le_i32_at(header_bytes(h), 16),
        h.map_id == le_i32_at(header_bytes(h), 20),
        h.map_x == le_i32_at(header_bytes(h), 24),
        h.map_y == le_i32_at(header_bytes(h), 28),
        h.square_size == le_i32_at(header_bytes(h), 32),
        h.texels_per_square == le_i32_at(header_bytes(h), 36),
        h.tile_size == le_i32_at(header_bytes(h), 40),
        h.min_height_bits == le_u32_at(header_bytes(h), 44),
        h.max_height_bits == le_u32_at(header_bytes(h), 48),
        h.heightmap_ptr == le_i32_at(header_bytes(h), 52),
        h.typemap_ptr == le_i32_at(header_bytes(h), 56),
        h.tilesmap_ptr == le_i32_at(header_bytes(h), 60),
        h.minimap_ptr == le_i32_at(header_bytes(h), 64),
        h.metalmap_ptr == le_i32_at(header_bytes(h), 68),
        h.featuremap_ptr == le_i32_at(header_bytes(h), 72),
        h.num_extra_headers == le_i32_at(header_bytes(h), 76),
{
    let w = header_bytes(h);
    assert(w.len() == 80);
    assert forall|k: int| 0 <= k < 64 implies #[trigger] w[16 + k] == header_body_byte(h, k) by {}
    assert(w.subrange(0, 16) =~= smf_magic());
    assert(h.version == le_i32_at(w, 16)) by {
        lemma_header_word_at(h, w, 0);
    }
    assert(h.map_id == le_i32_at(w, 20)) by {
        lemma_header_word_at(h, w, 1);
    }
    assert(h.map_x == le_i32_at(w, 24)) by {
        lemma_header_word_at(h, w, 2);
    }
    assert(h.map_y == le_i32_at(w, 28)) by {
        lemma_header_word_at(h, w, 3);
    }
    assert(h.square_size == le_i32_at(w, 32)) by {
        lemma_header_word_at(h, w, 4);
    }
    assert(h.texels_per_square == le_i32_at(w, 36)) by {
        lemma_header_word_at(h, w, 5);
    }
    assert(h.tile_size == le_i32_at(w, 40)) by {
        lemma_header_word_at(h, w, 6);
    }
    assert(h.min_height_bits == le_u32_at(w, 44)) by {
        lemma_header_word_at(h, w, 7);
    }
    assert(h.max_height_bits == le_u32_at(w, 48)) by {
        lemma_header_word_at(h, w, 8);
    }
    assert(h.heightmap_ptr == le_i32_at(w, 52)) by {
        lemma_header_word_at(h, w, 9);
    }
    assert(h.typemap_ptr == le_i32_at(w, 56)) by {
        lemma_header_word_at(h, w, 10);
    }
    assert(h.tilesmap_ptr == le_i32_at(w, 60)) by {
        lemma_header_word_at(h, w, 11);
    }
    assert(h.minimap_ptr == le_i32_at(w, 64)) by {
        lemma_header_word_at(h, w, 12);
    }
    assert(h.metalmap_ptr == le_i32_at(w, 68)) by {
        lemma_header_word_at(h, w, 13);
    }
    assert(h.featuremap_ptr == le_i32_at(w, 72)) by {
        lemma_header_word_at(h, w, 14);
    }
    assert(h.num_extra_headers == le_i32_at(w, 76)) by {
        lemma_header_word_at(h, w, 15);
    }
}

/// Reading succeeds with the sections at the header's offsets when the
/// header reads, every section fits, and the section sizes fit in memory.
pub proof fn lemma_smf_read_ok(d: Seq<u8>, h: SmfHeader)
    requires
        header_read_spec(d) == Ok::<SmfHeader, Sd7Error>(h),
        h.heightmap_size_spec().0 as int * h.heightmap_size_spec().1 as int <= i32::MAX,
        h.metalmap_size_spec().0 as int * h.metalmap_size_spec().1 as int <= i32::MAX,
        ({
            let hm = h.heightmap_size_spec().0 as int * h.heightmap_size_spec().1 as int;
            hm == 0 || seek_pos(h.heightmap_ptr as int) + 2 * hm <= d.len()
        }),
        byte_section_ok(d, h.metalmap_ptr as int, h.metalmap_size_spec().0 as int * h.metalmap_size_spec().1 as int),
        byte_section_ok(d, h.typemap_ptr as int, h.metalmap_size_spec().0 as int * h.metalmap_size_spec().1 as int),
    ensures
        ({
            let hm = h.heightmap_size_spec().0 as int * h.heightmap_size_spec().1 as int;
            let mm = h.metalmap_size_spec().0 as int * h.metalmap_size_spec().1 as int;
            let tiles = tile_section(d, h.tilesmap_ptr as int);
            smf_read_spec(d) == Ok::<SmfMapView, Sd7Error>(
                SmfMapView {
                    header: h,
                    heightmap: read_u16s(d, seek_pos(h.heightmap_ptr as int), hm),
                    metalmap: byte_section(d, h.metalmap_ptr as int, mm),
                    typemap: byte_section(d, h.typemap_ptr as int, mm),
                    smt_filename: tiles.0,
                    tile_indices: tiles.1,
                    minimap_dxt1: Seq::empty(),
                    features: feature_section(d, h.featuremap_ptr as int),
                },
            )
        }),
{
}

} // verus!
