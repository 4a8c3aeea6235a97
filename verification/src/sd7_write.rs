//! Writing SMF files: the byte layout a map is written as, and the writer.
//!
//! Sections are written back to back in this order: header, heightmap,
//! typemap, tile section, minimap, metalmap, feature section.  Feature type
//! names are deduplicated in order of first use and stored NUL-terminated.

use vstd::prelude::*;

use crate::le::{i16_le_bytes, i32_le_bytes, push_i16_le, push_i32_le, push_u16_le, push_u32_le, u16_le_bytes, u32_le_bytes};
use crate::le::{lemma_i16_le_roundtrip, lemma_i32_le_roundtrip, lemma_u16_le_roundtrip, lemma_u32_le_roundtrip, le_i16_at, le_i32_at, le_u16_at, le_u32_at};
use crate::sd7::{
    byte_section, byte_section_ok, header_read_spec, lemma_header_write_read_roundtrip, read_u16s, seek_pos, smf_read_spec,
    Sd7Error, SMF_VERSION, cstr_at, feature_at, feature_section, header_bytes, nonneg, nul_from, read_i32s, tile_files, tile_section, trunc_quot,
    type_names, FeatureView, SmfFeaturePlacement, SmfHeader, SmfMap, SmfMapView, SMF_MINIMAP_SIZE,
};

verus! {

/// The bytes of `"maps/unknown.smt"`, the SMT name written when a map has none.
pub open spec fn default_smt_name() -> Seq<u8> {
    seq![109u8, 97, 112, 115, 47, 117, 110, 107, 110, 111, 119, 110, 46, 115, 109, 116]
}

/// The SMT file name written into the tile section.
pub open spec fn smt_name_spec(name: Seq<u8>) -> Seq<u8> {
    if name.len() == 0 {
        default_smt_name()
    } else {
        name
    }
}

/// Map squares per tile, as the writer computes it: `tile_size / square_size`
/// (truncating), read as unsigned.
pub open spec fn write_tile_res(h: SmfHeader) -> u32 {
    trunc_quot(h.tile_size as int, h.square_size as int) as i32 as u32
}

/// Number of tiles the writer records: `(map_x / res) × (map_y / res)`.
pub open spec fn write_tile_count(h: SmfHeader) -> int {
    ((h.map_x as u32) / write_tile_res(h)) as int * ((h.map_y as u32) / write_tile_res(h)) as int
}

/// Whether the writer can lay a map with header `h` and an SMT name of
/// `name_len` bytes out: the tile resolution is a non-zero quotient, the
/// tile count fits in 32 bits, and every section offset fits in an `i32`.
pub open spec fn smf_writable(h: SmfHeader, name_len: int) -> bool {
    &&& h.square_size != 0
    &&& !(h.tile_size == i32::MIN && h.square_size == -1)
    &&& write_tile_res(h) != 0
    &&& write_tile_count(h) <= u32::MAX
    &&& featuremap_offset(h, name_len) <= i32::MAX
}

/// Heightmap sample count of header `h`.
pub open spec fn hm_count(h: SmfHeader) -> int {
    h.heightmap_size_spec().0 as int * h.heightmap_size_spec().1 as int
}

/// Metalmap (and typemap) byte count of header `h`.
pub open spec fn mm_count(h: SmfHeader) -> int {
    h.metalmap_size_spec().0 as int * h.metalmap_size_spec().1 as int
}

pub open spec fn typemap_offset(h: SmfHeader) -> int {
    80 + 2 * hm_count(h)
}

pub open spec fn tilesmap_offset(h: SmfHeader) -> int {
    typemap_offset(h) + mm_count(h)
}

/// Size of the tile section: two counts, one file entry (count and
/// NUL-terminated name), then one index per tile.
pub open spec fn tilesmap_len(h: SmfHeader, name_len: int) -> int {
    12 + name_len + 1 + 4 * write_tile_count(h)
}

pub open spec fn minimap_offset(h: SmfHeader, name_len: int) -> int {
    tilesmap_offset(h) + tilesmap_len(h, name_len)
}

pub open spec fn metalmap_offset(h: SmfHeader, name_len: int) -> int {
    minimap_offset(h, name_len) + SMF_MINIMAP_SIZE
}

pub open spec fn featuremap_offset(h: SmfHeader, name_len: int) -> int {
    metalmap_offset(h, name_len) + mm_count(h)
}

/// The header as written: `h` with the section offsets of the layout.
pub open spec fn written_header(h: SmfHeader, name_len: int) -> SmfHeader {
    SmfHeader {
        heightmap_ptr: 80,
        typemap_ptr: typemap_offset(h) as i32,
        tilesmap_ptr: tilesmap_offset(h) as i32,
        minimap_ptr: minimap_offset(h, name_len) as i32,
        metalmap_ptr: metalmap_offset(h, name_len) as i32,
        featuremap_ptr: featuremap_offset(h, name_len) as i32,
        ..h
    }
}

/// Little-endian bytes of a run of 16-bit samples.
pub open spec fn u16s_bytes(s: Seq<u16>) -> Seq<u8> {
    Seq::new(2 * s.len(), |k: int| u16_le_bytes(s[k / 2] as int)[k % 2])
}

/// Little-endian bytes of the tile indices `0, 1, ..., n - 1`.
pub open spec fn sequential_indices_bytes(n: int) -> Seq<u8> {
    Seq::new((4 * n) as nat, |k: int| i32_le_bytes(k / 4)[k % 4])
}

/// One DXT1 block of solid dark green (RGB565 `0x03E0` for both colours).
pub open spec fn placeholder_block() -> Seq<u8> {
    seq![0xE0u8, 0x03, 0xE0, 0x03, 0, 0, 0, 0]
}

/// The minimap section: the map's own minimap when it has the full size,
/// else a solid placeholder of the same size.
pub open spec fn minimap_bytes(mini: Seq<u8>) -> Seq<u8> {
    if mini.len() == SMF_MINIMAP_SIZE {
        mini
    } else {
        Seq::new(SMF_MINIMAP_SIZE as nat, |k: int| placeholder_block()[k % 8])
    }
}

/// The distinct feature type names of `fs`, in order of first use.
pub open spec fn dedup_names(fs: Seq<FeatureView>) -> Seq<Seq<u8>>
    decreases fs.len(),
{
    if fs.len() == 0 {
        Seq::empty()
    } else {
        let prev = dedup_names(fs.drop_last());
        if prev.contains(fs.last().feature_type) {
            prev
        } else {
            prev.push(fs.last().feature_type)
        }
    }
}

/// Position of the first occurrence of `n` in `names` (`names.len()` if absent).
pub open spec fn name_index(names: Seq<Seq<u8>>, n: Seq<u8>) -> int
    decreases names.len(),
{
    if names.len() == 0 {
        0
    } else if names[0] == n {
        0
    } else {
        1 + name_index(names.drop_first(), n)
    }
}

/// A type name as stored: its first 255 bytes at most, then a NUL.
pub open spec fn name_entry(n: Seq<u8>) -> Seq<u8> {
    n.subrange(0, if n.len() < 255 {
        n.len() as int
    } else {
        255
    }).push(0)
}

/// The type-name table: each name's entry, in order.
pub open spec fn name_table(names: Seq<Seq<u8>>) -> Seq<u8>
    decreases names.len(),
{
    if names.len() == 0 {
        Seq::empty()
    } else {
        name_entry(names[0]) + name_table(names.drop_first())
    }
}

/// The 24-byte record of a placement whose type is entry `idx` of the table.
pub open spec fn feature_record(f: FeatureView, idx: int) -> Seq<u8> {
    i32_le_bytes(idx) + u32_le_bytes(f.x as int) + u32_le_bytes(f.y as int) + u32_le_bytes(f.z as int)
        + u32_le_bytes(f.angle as int) + i16_le_bytes(f.taken_damage as int) + i16_le_bytes(0)
}

/// The records of all placements, each resolved against `names`.
pub open spec fn feature_records(fs: Seq<FeatureView>, names: Seq<Seq<u8>>) -> Seq<u8> {
    Seq::new(
        24 * fs.len(),
        |k: int| feature_record(fs[k / 24], name_index(names, fs[k / 24].feature_type) as i32 as int)[k % 24],
    )
}

/// The feature section: type count, record count, name table, records.
pub open spec fn feature_section_bytes(fs: Seq<FeatureView>) -> Seq<u8> {
    let names = dedup_names(fs);
    i32_le_bytes(names.len() as i32 as int) + i32_le_bytes(fs.len() as i32 as int) + name_table(names)
        + feature_records(fs, names)
}

/// The tile section: one SMT file holding `n` tiles, then the indices `0..n`.
pub open spec fn tile_section_bytes(name: Seq<u8>, n: int) -> Seq<u8> {
    i32_le_bytes(1) + i32_le_bytes(n) + i32_le_bytes(n) + name.push(0) + sequential_indices_bytes(n)
}

/// The bytes an SMF map is written as.
#[verifier::opaque]
pub open spec fn smf_write_spec(m: SmfMapView) -> Seq<u8> {
    let name = smt_name_spec(m.smt_filename);
    let h = written_header(m.header, name.len() as int);
    header_bytes(h) + u16s_bytes(m.heightmap) + m.typemap + tile_section_bytes(
        name,
        write_tile_count(m.header),
    ) + minimap_bytes(m.minimap_dxt1) + m.metalmap + feature_section_bytes(m.features)
}

/// The byte strings held by a vector of byte vectors.
pub open spec fn names_view(v: Seq<Vec<u8>>) -> Seq<Seq<u8>> {
    Seq::new(v.len(), |i: int| v[i]@)
}

/// `name_index` finds `n` exactly when `names` contains it.
pub proof fn lemma_name_index(names: Seq<Seq<u8>>, n: Seq<u8>)
    ensures
        0 <= name_index(names, n) <= names.len(),
        (name_index(names, n) < names.len()) == names.contains(n),
        name_index(names, n) < names.len() ==> names[name_index(names, n)] == n,
    decreases names.len(),
{
    if names.len() > 0 && names[0] != n {
        lemma_name_index(names.drop_first(), n);
        if names.contains(n) {
            let i = choose|i: int| 0 <= i < names.len() && names[i] == n;
            assert(names.drop_first()[i - 1] == n);
        }
        if names.drop_first().contains(n) {
            let i = choose|i: int| 0 <= i < names.drop_first().len() && names.drop_first()[i] == n;
            assert(names[i + 1] == n);
        }
    } else if names.len() > 0 {
        assert(names[0] == n);
    }
}

/// Appending a name appends its entry to the table.
pub proof fn lemma_name_table_push(names: Seq<Seq<u8>>, n: Seq<u8>)
    ensures
        name_table(names.push(n)) == name_table(names) + name_entry(n),
    decreases names.len(),
{
    if names.len() == 0 {
        assert(names.push(n).drop_first() =~= Seq::<Seq<u8>>::empty());
        assert(name_table(names.push(n)) =~= name_entry(n) + name_table(Seq::<Seq<u8>>::empty()));
    } else {
        lemma_name_table_push(names.drop_first(), n);
        assert(names.push(n).drop_first() =~= names.drop_first().push(n));
        assert(name_table(names.push(n)) =~= name_entry(names[0]) + (name_table(names.drop_first()) + name_entry(n)));
    }
}

fn push_bytes(out: &mut Vec<u8>, s: &[u8])
    ensures
        final(out)@ == old(out)@ + s@,
{
    let mut i: usize = 0;
    while i < s.len()
        invariant
            0 <= i <= s@.len(),
            out@ == old(out)@ + s@.subrange(0, i as int),
        decreases s@.len() - i,
    {
        out.push(s[i]);
        assert(s@.subrange(0, (i + 1) as int) =~= s@.subrange(0, i as int).push(s@[i as int]));
        i = i + 1;
    }
    assert(s@.subrange(0, s@.len() as int) =~= s@);
}

fn bytes_eq(a: &[u8], b: &[u8]) -> (r: bool)
    ensures
        r == (a@ == b@),
{
    if a.len() != b.len() {
        return false;
    }
    let mut i: usize = 0;
    while i < a.len()
        invariant
            0 <= i <= a@.len(),
            a@.len() == b@.len(),
            forall|j: int| 0 <= j < i ==> a@[j] == b@[j],
        decreases a@.len() - i,
    {
        if a[i] != b[i] {
            return false;
        }
        i = i + 1;
    }
    assert(a@ =~= b@);
    true
}

fn push_u16s(out: &mut Vec<u8>, s: &[u16])
    ensures
        final(out)@ == old(out)@ + u16s_bytes(s@),
{
    let mut i: usize = 0;
    while i < s.len()
        invariant
            0 <= i <= s@.len(),
            out@ == old(out)@ + u16s_bytes(s@.subrange(0, i as int)),
        decreases s@.len() - i,
    {
        let ghost before = out@;
        push_u16_le(out, s[i]);
        assert(u16s_bytes(s@.subrange(0, (i + 1) as int)) =~= u16s_bytes(s@.subrange(0, i as int))
            + u16_le_bytes(s@[i as int] as int));
        i = i + 1;
    }
    assert(s@.subrange(0, s@.len() as int) =~= s@);
}

fn push_sequential_indices(out: &mut Vec<u8>, n: u32)
    requires
        n <= i32::MAX,
    ensures
        final(out)@ == old(out)@ + sequential_indices_bytes(n as int),
{
    let mut i: u32 = 0;
    while i < n
        invariant
            0 <= i <= n,
            n <= i32::MAX,
            out@ == old(out)@ + sequential_indices_bytes(i as int),
        decreases n - i,
    {
        push_i32_le(out, i as i32);
        assert forall|k: int| 4 * i <= k < 4 * i + 4 implies #[trigger] sequential_indices_bytes(
            (i + 1) as int,
        )[k] == i32_le_bytes(i as int)[k - 4 * i] by {
            assert(k / 4 == i);
        }
        assert(sequential_indices_bytes((i + 1) as int) =~= sequential_indices_bytes(i as int)
            + i32_le_bytes(i as int));
        i = i + 1;
    }
}

fn push_minimap(out: &mut Vec<u8>, mini: &[u8])
    ensures
        final(out)@ == old(out)@ + minimap_bytes(mini@),
{
    if mini.len() == SMF_MINIMAP_SIZE {
        push_bytes(out, mini);
    } else {
        let block: [u8; 8] = [0xE0, 0x03, 0xE0, 0x03, 0, 0, 0, 0];
        let ghost full = minimap_bytes(mini@);
        let mut k: usize = 0;
        while k < SMF_MINIMAP_SIZE
            invariant
                0 <= k <= SMF_MINIMAP_SIZE,
                block@ == placeholder_block(),
                full == Seq::new(SMF_MINIMAP_SIZE as nat, |j: int| placeholder_block()[j % 8]),
                out@ == old(out)@ + full.subrange(0, k as int),
            decreases SMF_MINIMAP_SIZE - k,
        {
            out.push(block[k % 8]);
            assert(full.subrange(0, (k + 1) as int) =~= full.subrange(0, k as int).push(full[k as int]));
            k = k + 1;
        }
        assert(full.subrange(0, SMF_MINIMAP_SIZE as int) =~= full);
    }
}

/// Position of `n` in `names` (`names.len()` if absent).
fn find_name(names: &Vec<Vec<u8>>, n: &[u8]) -> (r: usize)
    ensures
        r == name_index(names_view(names@), n@),
{
    let ghost v = names_view(names@);
    assert(v.subrange(0, v.len() as int) =~= v);
    let mut j: usize = 0;
    while j < names.len()
        invariant
            0 <= j <= names@.len(),
            v == names_view(names@),
            name_index(v, n@) == j + name_index(v.subrange(j as int, v.len() as int), n@),
        decreases names@.len() - j,
    {
        let ghost rest = v.subrange(j as int, v.len() as int);
        assert(rest[0] == names@[j as int]@);
        if bytes_eq(names[j].as_slice(), n) {
            return j;
        }
        assert(rest.drop_first() =~= v.subrange(j + 1, v.len() as int));
        j = j + 1;
    }
    j
}

/// The distinct feature type names, in order of first use.
fn collect_type_names(features: &Vec<SmfFeaturePlacement>) -> (names: Vec<Vec<u8>>)
    ensures
        names_view(names@) == dedup_names(crate::sd7::features_view(features@)),
{
    let ghost fv = crate::sd7::features_view(features@);
    let mut names: Vec<Vec<u8>> = Vec::new();
    let mut i: usize = 0;
    while i < features.len()
        invariant
            0 <= i <= features@.len(),
            fv == crate::sd7::features_view(features@),
            names_view(names@) == dedup_names(fv.subrange(0, i as int)),
        decreases features@.len() - i,
    {
        let ghost prev = names_view(names@);
        let t = features[i].feature_type.as_slice();
        let idx = find_name(&names, t);
        proof {
            lemma_name_index(prev, t@);
            assert(fv.subrange(0, (i + 1) as int).drop_last() =~= fv.subrange(0, i as int));
            assert(fv.subrange(0, (i + 1) as int).last() == fv[i as int]);
        }
        if idx == names.len() {
            names.push(vstd::slice::slice_to_vec(t));
            assert(names_view(names@) =~= prev.push(t@));
        }
        i = i + 1;
    }
    assert(fv.subrange(0, features@.len() as int) =~= fv);
    names
}

fn push_name_table(out: &mut Vec<u8>, names: &Vec<Vec<u8>>)
    ensures
        final(out)@ == old(out)@ + name_table(names_view(names@)),
{
    let ghost v = names_view(names@);
    let mut j: usize = 0;
    while j < names.len()
        invariant
            0 <= j <= names@.len(),
            v == names_view(names@),
            out@ == old(out)@ + name_table(v.subrange(0, j as int)),
        decreases names@.len() - j,
    {
        let nm = names[j].as_slice();
        let cut: usize = if nm.len() < 255 {
            nm.len()
        } else {
            255
        };
        let ghost before = out@;
        push_bytes(out, vstd::slice::slice_subrange(nm, 0, cut));
        out.push(0);
        proof {
            lemma_name_table_push(v.subrange(0, j as int), v[j as int]);
            assert(v.subrange(0, (j + 1) as int) =~= v.subrange(0, j as int).push(v[j as int]));
            assert(out@ =~= before + name_entry(v[j as int]));
        }
        j = j + 1;
    }
    assert(v.subrange(0, names@.len() as int) =~= v);
}

/// Appends the record of placement `f` with type index `idx`.
fn push_feature_record(out: &mut Vec<u8>, f: &SmfFeaturePlacement, idx: i32)
    ensures
        final(out)@ == old(out)@ + feature_record(f@, idx as int),
{
    push_i32_le(out, idx);
    push_u32_le(out, f.x);
    push_u32_le(out, f.y);
    push_u32_le(out, f.z);
    push_u32_le(out, f.angle);
    push_i16_le(out, f.taken_damage);
    push_i16_le(out, 0);
    assert(final(out)@ =~= old(out)@ + feature_record(f@, idx as int));
}

fn push_feature_records(out: &mut Vec<u8>, features: &Vec<SmfFeaturePlacement>, names: &Vec<Vec<u8>>)
    ensures
        final(out)@ == old(out)@ + feature_records(crate::sd7::features_view(features@), names_view(names@)),
{
    let ghost fv = crate::sd7::features_view(features@);
    let ghost nv = names_view(names@);
    let mut i: usize = 0;
    while i < features.len()
        invariant
            0 <= i <= features@.len(),
            fv == crate::sd7::features_view(features@),
            nv == names_view(names@),
            out@ == old(out)@ + feature_records(fv.subrange(0, i as int), nv),
        decreases features@.len() - i,
    {
        let f = &features[i];
        let idx = find_name(names, f.feature_type.as_slice());
        push_feature_record(out, f, idx as i32);
        let ghost fs1 = fv.subrange(0, (i + 1) as int);
        let ghost fs0 = fv.subrange(0, i as int);
        assert forall|k: int| 0 <= k < 24 * (i + 1) implies #[trigger] feature_records(fs1, nv)[k] == (
        feature_records(fs0, nv) + feature_record(fv[i as int], name_index(nv, fv[i as int].feature_type) as i32 as int))[k] by {
            if k < 24 * i {
                assert(k / 24 < i) by (nonlinear_arith)
                    requires
                        0 <= k < 24 * i,
                ;
                assert(fs1[k / 24] == fs0[k / 24]);
            } else {
                assert(k / 24 == i && k % 24 == k - 24 * i) by (nonlinear_arith)
                    requires
                        24 * i <= k < 24 * (i + 1),
                ;
            }
        }
        assert(feature_records(fs1, nv) =~= feature_records(fs0, nv) + feature_record(
            fv[i as int],
            name_index(nv, fv[i as int].feature_type) as i32 as int,
        ));
        i = i + 1;
    }
    assert(fv.subrange(0, features@.len() as int) =~= fv);
}

impl SmfMap {
    /// Whether [`SmfMap::write`] can lay this map out (see [`smf_writable`]).
    pub fn writable(&self) -> (r: bool)
        ensures
            r == smf_writable(self.header, smt_name_spec(self.smt_filename@).len() as int),
    {
        let h = &self.header;
        if h.square_size == 0 || (h.tile_size == i32::MIN && h.square_size == -1) {
            return false;
        }
        let q = crate::sd7::div_i32(h.tile_size, h.square_size);
        let res = q as u32;
        if res == 0 {
            return false;
        }
        let tx = h.map_x as u32 / res;
        let ty = h.map_y as u32 / res;
        assert((tx as u64) * (ty as u64) <= u64::MAX) by (nonlinear_arith)
            requires
                tx <= u32::MAX,
                ty <= u32::MAX,
        ;
        let n: u64 = tx as u64 * ty as u64;
        if n > u32::MAX as u64 {
            return false;
        }
        let (hw, hh) = h.heightmap_size();
        let (mw, mh) = h.metalmap_size();
        assert((hw as u128) * (hh as u128) <= u64::MAX && (mw as u128) * (mh as u128) <= u64::MAX)
            by (nonlinear_arith)
            requires
                hw <= u32::MAX,
                hh <= u32::MAX,
                mw <= u32::MAX,
                mh <= u32::MAX,
        ;
        let hm: u128 = hw as u128 * hh as u128;
        let mm: u128 = mw as u128 * mh as u128;
        let name_len: u128 = if self.smt_filename.len() == 0 {
            16
        } else {
            self.smt_filename.len() as u128
        };
        let end: u128 = 80 + 2 * hm + mm + 12 + name_len + 1 + 4 * (n as u128) + SMF_MINIMAP_SIZE as u128 + mm;
        end <= i32::MAX as u128
    }

    /// Write the map in SMF format, appending its bytes to `out`.
    ///
    /// Section offsets are laid out back to back after the header; the tile
    /// section names one SMT file (`maps/unknown.smt` when the map has no
    /// name) holding the tiles `0, 1, ...` in order; the minimap is written
    /// as is when it has the full DXT1 size and as a solid placeholder
    /// otherwise.
    pub fn write(&self, out: &mut Vec<u8>)
        requires
            smf_writable(self.header, smt_name_spec(self.smt_filename@).len() as int),
        ensures
            final(out)@ == old(out)@ + smf_write_spec(self@),
    {
        let ghost mv = self@;
        let ghost name = smt_name_spec(self.smt_filename@);
        let ghost name_len = name.len() as int;
        let (hm_w, hm_h) = self.header.heightmap_size();
        let (mm_w, mm_h) = self.header.metalmap_size();
        assert((hm_w as u64) * (hm_h as u64) <= u64::MAX) by (nonlinear_arith)
            requires
                hm_w <= u32::MAX,
                hm_h <= u32::MAX,
        ;
        assert((mm_w as u64) * (mm_h as u64) <= u64::MAX) by (nonlinear_arith)
            requires
                mm_w <= u32::MAX,
                mm_h <= u32::MAX,
        ;
        let hm: u64 = hm_w as u64 * hm_h as u64;
        let mm: u64 = mm_w as u64 * mm_h as u64;
        let q = crate::sd7::div_i32(self.header.tile_size, self.header.square_size);
        let tile_res = q as u32;
        let tiles_x = self.header.map_x as u32 / tile_res;
        let tiles_y = self.header.map_y as u32 / tile_res;
        let num_tiles: u32 = tiles_x * tiles_y;
        let name_len_exec: u64 = if self.smt_filename.len() == 0 {
            16
        } else {
            self.smt_filename.len() as u64
        };
        assert(name_len_exec == name_len);
        let typemap_ptr: u64 = 80 + 2 * hm;
        let tilesmap_ptr: u64 = typemap_ptr + mm;
        let minimap_ptr: u64 = tilesmap_ptr + 12 + name_len_exec + 1 + 4 * (num_tiles as u64);
        let metalmap_ptr: u64 = minimap_ptr + SMF_MINIMAP_SIZE as u64;
        let featuremap_ptr: u64 = metalmap_ptr + mm;
        let mut header = self.header;
        header.heightmap_ptr = 80;
        header.typemap_ptr = typemap_ptr as i32;
        header.tilesmap_ptr = tilesmap_ptr as i32;
        header.minimap_ptr = minimap_ptr as i32;
        header.metalmap_ptr = metalmap_ptr as i32;
        header.featuremap_ptr = featuremap_ptr as i32;
        assert(header == written_header(self.header, name_len));
        header.write(out);
        let ghost pre = header_bytes(header);
        push_u16s(out, self.heightmap.as_slice());
        proof {
            pre = pre + u16s_bytes(mv.heightmap);
        }
        assert(out@ =~= old(out)@ + pre);
        push_bytes(out, self.typemap.as_slice());
        proof {
            pre = pre + mv.typemap;
        }
        assert(out@ =~= old(out)@ + pre);
        let n = num_tiles as i32;
        push_i32_le(out, 1);
        push_i32_le(out, n);
        push_i32_le(out, n);
        if self.smt_filename.len() == 0 {
            let dflt: [u8; 16] = [109, 97, 112, 115, 47, 117, 110, 107, 110, 111, 119, 110, 46, 115, 109, 116];
            assert(dflt@ =~= default_smt_name());
            push_bytes(out, &dflt);
        } else {
            push_bytes(out, self.smt_filename.as_slice());
        }
        out.push(0);
        push_sequential_indices(out, num_tiles);
        proof {
            pre = pre + tile_section_bytes(name, write_tile_count(mv.header));
        }
        assert(out@ =~= old(out)@ + pre);
        push_minimap(out, self.minimap_dxt1.as_slice());
        push_bytes(out, self.metalmap.as_slice());
        proof {
            pre = pre + minimap_bytes(mv.minimap_dxt1) + mv.metalmap;
        }
        assert(out@ =~= old(out)@ + pre);
        let names = collect_type_names(&self.features);
        push_i32_le(out, names.len() as i32);
        push_i32_le(out, self.features.len() as i32);
        push_name_table(out, &names);
        push_feature_records(out, &self.features, &names);
        proof {
            pre = pre + feature_section_bytes(mv.features);
        }
        assert(out@ =~= old(out)@ + pre);
        assert(pre =~= smf_write_spec(mv)) by {
            reveal(smf_write_spec);
        }
    }
}

// -- Reading a written map back -----------------------------------------------------

proof fn lemma_nul_from(d: Seq<u8>, pos: int, len: int)
    requires
        0 <= pos,
        0 <= len,
        pos + len < d.len(),
        forall|t: int| pos <= t < pos + len ==> d[t] != 0,
        d[pos + len] == 0,
    ensures
        nul_from(d, pos) == Some(pos + len),
    decreases len,
{
    if len > 0 {
        assert(d[pos] != 0);
        lemma_nul_from(d, pos + 1, len - 1);
    }
}

/// A string without NUL bytes, stored NUL-terminated, reads back.
proof fn lemma_cstr_at(d: Seq<u8>, pos: int, s: Seq<u8>)
    requires
        0 <= pos,
        pos + s.len() + 1 <= d.len(),
        d.subrange(pos, pos + s.len() + 1) == s.push(0),
        !s.contains(0),
    ensures
        cstr_at(d, pos) == Some((s, pos + s.len() + 1)),
{
    assert forall|t: int| pos <= t < pos + s.len() implies d[t] != 0 by {
        assert(d[t] == d.subrange(pos, pos + s.len() + 1)[t - pos]);
        assert(s[t - pos] != 0);
    }
    assert(d[pos + s.len()] == d.subrange(pos, pos + s.len() + 1)[s.len() as int]);
    lemma_nul_from(d, pos, s.len() as int);
    assert(d.subrange(pos, pos + s.len()) =~= s) by {
        assert forall|t: int| 0 <= t < s.len() implies d.subrange(pos, pos + s.len())[t] == s[t] by {
            assert(d[pos + t] == d.subrange(pos, pos + s.len() + 1)[t]);
        }
    }
}

/// A name that fits and holds no NUL is stored as itself and a NUL.
proof fn lemma_name_entry(n: Seq<u8>)
    requires
        n.len() <= 255,
    ensures
        name_entry(n) == n.push(0),
{
    assert(n.subrange(0, n.len() as int) =~= n);
}

/// Whether every name fits in a table entry and holds no NUL.
pub open spec fn names_storable(names: Seq<Seq<u8>>) -> bool {
    forall|i: int| 0 <= i < names.len() ==> !(#[trigger] names[i]).contains(0u8) && names[i].len() <= 255
}

/// A stored name table reads back as its names.
proof fn lemma_type_names(d: Seq<u8>, pos: int, names: Seq<Seq<u8>>, acc: Seq<Seq<u8>>)
    requires
        0 <= pos,
        pos + name_table(names).len() <= d.len(),
        d.subrange(pos, pos + name_table(names).len()) == name_table(names),
        names_storable(names),
    ensures
        type_names(d, pos, names.len(), acc) == (Some(pos + name_table(names).len()), acc + names),
    decreases names.len(),
{
    if names.len() == 0 {
        assert(acc + names =~= acc);
    } else {
        let n0 = names[0];
        let rest = names.drop_first();
        lemma_name_entry(n0);
        let e = name_entry(n0);
        let t = name_table(names);
        assert(t == e + name_table(rest));
        assert(d.subrange(pos, pos + n0.len() + 1) =~= n0.push(0)) by {
            assert forall|k: int| 0 <= k < n0.len() + 1 implies d.subrange(pos, pos + n0.len() + 1)[k] == n0.push(
                0,
            )[k] by {
                assert(d[pos + k] == d.subrange(pos, pos + t.len())[k]);
                assert(t[k] == e[k]);
            }
        }
        lemma_cstr_at(d, pos, n0);
        let next = pos + n0.len() + 1;
        assert(d.subrange(next, next + name_table(rest).len()) =~= name_table(rest)) by {
            assert forall|k: int| 0 <= k < name_table(rest).len() implies d.subrange(
                next,
                next + name_table(rest).len(),
            )[k] == name_table(rest)[k] by {
                assert(d[next + k] == d.subrange(pos, pos + t.len())[e.len() + k]);
            }
        }
        assert forall|i: int| 0 <= i < rest.len() implies !(#[trigger] rest[i]).contains(0u8) && rest[i].len()
            <= 255 by {
            assert(rest[i] == names[i + 1]);
        }
        lemma_type_names(d, next, rest, acc.push(n0));
        assert(acc.push(n0) + rest =~= acc + names);
    }
}

/// Every type of `fs` is among its deduplicated names, every name is the
/// type of some placement, and there are no more names than placements.
proof fn lemma_dedup_names(fs: Seq<FeatureView>)
    ensures
        dedup_names(fs).len() <= fs.len(),
        forall|i: int| 0 <= i < fs.len() ==> dedup_names(fs).contains(#[trigger] fs[i].feature_type),
        forall|j: int|
            0 <= j < dedup_names(fs).len() ==> exists|i: int|
                0 <= i < fs.len() && #[trigger] dedup_names(fs)[j] == fs[i].feature_type,
    decreases fs.len(),
{
    if fs.len() > 0 {
        let prev = fs.drop_last();
        lemma_dedup_names(prev);
        let d = dedup_names(fs);
        let dp = dedup_names(prev);
        assert forall|i: int| 0 <= i < fs.len() implies d.contains(#[trigger] fs[i].feature_type) by {
            if i < fs.len() - 1 {
                assert(prev[i] == fs[i]);
                assert(dp.contains(prev[i].feature_type));
                let k = choose|k: int| 0 <= k < dp.len() && dp[k] == prev[i].feature_type;
                assert(d[k] == dp[k]);
            } else if !dp.contains(fs.last().feature_type) {
                assert(d[dp.len() as int] == fs.last().feature_type);
            }
        }
        assert forall|j: int| 0 <= j < d.len() implies exists|i: int|
            0 <= i < fs.len() && #[trigger] d[j] == fs[i].feature_type by {
            if j < dp.len() {
                let i = choose|i: int| 0 <= i < prev.len() && dp[j] == prev[i].feature_type;
                assert(d[j] == fs[i].feature_type);
            } else {
                assert(d[j] == fs[fs.len() - 1].feature_type);
            }
        }
    }
}

/// The bytes at `[off, off + s.len())` of `d` are `s`, pointwise.
proof fn lemma_bytes_at(d: Seq<u8>, off: int, s: Seq<u8>)
    requires
        0 <= off,
        off + s.len() <= d.len(),
        d.subrange(off, off + s.len()) == s,
    ensures
        forall|k: int| 0 <= k < s.len() ==> #[trigger] d[off + k] == s[k],
{
    assert forall|k: int| 0 <= k < s.len() implies #[trigger] d[off + k] == s[k] by {
        assert(d.subrange(off, off + s.len())[k] == s[k]);
    }
}

/// A piece of a stored sequence is stored at the shifted position.
proof fn lemma_sub_at(d: Seq<u8>, off: int, s: Seq<u8>, a: int, b: int)
    requires
        0 <= off,
        off + s.len() <= d.len(),
        d.subrange(off, off + s.len()) == s,
        0 <= a <= b <= s.len(),
    ensures
        d.subrange(off + a, off + b) == s.subrange(a, b),
{
    assert forall|k: int| 0 <= k < b - a implies d.subrange(off + a, off + b)[k] == s.subrange(a, b)[k] by {
        assert(d.subrange(off, off + s.len())[a + k] == s[a + k]);
    }
    assert(d.subrange(off + a, off + b) =~= s.subrange(a, b));
}

/// One stored feature record reads back as the placement.
proof fn lemma_feature_record_read(d: Seq<u8>, pos: int, f: FeatureView, idx: int, names: Seq<Seq<u8>>)
    requires
        0 <= pos,
        pos + 24 <= d.len(),
        d.subrange(pos, pos + 24) == feature_record(f, idx),
        0 <= idx < names.len(),
        idx <= i32::MAX,
        names[idx] == f.feature_type,
    ensures
        feature_at(d, pos, names) == f,
{
    let r = feature_record(f, idx);
    assert(r.subrange(0, 4) =~= i32_le_bytes(idx));
    assert(r.subrange(4, 8) =~= u32_le_bytes(f.x as int));
    assert(r.subrange(8, 12) =~= u32_le_bytes(f.y as int));
    assert(r.subrange(12, 16) =~= u32_le_bytes(f.z as int));
    assert(r.subrange(16, 20) =~= u32_le_bytes(f.angle as int));
    assert(r.subrange(20, 22) =~= i16_le_bytes(f.taken_damage as int));
    lemma_sub_at(d, pos, r, 0, 4);
    lemma_sub_at(d, pos, r, 4, 8);
    lemma_sub_at(d, pos, r, 8, 12);
    lemma_sub_at(d, pos, r, 12, 16);
    lemma_sub_at(d, pos, r, 16, 20);
    lemma_sub_at(d, pos, r, 20, 22);
    assert(d.subrange(pos, pos + 4) == i32_le_bytes(idx));
    lemma_i32_le_roundtrip(idx, d, pos);
    lemma_u32_le_roundtrip(f.x as int, d, pos + 4);
    lemma_u32_le_roundtrip(f.y as int, d, pos + 8);
    lemma_u32_le_roundtrip(f.z as int, d, pos + 12);
    lemma_u32_le_roundtrip(f.angle as int, d, pos + 16);
    lemma_i16_le_roundtrip(f.taken_damage as int, d, pos + 20);
}

/// A stored tile section reads back as its SMT name and the indices `0..n`.
proof fn lemma_tile_section_read(d: Seq<u8>, off: int, name: Seq<u8>, n: int)
    requires
        0 < off,
        0 <= n <= 0x1fff_ffff,
        name.len() > 0,
        !name.contains(0),
        off + tile_section_bytes(name, n).len() <= d.len(),
        d.subrange(off, off + tile_section_bytes(name, n).len()) == tile_section_bytes(name, n),
    ensures
        tile_section(d, off) == (name, Seq::new(n as nat, |i: int| i as i32)),
{
    let ts = tile_section_bytes(name, n);
    lemma_bytes_at(d, off, ts);
    assert(ts.subrange(0, 4) =~= i32_le_bytes(1));
    assert(ts.subrange(4, 8) =~= i32_le_bytes(n));
    assert(ts.subrange(12, 13 + name.len() as int) =~= name.push(0));
    lemma_sub_at(d, off, ts, 0, 4);
    lemma_sub_at(d, off, ts, 4, 8);
    lemma_sub_at(d, off, ts, 12, 13 + name.len() as int);
    assert(d.subrange(off, off + 4) == i32_le_bytes(1));
    lemma_i32_le_roundtrip(1, d, off);
    lemma_i32_le_roundtrip(n, d, off + 4);
    lemma_cstr_at(d, off + 12, name);
    let next = off + 12 + name.len() + 1;
    assert(tile_files(d, next, 0, name) == (Some(next), name));
    assert(tile_files(d, off + 8, 1, Seq::empty()) == (Some(next), name));
    let idx = read_i32s(d, next, n);
    assert forall|i: int| 0 <= i < n implies #[trigger] idx[i] == i as i32 by {
        let b = sequential_indices_bytes(n);
        assert forall|t: int| 0 <= t < 4 implies #[trigger] d.subrange(next + 4 * i, next + 4 * i + 4)[t]
            == i32_le_bytes(i)[t] by {
            assert(d[off + (13 + name.len() + 4 * i + t)] == ts[13 + name.len() + 4 * i + t]);
            assert(ts[13 + name.len() + 4 * i + t] == b[4 * i + t]);
            assert((4 * i + t) / 4 == i);
            assert((4 * i + t) % 4 == t);
        }
        assert(d.subrange(next + 4 * i, next + 4 * i + 4) =~= i32_le_bytes(i));
        lemma_i32_le_roundtrip(i, d, next + 4 * i);
    }
    assert(idx =~= Seq::new(n as nat, |i: int| i as i32));
}

/// Stored feature records read back as the placements.
proof fn lemma_records_read(d: Seq<u8>, p: int, fs: Seq<FeatureView>, names: Seq<Seq<u8>>)
    requires
        0 <= p,
        names.len() <= i32::MAX,
        forall|i: int| 0 <= i < fs.len() ==> names.contains(#[trigger] fs[i].feature_type),
        p + feature_records(fs, names).len() <= d.len(),
        d.subrange(p, p + feature_records(fs, names).len()) == feature_records(fs, names),
    ensures
        forall|i: int| 0 <= i < fs.len() ==> #[trigger] feature_at(d, p + 24 * i, names) == fs[i],
{
    let recs = feature_records(fs, names);
    assert forall|i: int| 0 <= i < fs.len() implies #[trigger] feature_at(d, p + 24 * i, names) == fs[i] by {
        let f = fs[i];
        let ix = name_index(names, f.feature_type);
        lemma_name_index(names, f.feature_type);
        assert(0 <= 24 * i && 24 * i + 24 <= recs.len()) by (nonlinear_arith)
            requires
                0 <= i < fs.len(),
                recs.len() == 24 * fs.len(),
        ;
        assert(recs.subrange(24 * i, 24 * i + 24) =~= feature_record(f, ix)) by {
            assert forall|k: int| 0 <= k < 24 implies recs.subrange(24 * i, 24 * i + 24)[k] == feature_record(
                f,
                ix,
            )[k] by {
                assert((24 * i + k) / 24 == i && (24 * i + k) % 24 == k) by (nonlinear_arith)
                    requires
                        0 <= k < 24,
                ;
            }
        }
        lemma_sub_at(d, p, recs, 24 * i, 24 * i + 24);
        lemma_feature_record_read(d, p + 24 * i, f, ix, names);
    }
}

/// A stored feature section reads back as the placements.
proof fn lemma_feature_section_read(d: Seq<u8>, off: int, fs: Seq<FeatureView>)
    requires
        0 < off,
        fs.len() <= i32::MAX,
        forall|i: int| 0 <= i < fs.len() ==> !(#[trigger] fs[i].feature_type).contains(0u8) && fs[i].feature_type.len() <= 255,
        off + feature_section_bytes(fs).len() <= d.len(),
        d.subrange(off, off + feature_section_bytes(fs).len()) == feature_section_bytes(fs),
    ensures
        feature_section(d, off) == fs,
{
    let names = dedup_names(fs);
    let fsb = feature_section_bytes(fs);
    let t = name_table(names);
    let recs = feature_records(fs, names);
    lemma_dedup_names(fs);
    assert(fsb.subrange(0, 4) =~= i32_le_bytes(names.len() as int));
    assert(fsb.subrange(4, 8) =~= i32_le_bytes(fs.len() as int));
    assert(fsb.subrange(8, 8 + t.len() as int) =~= t);
    assert(fsb.subrange(8 + t.len() as int, fsb.len() as int) =~= recs);
    lemma_sub_at(d, off, fsb, 0, 4);
    lemma_sub_at(d, off, fsb, 4, 8);
    lemma_sub_at(d, off, fsb, 8, 8 + t.len() as int);
    lemma_sub_at(d, off, fsb, 8 + t.len() as int, fsb.len() as int);
    assert(d.subrange(off, off + 4) == i32_le_bytes(names.len() as int));
    lemma_i32_le_roundtrip(names.len() as int, d, off);
    lemma_i32_le_roundtrip(fs.len() as int, d, off + 4);
    assert(names_storable(names)) by {
        assert forall|j: int| 0 <= j < names.len() implies !(#[trigger] names[j]).contains(0u8) && names[j].len()
            <= 255 by {
            let i = choose|i: int| 0 <= i < fs.len() && names[j] == fs[i].feature_type;
            assert(!fs[i].feature_type.contains(0u8));
        }
    }
    lemma_type_names(d, off + 8, names, Seq::empty());
    assert(Seq::<Seq<u8>>::empty() + names =~= names);
    let p = off + 8 + t.len();
    lemma_records_read(d, p, fs, names);
    let got = feature_section(d, off);
    assert(got.len() == fs.len()) by {
        assert((d.len() - p) / 24 >= fs.len()) by (nonlinear_arith)
            requires
                d.len() - p >= 24 * fs.len(),
        ;
    }
    assert forall|i: int| 0 <= i < fs.len() implies #[trigger] got[i] == fs[i] by {
        assert(got[i] == feature_at(d, p + 24 * i, names));
    }
    assert(got =~= fs);
}

/// What reading a written map gives back: the header with the written
/// section offsets, the same heightmap, metalmap, typemap and placements, the
/// SMT name as written, the tile indices `0, 1, ...`, and no minimap (the
/// reader does not load it).
pub open spec fn smf_read_back(m: SmfMapView) -> SmfMapView {
    let name = smt_name_spec(m.smt_filename);
    SmfMapView {
        header: written_header(m.header, name.len() as int),
        heightmap: m.heightmap,
        metalmap: m.metalmap,
        typemap: m.typemap,
        smt_filename: name,
        tile_indices: Seq::new(write_tile_count(m.header) as nat, |i: int| i as i32),
        minimap_dxt1: Seq::empty(),
        features: m.features,
    }
}

proof fn lemma_heightmap_read(d: Seq<u8>, s: Seq<u16>)
    requires
        80 + 2 * s.len() <= d.len(),
        d.subrange(80, 80 + 2 * s.len() as int) == u16s_bytes(s),
    ensures
        read_u16s(d, 80, s.len() as int) == s,
{
    let u = u16s_bytes(s);
    assert forall|i: int| 0 <= i < s.len() implies #[trigger] read_u16s(d, 80, s.len() as int)[i] == s[i] by {
        assert(u.subrange(2 * i, 2 * i + 2) =~= u16_le_bytes(s[i] as int));
        lemma_sub_at(d, 80, u, 2 * i, 2 * i + 2);
        lemma_u16_le_roundtrip(s[i] as int, d, 80 + 2 * i);
    }
    assert(read_u16s(d, 80, s.len() as int) =~= s);
}

/// Where each section of a written map lies.
proof fn lemma_smf_layout(m: SmfMapView)
    requires
        smf_writable(m.header, smt_name_spec(m.smt_filename).len() as int),
        m.heightmap.len() == hm_count(m.header),
        m.typemap.len() == mm_count(m.header),
        m.metalmap.len() == mm_count(m.header),
    ensures
        ({
            let h = m.header;
            let name = smt_name_spec(m.smt_filename);
            let nl = name.len() as int;
            let d = smf_write_spec(m);
            let ts = tile_section_bytes(name, write_tile_count(h));
            let fsb = feature_section_bytes(m.features);
            &&& 0 <= hm_count(h)
            &&& 0 <= mm_count(h)
            &&& 0 <= write_tile_count(h)
            &&& ts.len() == tilesmap_len(h, nl)
            &&& d.len() == featuremap_offset(h, nl) + fsb.len()
            &&& d.subrange(0, 80) == header_bytes(written_header(h, nl))
            &&& d.subrange(80, typemap_offset(h)) == u16s_bytes(m.heightmap)
            &&& d.subrange(typemap_offset(h), tilesmap_offset(h)) == m.typemap
            &&& d.subrange(tilesmap_offset(h), tilesmap_offset(h) + ts.len()) == ts
            &&& d.subrange(metalmap_offset(h, nl), metalmap_offset(h, nl) + mm_count(h)) == m.metalmap
            &&& d.subrange(featuremap_offset(h, nl), featuremap_offset(h, nl) + fsb.len()) == fsb
        }),
{
    let h = m.header;
    let name = smt_name_spec(m.smt_filename);
    let nl = name.len() as int;
    let wh = written_header(h, nl);
    let n = write_tile_count(h);
    let d = smf_write_spec(m);
    let hb = header_bytes(wh);
    let u = u16s_bytes(m.heightmap);
    let ts = tile_section_bytes(name, n);
    let mini = minimap_bytes(m.minimap_dxt1);
    let fsb = feature_section_bytes(m.features);
    reveal(smf_write_spec);
    let (hw, hh) = h.heightmap_size_spec();
    let (mw, mh) = h.metalmap_size_spec();
    assert(hw as int * hh as int >= 0 && mw as int * mh as int >= 0) by (nonlinear_arith)
        requires
            hw >= 0,
            hh >= 0,
            mw >= 0,
            mh >= 0,
    ;
    let tx = ((h.map_x as u32) / write_tile_res(h)) as int;
    let ty = ((h.map_y as u32) / write_tile_res(h)) as int;
    assert(tx * ty >= 0) by (nonlinear_arith)
        requires
            tx >= 0,
            ty >= 0,
    ;
    assert(hb.len() == 80);
    assert(mini.len() == SMF_MINIMAP_SIZE);
    let o_t = typemap_offset(h);
    let o_ts = tilesmap_offset(h);
    let o_m = metalmap_offset(h, nl);
    let o_f = featuremap_offset(h, nl);
    assert(d.subrange(0, 80) =~= hb);
    assert(d.subrange(80, o_t) =~= u);
    assert(d.subrange(o_t, o_ts) =~= m.typemap);
    assert(d.subrange(o_ts, o_ts + ts.len()) =~= ts);
    assert(d.subrange(o_m, o_m + mm_count(h)) =~= m.metalmap);
    assert(d.subrange(o_f, o_f + fsb.len()) =~= fsb);
}

/// Reading back what the writer wrote gives the map back (see
/// [`smf_read_back`]): the header with its section offsets, heightmap,
/// metalmap, typemap, SMT name, sequential tile indices and every feature
/// placement with its type name.  This holds when the header's version is the
/// supported one, the writer can lay the map out, the sections have the
/// sizes the header gives them, and no name holds a NUL byte (type names
/// also fit the 255-byte entries).
#[verifier::rlimit(40)]
pub proof fn lemma_smf_write_read_roundtrip(m: SmfMapView)
    requires
        m.header.version == SMF_VERSION,
        smf_writable(m.header, smt_name_spec(m.smt_filename).len() as int),
        m.heightmap.len() == hm_count(m.header),
        m.typemap.len() == mm_count(m.header),
        m.metalmap.len() == mm_count(m.header),
        !m.smt_filename.contains(0u8),
        forall|i: int|
            0 <= i < m.features.len() ==> !(#[trigger] m.features[i].feature_type).contains(0u8)
                && m.features[i].feature_type.len() <= 255,
        m.features.len() <= i32::MAX,
    ensures
        smf_read_spec(smf_write_spec(m)) == Ok::<SmfMapView, Sd7Error>(smf_read_back(m)),
{
    let h = m.header;
    let name = smt_name_spec(m.smt_filename);
    let nl = name.len() as int;
    let wh = written_header(h, nl);
    let n = write_tile_count(h);
    let d = smf_write_spec(m);
    let mm = mm_count(h);
    lemma_smf_layout(m);
    assert(!default_smt_name().contains(0u8)) by {
        assert forall|k: int| 0 <= k < 16 implies default_smt_name()[k] != 0u8 by {}
    }
    lemma_header_write_read_roundtrip(wh, d);
    assert(wh.heightmap_size_spec() == h.heightmap_size_spec());
    assert(wh.metalmap_size_spec() == h.metalmap_size_spec());
    lemma_heightmap_read(d, m.heightmap);
    assert(byte_section(d, wh.metalmap_ptr as int, mm) =~= m.metalmap);
    assert(byte_section(d, wh.typemap_ptr as int, mm) =~= m.typemap);
    lemma_tile_section_read(d, tilesmap_offset(h), name, n);
    lemma_feature_section_read(d, featuremap_offset(h, nl), m.features);
    crate::sd7::lemma_smf_read_ok(d, wh);
}

} // verus!
