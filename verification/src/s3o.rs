//! Spring S3O model format parser.
//!
//! Parses the binary S3O format used by Spring/BAR for 3D models.  The piece
//! hierarchy is flattened into a single vertex + index buffer.
//!
//! File header (52 bytes): magic `"Spring unit\0"`, version (must be 0) at
//! +12, root piece offset at +36.  Piece struct (52 bytes): +4 numChildren,
//! +12 numVertices, +16 vertexOffset (child table offset when the piece has
//! children), +24 primitiveType (0 = triangles, 1 = strip, 2 = quads),
//! +28 numIndices, +32 indexOffset, +40/+44/+48 x/y/z offset.  A vertex is
//! 32 bytes: position, normal, uv.
//!
//! All floating-point fields are carried as their IEEE-754 bit patterns:
//! a vertex keeps its raw model-space position and the index of the piece
//! it belongs to, and each piece keeps its raw offset and its parent, so a
//! caller obtains world positions by summing the offsets along the piece's
//! ancestor chain and adding them to the vertex position.

use vstd::prelude::*;

use crate::le::{le_i32_at, le_u32_at, read_i32_le, read_u32_le};

verus! {

/// Errors that can occur while parsing an S3O file.
#[derive(Debug, Clone, Copy, PartialEq, Eq)]
pub enum S3oError {
    TooShort,
    BadMagic,
    UnsupportedVersion(i32),
    OutOfBounds { offset: u64, len: u64 },
    /// The piece at `offset` yields indices that are not a triangle list
    /// over the vertices read so far (a partial triangle, or an index past
    /// the last vertex), or an index that overflows `u32` when offset by
    /// the number of vertices before the piece.
    BadIndices { offset: u64 },
}

/// One piece of the hierarchy: its parent piece (if any) and the raw bits
/// of its x/y/z offset relative to the parent.
#[derive(Debug, Clone, Copy, PartialEq, Eq)]
pub struct S3oPiece {
    pub parent: Option<usize>,
    pub offset: (u32, u32, u32),
}

/// Per-vertex data: owning piece and raw bits of position, normal and uv.
#[derive(Debug, Clone, Copy, PartialEq, Eq)]
pub struct S3oVertex {
    pub piece: usize,
    pub position: (u32, u32, u32),
    pub normal: (u32, u32, u32),
    pub uv: (u32, u32),
}

/// Merged mesh produced by flattening all S3O pieces.
pub struct S3oMesh {
    /// Pieces in visiting order (pre-order).
    pub pieces: Vec<S3oPiece>,
    pub vertices: Vec<S3oVertex>,
    /// Triangle list indices into `vertices`.
    pub indices: Vec<u32>,
}

impl View for S3oMesh {
    type V = (Seq<S3oPiece>, Seq<S3oVertex>, Seq<u32>);

    open spec fn view(&self) -> Self::V {
        (self.pieces@, self.vertices@, self.indices@)
    }
}

// -- Specification ------------------------------------------------------------

/// The 12 magic bytes, `"Spring unit\0"`.
pub open spec fn s3o_magic() -> Seq<u8> {
    seq![83u8, 112, 114, 105, 110, 103, 32, 117, 110, 105, 116, 0]
}

pub open spec fn u32_at(d: Seq<u8>, off: int) -> u32 {
    le_u32_at(d, off) as u32
}

/// The vertex stored at byte offset `off`, attributed to piece `piece`.
pub open spec fn vertex_at(d: Seq<u8>, off: int, piece: usize) -> S3oVertex {
    S3oVertex {
        piece,
        position: (u32_at(d, off), u32_at(d, off + 4), u32_at(d, off + 8)),
        normal: (u32_at(d, off + 12), u32_at(d, off + 16), u32_at(d, off + 20)),
        uv: (u32_at(d, off + 24), u32_at(d, off + 28)),
    }
}

/// The first `n` vertices of a piece whose vertex array starts at `vo`.
pub open spec fn piece_vertices(d: Seq<u8>, vo: int, n: int, piece: usize) -> Seq<S3oVertex> {
    Seq::new(n as nat, |i: int| vertex_at(d, vo + 32 * i, piece))
}

/// Whether the piece's index words hold `index << 8`: scanning the first 32
/// words, the first non-zero one decides -- shifted if it is a multiple of
/// 256 whose high part is a valid vertex index, plain if it is itself a
/// valid vertex index; otherwise scanning continues.  Plain when no word
/// decides or the piece has no vertices.
pub open spec fn detect_shift_from(d: Seq<u8>, io: int, check: int, nv: int, i: int) -> bool
    decreases check - i,
{
    if i >= check {
        false
    } else if io + 4 * i + 4 > d.len() {
        false
    } else {
        let v = le_u32_at(d, io + 4 * i);
        if v == 0 {
            detect_shift_from(d, io, check, nv, i + 1)
        } else if v % 256 == 0 && v / 256 < nv {
            true
        } else if v < nv {
            false
        } else {
            detect_shift_from(d, io, check, nv, i + 1)
        }
    }
}

pub open spec fn detect_shift(d: Seq<u8>, io: int, ni: int, nv: int) -> bool {
    if nv == 0 {
        false
    } else {
        detect_shift_from(
            d,
            io,
            if ni < 32 {
                ni
            } else {
                32
            },
            nv,
            0,
        )
    }
}

/// The `ni` index words at `io`, shifted down by 8 bits when `shift`.
pub open spec fn raw_indices(d: Seq<u8>, io: int, ni: int, shift: bool) -> Seq<u32> {
    Seq::new(
        ni as nat,
        |i: int|
            if shift {
                (le_u32_at(d, io + 4 * i) / 256) as u32
            } else {
                u32_at(d, io + 4 * i)
            },
    )
}

/// Triangle-list indices: every raw index offset by `base`.
pub open spec fn triangle_list(raw: Seq<u32>, base: u32) -> Seq<u32> {
    Seq::new(raw.len(), |i: int| base.wrapping_add(raw[i]))
}

/// Triangles of the first `n` windows of a triangle strip: degenerate
/// windows (two equal corners) are skipped and odd windows flip winding.
pub open spec fn tristrip_prefix(raw: Seq<u32>, base: u32, n: nat) -> Seq<u32>
    decreases n,
{
    if n == 0 {
        Seq::empty()
    } else {
        let prev = tristrip_prefix(raw, base, (n - 1) as nat);
        let i = n - 1;
        let a = base.wrapping_add(raw[i]);
        let b = base.wrapping_add(raw[i + 1]);
        let c = base.wrapping_add(raw[i + 2]);
        if a == b || b == c || a == c {
            prev
        } else if i % 2 == 0 {
            prev + seq![a, b, c]
        } else {
            prev + seq![a, c, b]
        }
    }
}

/// Triangle-list expansion of a triangle strip.
pub open spec fn tristrip_spec(raw: Seq<u32>, base: u32) -> Seq<u32> {
    if raw.len() < 3 {
        Seq::empty()
    } else {
        tristrip_prefix(raw, base, (raw.len() - 2) as nat)
    }
}

/// Triangles of the first `n` quads: `(a, b, c, d)` becomes `a b c a c d`.
pub open spec fn quads_prefix(raw: Seq<u32>, base: u32, n: nat) -> Seq<u32>
    decreases n,
{
    if n == 0 {
        Seq::empty()
    } else {
        let q = n - 1;
        let a = base.wrapping_add(raw[4 * q]);
        let b = base.wrapping_add(raw[4 * q + 1]);
        let c = base.wrapping_add(raw[4 * q + 2]);
        let d = base.wrapping_add(raw[4 * q + 3]);
        quads_prefix(raw, base, (n - 1) as nat) + seq![a, b, c, a, c, d]
    }
}

/// Triangle-list expansion of a quad list (trailing partial quad ignored).
pub open spec fn quads_spec(raw: Seq<u32>, base: u32) -> Seq<u32> {
    quads_prefix(raw, base, raw.len() / 4)
}

/// Indices a piece contributes for its primitive type; unknown types add none.
pub open spec fn primitive_indices(prim: int, raw: Seq<u32>, base: u32) -> Seq<u32> {
    if prim == 0 {
        triangle_list(raw, base)
    } else if prim == 1 {
        tristrip_spec(raw, base)
    } else if prim == 2 {
        quads_spec(raw, base)
    } else {
        Seq::empty()
    }
}

pub open spec fn oob(offset: int, len: int) -> S3oError {
    S3oError::OutOfBounds { offset: offset as u64, len: len as u64 }
}

/// Whether `idx` is a triangle list over `nv` vertices: whole triangles
/// only, every index naming one of the vertices.
pub open spec fn is_triangle_list(idx: Seq<u32>, nv: int) -> bool {
    &&& idx.len() % 3 == 0
    &&& forall|i: int| 0 <= i < idx.len() ==> #[trigger] idx[i] < nv
}

/// Whether every index is at least `base`: offsetting a piece's raw
/// indices by the vertices before it did not overflow `u32`.
pub open spec fn indices_from(idx: Seq<u32>, base: u32) -> bool {
    forall|i: int| 0 <= i < idx.len() ==> #[trigger] idx[i] >= base
}

/// Largest value the children table measure can take.
pub open spec fn child_measure_cap() -> int {
    0x2_0000_0000
}

/// Collects the piece at `off` (and, recursively, its children) into `st`.
///
/// Returns the piece's own result and the accumulated state.  A piece's
/// errors leave whatever it had already appended in place; errors of child
/// pieces are ignored.  `path` holds the offsets of the piece's ancestors:
/// a child table entry naming the piece itself or an ancestor is skipped,
/// so a table that loops back is not followed.  `fuel` bounds the nesting
/// depth; with those entries skipped, the pieces on a path have distinct
/// offsets, so a file shorter than `fuel` bytes never uses it up.
#[verifier::opaque]
pub open spec fn s3o_collect(
    d: Seq<u8>,
    off: int,
    parent: Option<usize>,
    st: (Seq<S3oPiece>, Seq<S3oVertex>, Seq<u32>),
    fuel: nat,
    path: Seq<u64>,
) -> (Result<(), S3oError>, (Seq<S3oPiece>, Seq<S3oVertex>, Seq<u32>))
    decreases fuel, child_measure_cap(),
{
    if fuel == 0 {
        (Err(oob(off, d.len() as int)), st)
    } else if off + 52 > d.len() {
        (Err(oob(off, d.len() as int)), st)
    } else {
        let nc = le_u32_at(d, off + 4);
        let nv = le_u32_at(d, off + 12);
        let vo = le_u32_at(d, off + 16);
        let prim = le_u32_at(d, off + 24);
        let ni = le_u32_at(d, off + 28);
        let io = le_u32_at(d, off + 32);
        let pidx = st.0.len() as usize;
        let piece = S3oPiece {
            parent,
            offset: (u32_at(d, off + 40), u32_at(d, off + 44), u32_at(d, off + 48)),
        };
        let st1 = (st.0.push(piece), st.1, st.2);
        let base = (st.1.len() % 0x1_0000_0000) as u32;
        if nv > 0 && vo + 32 * nv > d.len() {
            (Err(oob(vo + 32 * nv, d.len() as int)), st1)
        } else {
            let st2 = if nv > 0 {
                (st1.0, st1.1 + piece_vertices(d, vo, nv, pidx), st1.2)
            } else {
                st1
            };
            if ni > 0 && io + 4 * ni > d.len() {
                (Err(oob(io + 4 * ni, d.len() as int)), st2)
            } else {
                let tri = if ni > 0 {
                    primitive_indices(prim, raw_indices(d, io, ni, detect_shift(d, io, ni, nv)), base)
                } else {
                    Seq::empty()
                };
                if !is_triangle_list(tri, st2.1.len() as int) || !indices_from(tri, base) {
                    (Err(S3oError::BadIndices { offset: off as u64 }), st2)
                } else {
                    let st3 = (st2.0, st2.1, st2.2 + tri);
                    if nc > 0 && vo + 4 * nc <= d.len() {
                        (Ok(()), s3o_children(d, vo, nc, 0, pidx, st3, (fuel - 1) as nat, path.push(off as u64)))
                    } else {
                        (Ok(()), st3)
                    }
                }
            }
        }
    }
}

/// Collects children `i..nc` listed in the child table at `co`, skipping
/// the entries whose offset is on `path` (the parent and its ancestors).
pub open spec fn s3o_children(
    d: Seq<u8>,
    co: int,
    nc: int,
    i: int,
    pidx: usize,
    st: (Seq<S3oPiece>, Seq<S3oVertex>, Seq<u32>),
    fuel: nat,
    path: Seq<u64>,
) -> (Seq<S3oPiece>, Seq<S3oVertex>, Seq<u32>)
    decreases fuel + 1, nc - i,
{
    if i >= nc || nc >= 0x1_0000_0000 || i < 0 {
        st
    } else {
        let child = le_u32_at(d, co + 4 * i);
        if path.contains(child as u64) {
            s3o_children(d, co, nc, i + 1, pidx, st, fuel, path)
        } else {
            let r = s3o_collect(d, child, Some(pidx), st, fuel, path);
            s3o_children(d, co, nc, i + 1, pidx, r.1, fuel, path)
        }
    }
}

/// Collecting a piece and its children only appends: the pieces, vertices
/// and indices collected before stay as they were, and every index the
/// subtree adds names a vertex the subtree itself added (at or past the
/// vertex count it started from).  This holds while the vertex count stays
/// within `u32`, where piece-relative indices are offset without wrapping.
pub proof fn lemma_subtree_indices_own_vertices(
    d: Seq<u8>,
    off: int,
    parent: Option<usize>,
    st: (Seq<S3oPiece>, Seq<S3oVertex>, Seq<u32>),
    fuel: nat,
    path: Seq<u64>,
)
    requires
        s3o_collect(d, off, parent, st, fuel, path).1.1.len() <= u32::MAX,
    ensures
        ({
            let r = s3o_collect(d, off, parent, st, fuel, path).1;
            &&& st.1.len() <= r.1.len()
            &&& st.2.len() <= r.2.len()
            &&& r.2.subrange(0, st.2.len() as int) == st.2
            &&& forall|t: int| st.2.len() <= t < r.2.len() ==> st.1.len() <= #[trigger] r.2[t] < r.1.len()
        }),
    decreases fuel, child_measure_cap(),
{
    reveal(s3o_collect);
    let r = s3o_collect(d, off, parent, st, fuel, path).1;
    if fuel == 0 || off + 52 > d.len() {
        assert(st.2.subrange(0, st.2.len() as int) =~= st.2);
    } else {
        let nc = le_u32_at(d, off + 4);
        let nv = le_u32_at(d, off + 12);
        let vo = le_u32_at(d, off + 16);
        let prim = le_u32_at(d, off + 24);
        let ni = le_u32_at(d, off + 28);
        let io = le_u32_at(d, off + 32);
        let pidx = st.0.len() as usize;
        let piece = S3oPiece {
            parent,
            offset: (u32_at(d, off + 40), u32_at(d, off + 44), u32_at(d, off + 48)),
        };
        let st1 = (st.0.push(piece), st.1, st.2);
        let base: u32 = (st.1.len() % 0x1_0000_0000) as u32;
        if nv > 0 && vo + 32 * nv > d.len() {
            assert(st.2.subrange(0, st.2.len() as int) =~= st.2);
        } else {
            let st2 = if nv > 0 {
                (st1.0, st1.1 + piece_vertices(d, vo, nv, pidx), st1.2)
            } else {
                st1
            };
            if ni > 0 && io + 4 * ni > d.len() {
                assert(st.2.subrange(0, st.2.len() as int) =~= st.2);
            } else {
                let tri = if ni > 0 {
                    primitive_indices(prim, raw_indices(d, io, ni, detect_shift(d, io, ni, nv)), base)
                } else {
                    Seq::empty()
                };
                if !is_triangle_list(tri, st2.1.len() as int) || !indices_from(tri, base) {
                    assert(st.2.subrange(0, st.2.len() as int) =~= st.2);
                } else {
                    let st3 = (st2.0, st2.1, st2.2 + tri);
                    if nc > 0 && vo + 4 * nc <= d.len() {
                        lemma_children_indices_own_vertices(d, vo, nc, 0, pidx, st3, (fuel - 1) as nat, path.push(off as u64));
                    }
                    assert(st3.1.len() <= r.1.len());
                    assert(st.1.len() < 0x1_0000_0000);
                    assert(base == st.1.len());
                    assert(r.2.subrange(0, st3.2.len() as int) == st3.2);
                    assert forall|t: int| st.2.len() <= t < r.2.len() implies st.1.len() <= #[trigger] r.2[t] < r.1.len() by {
                        if t < st3.2.len() {
                            assert(r.2[t] == r.2.subrange(0, st3.2.len() as int)[t]);
                            assert(st3.2[t] == tri[t - st.2.len()]);
                        }
                    }
                    assert(r.2.subrange(0, st.2.len() as int) =~= st.2) by {
                        assert forall|t: int| 0 <= t < st.2.len() implies r.2[t] == st.2[t] by {
                            assert(r.2[t] == r.2.subrange(0, st3.2.len() as int)[t]);
                        }
                    }
                }
            }
        }
    }
}

/// [`lemma_subtree_indices_own_vertices`] for the children `i..nc` of a piece.
pub proof fn lemma_children_indices_own_vertices(
    d: Seq<u8>,
    co: int,
    nc: int,
    i: int,
    pidx: usize,
    st: (Seq<S3oPiece>, Seq<S3oVertex>, Seq<u32>),
    fuel: nat,
    path: Seq<u64>,
)
    requires
        s3o_children(d, co, nc, i, pidx, st, fuel, path).1.len() <= u32::MAX,
    ensures
        ({
            let r = s3o_children(d, co, nc, i, pidx, st, fuel, path);
            &&& st.1.len() <= r.1.len()
            &&& st.2.len() <= r.2.len()
            &&& r.2.subrange(0, st.2.len() as int) == st.2
            &&& forall|t: int| st.2.len() <= t < r.2.len() ==> st.1.len() <= #[trigger] r.2[t] < r.1.len()
        }),
    decreases fuel + 1, nc - i,
{
    reveal(s3o_collect);
    let r = s3o_children(d, co, nc, i, pidx, st, fuel, path);
    if i >= nc || nc >= 0x1_0000_0000 || i < 0 {
        assert(st.2.subrange(0, st.2.len() as int) =~= st.2);
    } else {
        let child = le_u32_at(d, co + 4 * i);
        if path.contains(child as u64) {
            lemma_children_indices_own_vertices(d, co, nc, i + 1, pidx, st, fuel, path);
        } else {
            let m = s3o_collect(d, child, Some(pidx), st, fuel, path).1;
            assert(r == s3o_children(d, co, nc, i + 1, pidx, m, fuel, path));
            lemma_children_indices_own_vertices(d, co, nc, i + 1, pidx, m, fuel, path);
            lemma_subtree_indices_own_vertices(d, child, Some(pidx), st, fuel, path);
            assert forall|t: int| st.2.len() <= t < r.2.len() implies st.1.len() <= #[trigger] r.2[t] < r.1.len() by {
                if t < m.2.len() {
                    assert(r.2[t] == r.2.subrange(0, m.2.len() as int)[t]);
                    assert(m.2[t] == m.2.subrange(0, m.2.len() as int)[t]);
                }
            }
            assert(r.2.subrange(0, st.2.len() as int) =~= st.2) by {
                assert forall|t: int| 0 <= t < st.2.len() implies r.2[t] == st.2[t] by {
                    assert(r.2[t] == r.2.subrange(0, m.2.len() as int)[t]);
                    assert(m.2[t] == m.2.subrange(0, st.2.len() as int)[t]);
                }
            }
        }
    }
}

/// The result of parsing `d` as an S3O model.
pub open spec fn s3o_parse_spec(d: Seq<u8>) -> Result<
    (Seq<S3oPiece>, Seq<S3oVertex>, Seq<u32>),
    S3oError,
> {
    if d.len() < 52 {
        Err(S3oError::TooShort)
    } else if d.subrange(0, 12) != s3o_magic() {
        Err(S3oError::BadMagic)
    } else if le_i32_at(d, 12) != 0 {
        Err(S3oError::UnsupportedVersion(le_i32_at(d, 12) as i32))
    } else {
        let r = s3o_collect(
            d,
            le_u32_at(d, 36),
            None,
            (Seq::empty(), Seq::empty(), Seq::empty()),
            d.len() as nat,
            Seq::empty(),
        );
        match r.0 {
            Ok(_) => Ok(r.1),
            Err(e) => Err(e),
        }
    }
}

// -- Primitive expansion ------------------------------------------------------

/// Appends the triangle-list expansion of a triangle strip, offset by `base`.
pub fn expand_tristrip(raw: &[u32], base: u32, out: &mut Vec<u32>)
    ensures
        final(out)@ == old(out)@ + tristrip_spec(raw@, base),
{
    if raw.len() < 3 {
        assert(old(out)@ + tristrip_spec(raw@, base) =~= old(out)@);
        return;
    }
    let n = raw.len() - 2;
    let mut i: usize = 0;
    while i < n
        invariant
            0 <= i <= n,
            n == raw@.len() - 2,
            raw@.len() >= 3,
            out@ == old(out)@ + tristrip_prefix(raw@, base, i as nat),
        decreases n - i,
    {
        let a = base.wrapping_add(raw[i]);
        let b = base.wrapping_add(raw[i + 1]);
        let c = base.wrapping_add(raw[i + 2]);
        let ghost before = out@;
        if a == b || b == c || a == c {
        } else if i % 2 == 0 {
            out.push(a);
            out.push(b);
            out.push(c);
        } else {
            out.push(a);
            out.push(c);
            out.push(b);
        }
        proof {
            let ip = (i + 1) as nat;
            assert((ip - 1) as nat == i);
            if !(a == b || b == c || a == c) {
                if i % 2 == 0 {
                    assert(out@ =~= before + seq![a, b, c]);
                } else {
                    assert(out@ =~= before + seq![a, c, b]);
                }
            }
            assert(out@ =~= old(out)@ + tristrip_prefix(raw@, base, ip));
        }
        i = i + 1;
    }
}

/// Appends the triangle-list expansion of a quad list, offset by `base`.
pub fn expand_quads(raw: &[u32], base: u32, out: &mut Vec<u32>)
    ensures
        final(out)@ == old(out)@ + quads_spec(raw@, base),
{
    let len = raw.len();
    let quads = len / 4;
    let mut q: usize = 0;
    while q < quads
        invariant
            0 <= q <= quads,
            len == raw@.len(),
            quads == raw@.len() / 4,
            out@ == old(out)@ + quads_prefix(raw@, base, q as nat),
        decreases quads - q,
    {
        let i = q * 4;
        let a = base.wrapping_add(raw[i]);
        let b = base.wrapping_add(raw[i + 1]);
        let c = base.wrapping_add(raw[i + 2]);
        let d = base.wrapping_add(raw[i + 3]);
        let ghost before = out@;
        out.push(a);
        out.push(b);
        out.push(c);
        out.push(a);
        out.push(c);
        out.push(d);
        proof {
            let qp = (q + 1) as nat;
            assert((qp - 1) as nat == q);
            assert(out@ =~= before + seq![a, b, c, a, c, d]);
            assert(out@ =~= old(out)@ + quads_prefix(raw@, base, qp));
        }
        q = q + 1;
    }
}

/// Detect whether indices in this piece are stored as `(index << 8)`
/// (shifted) or as plain u32 (see [`detect_shift`]).
fn detect_index_shift(data: &[u8], index_offset: u64, num_indices: u64, num_vertices: u64) -> (r: bool)
    requires
        num_vertices < 0x1_0000_0000,
    ensures
        r == detect_shift(data@, index_offset as int, num_indices as int, num_vertices as int),
{
    if num_vertices == 0 {
        return false;
    }
    let check: u64 = if num_indices < 32 {
        num_indices
    } else {
        32
    };
    let dlen = data.len();
    let len = dlen as u64;
    let mut i: u64 = 0;
    while i < check
        invariant
            0 <= i <= check <= 32,
            len == data@.len(),
            dlen == data@.len(),
            num_vertices > 0,
            detect_shift_from(data@, index_offset as int, check as int, num_vertices as int, i as int)
                == detect_shift(data@, index_offset as int, num_indices as int, num_vertices as int),
        decreases check - i,
    {
        if index_offset > len || len - index_offset < 4 * i + 4 {
            return false;
        }
        let pos = (index_offset + 4 * i) as usize;
        assert(pos == index_offset + 4 * i);
        let v = read_u32_le(data, pos) as u64;
        assert(v == le_u32_at(data@, index_offset + 4 * i));
        if v == 0 {
        } else if v % 256 == 0 && v / 256 < num_vertices {
            return true;
        } else if v < num_vertices {
            return false;
        }
        i = i + 1;
    }
    false
}

/// Appends every raw index offset by `base`.
fn push_triangle_list(raw: &[u32], base: u32, out: &mut Vec<u32>)
    ensures
        final(out)@ == old(out)@ + triangle_list(raw@, base),
{
    let mut i: usize = 0;
    while i < raw.len()
        invariant
            0 <= i <= raw@.len(),
            out@ == old(out)@ + triangle_list(raw@.subrange(0, i as int), base),
        decreases raw@.len() - i,
    {
        let ghost before = out@;
        out.push(base.wrapping_add(raw[i]));
        assert(triangle_list(raw@.subrange(0, (i + 1) as int), base) =~= triangle_list(
            raw@.subrange(0, i as int),
            base,
        ).push(base.wrapping_add(raw@[i as int])));
        assert(out@ =~= old(out)@ + triangle_list(raw@.subrange(0, (i + 1) as int), base));
        i = i + 1;
    }
    assert(raw@.subrange(0, raw@.len() as int) =~= raw@);
}

/// The triangle-list indices of a piece whose `ni` index words start at
/// `io` (all within the data), offset by `base`.
fn piece_indices(data: &[u8], io: u64, ni: u64, nv: u64, prim: u32, base: u32) -> (tri: Vec<u32>)
    requires
        io + ni * 4 <= data@.len(),
        ni < 0x1_0000_0000,
        nv < 0x1_0000_0000,
    ensures
        tri@ == primitive_indices(prim as int, raw_indices(data@, io as int, ni as int, detect_shift(data@, io as int, ni as int, nv as int)), base),
{
    let ghost d = data@;
    let dlen = data.len();
    let len = dlen as u64;
    let use_shift = detect_index_shift(data, io, ni, nv);
    let mut raw: Vec<u32> = Vec::new();
    let mut i: u64 = 0;
    while i < ni
        invariant
            0 <= i <= ni,
            io + ni * 4 <= len,
            len == d.len(),
            dlen == d.len(),
            d == data@,
            raw@ == raw_indices(d, io as int, i as int, use_shift),
        decreases ni - i,
    {
        let v = read_u32_le(data, (io + 4 * i) as usize);
        let w = if use_shift {
            v / 256
        } else {
            v
        };
        raw.push(w);
        assert(raw_indices(d, io as int, (i + 1) as int, use_shift) =~= raw_indices(d, io as int, i as int, use_shift).push(w));
        i = i + 1;
    }
    let mut tri: Vec<u32> = Vec::new();
    if prim == 0 {
        push_triangle_list(&raw, base, &mut tri);
    } else if prim == 1 {
        expand_tristrip(&raw, base, &mut tri);
    } else if prim == 2 {
        expand_quads(&raw, base, &mut tri);
    }
    assert(tri@ =~= primitive_indices(prim as int, raw@, base));
    tri
}

/// Whether `path` holds `off`.
fn path_contains(path: &Vec<u64>, off: u64) -> (r: bool)
    ensures
        r == path@.contains(off),
{
    let mut i: usize = 0;
    while i < path.len()
        invariant
            0 <= i <= path@.len(),
            forall|j: int| 0 <= j < i ==> path@[j] != off,
        decreases path@.len() - i,
    {
        if path[i] == off {
            assert(path@[i as int] == off);
            return true;
        }
        i = i + 1;
    }
    false
}

/// A copy of `path`.
fn copy_path(path: &Vec<u64>) -> (r: Vec<u64>)
    ensures
        r@ == path@,
{
    let mut r: Vec<u64> = Vec::new();
    let mut i: usize = 0;
    while i < path.len()
        invariant
            0 <= i <= path@.len(),
            r@ == path@.subrange(0, i as int),
        decreases path@.len() - i,
    {
        r.push(path[i]);
        assert(path@.subrange(0, (i + 1) as int) =~= path@.subrange(0, i as int).push(path@[i as int]));
        i = i + 1;
    }
    assert(path@.subrange(0, path@.len() as int) =~= path@);
    r
}

/// Checks [`indices_from`].
fn indices_from_exec(idx: &Vec<u32>, base: u32) -> (r: bool)
    ensures
        r == indices_from(idx@, base),
{
    let mut i: usize = 0;
    while i < idx.len()
        invariant
            0 <= i <= idx@.len(),
            forall|j: int| 0 <= j < i ==> #[trigger] idx@[j] >= base,
        decreases idx@.len() - i,
    {
        if idx[i] < base {
            return false;
        }
        i = i + 1;
    }
    true
}

/// Whether `idx` is a triangle list over `nv` vertices.
fn triangle_list_ok(idx: &Vec<u32>, nv: usize) -> (r: bool)
    ensures
        r == is_triangle_list(idx@, nv as int),
{
    if idx.len() % 3 != 0 {
        return false;
    }
    let mut i: usize = 0;
    while i < idx.len()
        invariant
            0 <= i <= idx@.len(),
            forall|j: int| 0 <= j < i ==> #[trigger] idx@[j] < nv,
        decreases idx@.len() - i,
    {
        if idx[i] as usize >= nv {
            return false;
        }
        i = i + 1;
    }
    true
}

/// Appends `src` to `out`.
fn append_indices(out: &mut Vec<u32>, src: &Vec<u32>)
    ensures
        final(out)@ == old(out)@ + src@,
{
    let mut i: usize = 0;
    while i < src.len()
        invariant
            0 <= i <= src@.len(),
            out@ == old(out)@ + src@.subrange(0, i as int),
        decreases src@.len() - i,
    {
        out.push(src[i]);
        assert(src@.subrange(0, (i + 1) as int) =~= src@.subrange(0, i as int).push(src@[i as int]));
        i = i + 1;
    }
    assert(src@.subrange(0, src@.len() as int) =~= src@);
}

fn read_vertex(data: &[u8], off: usize, piece: usize) -> (v: S3oVertex)
    requires
        off + 32 <= data@.len(),
    ensures
        v == vertex_at(data@, off as int, piece),
{
    let dlen = data.len();
    assert(off + 32 <= dlen);
    S3oVertex {
        piece,
        position: (read_u32_le(data, off), read_u32_le(data, off + 4), read_u32_le(data, off + 8)),
        normal: (
            read_u32_le(data, off + 12),
            read_u32_le(data, off + 16),
            read_u32_le(data, off + 20),
        ),
        uv: (read_u32_le(data, off + 24), read_u32_le(data, off + 28)),
    }
}

/// Appends the `nv` vertices stored from byte `vo`, tagged with piece `pidx`.
fn push_piece_vertices(data: &[u8], vo: u64, nv: u64, pidx: usize, out: &mut Vec<S3oVertex>)
    requires
        vo + nv * 32 <= data@.len(),
    ensures
        final(out)@ == old(out)@ + piece_vertices(data@, vo as int, nv as int, pidx),
{
    let ghost d = data@;
    let dlen = data.len();
    let len = dlen as u64;
    let mut i: u64 = 0;
    while i < nv
        invariant
            0 <= i <= nv,
            vo + nv * 32 <= len,
            len == d.len(),
            dlen == d.len(),
            d == data@,
            out@ == old(out)@ + piece_vertices(d, vo as int, i as int, pidx),
        decreases nv - i,
    {
        assert(vo + 32 * i + 32 <= vo + nv * 32) by (nonlinear_arith)
            requires
                i < nv,
        ;
        let v = read_vertex(data, (vo + 32 * i) as usize, pidx);
        out.push(v);
        assert(piece_vertices(d, vo as int, (i + 1) as int, pidx) =~= piece_vertices(d, vo as int, i as int, pidx).push(v));
        i = i + 1;
    }
}

#[verifier::rlimit(100)]
#[verifier::spinoff_prover]
fn collect_piece(
    data: &[u8],
    piece_off: u64,
    parent: Option<usize>,
    mesh: &mut S3oMesh,
    fuel: u64,
    path: &Vec<u64>,
) -> (r: Result<(), S3oError>)
    requires
        is_triangle_list(old(mesh).indices@, old(mesh).vertices@.len() as int),
    ensures
        r == s3o_collect(data@, piece_off as int, parent, old(mesh)@, fuel as nat, path@).0,
        final(mesh)@ == s3o_collect(data@, piece_off as int, parent, old(mesh)@, fuel as nat, path@).1,
        is_triangle_list(final(mesh).indices@, final(mesh).vertices@.len() as int),
    decreases fuel,
{
    reveal(s3o_collect);
    let ghost d = data@;
    let ghost st = mesh@;
    let dlen = data.len();
    let len = dlen as u64;
    if fuel == 0 {
        return Err(S3oError::OutOfBounds { offset: piece_off, len });
    }
    if piece_off > len || len - piece_off < 52 {
        return Err(S3oError::OutOfBounds { offset: piece_off, len });
    }
    let off = piece_off as usize;
    let num_children = read_u32_le(data, off + 4) as u64;
    let num_vertices = read_u32_le(data, off + 12) as u64;
    let vertex_offset = read_u32_le(data, off + 16) as u64;
    let primitive_type = read_u32_le(data, off + 24);
    let num_indices = read_u32_le(data, off + 28) as u64;
    let index_offset = read_u32_le(data, off + 32) as u64;
    let x_off = read_u32_le(data, off + 40);
    let y_off = read_u32_le(data, off + 44);
    let z_off = read_u32_le(data, off + 48);
    let pidx = mesh.pieces.len();
    let base = (mesh.vertices.len() as u64 % 0x1_0000_0000) as u32;
    mesh.pieces.push(S3oPiece { parent, offset: (x_off, y_off, z_off) });
    let ghost st1 = mesh@;
    assert(st1 == (st.0.push(S3oPiece { parent, offset: (x_off, y_off, z_off) }), st.1, st.2));
    if num_vertices > 0 {
        let verts_end = vertex_offset + num_vertices * 32;
        if verts_end > len {
            return Err(S3oError::OutOfBounds { offset: verts_end, len });
        }
        push_piece_vertices(data, vertex_offset, num_vertices, pidx, &mut mesh.vertices);
    }
    let ghost st2 = mesh@;
    let mut tri: Vec<u32> = Vec::new();
    if num_indices > 0 {
        let idx_end = index_offset + num_indices * 4;
        if idx_end > len {
            return Err(S3oError::OutOfBounds { offset: idx_end, len });
        }
        tri = piece_indices(data, index_offset, num_indices, num_vertices, primitive_type, base);
    }
    if !triangle_list_ok(&tri, mesh.vertices.len()) || !indices_from_exec(&tri, base) {
        return Err(S3oError::BadIndices { offset: piece_off });
    }
    append_indices(&mut mesh.indices, &tri);
    let ghost st3 = mesh@;
    assert(st3 =~= (st2.0, st2.1, st2.2 + tri@));
    if num_children > 0 && vertex_offset + 4 * num_children <= len {
        let mut inner: Vec<u64> = copy_path(path);
        inner.push(piece_off);
        let ghost ip = inner@;
        assert(ip == path@.push(piece_off as int as u64));
        let mut i: u64 = 0;
        while i < num_children
            invariant
                0 <= i <= num_children,
                num_children < 0x1_0000_0000,
                vertex_offset + 4 * num_children <= len,
                len == d.len(),
                dlen == d.len(),
                d == data@,
                fuel >= 1,
                is_triangle_list(mesh.indices@, mesh.vertices@.len() as int),
                inner@ == ip,
                s3o_children(d, vertex_offset as int, num_children as int, i as int, pidx, mesh@, (fuel - 1) as nat, ip)
                    == s3o_children(d, vertex_offset as int, num_children as int, 0, pidx, st3, (fuel - 1) as nat, ip),
            decreases num_children - i,
        {
            let pos = (vertex_offset + 4 * i) as usize;
            assert(pos == vertex_offset + 4 * i);
            let child_off = read_u32_le(data, pos) as u64;
            let ghost before = mesh@;
            assert(child_off == le_u32_at(d, vertex_offset as int + 4 * (i as int)));
            assert(!(i >= num_children || num_children >= 0x1_0000_0000 || i < 0));
            if !path_contains(&inner, child_off) {
                let _ = collect_piece(data, child_off, Some(pidx), mesh, fuel - 1, &inner);
                proof {
                    reveal(s3o_collect);
                    assert(s3o_children(d, vertex_offset as int, num_children as int, i as int, pidx, before, (fuel - 1) as nat, ip)
                        == s3o_children(d, vertex_offset as int, num_children as int, i + 1, pidx,
                            s3o_collect(d, child_off as int, Some(pidx), before, (fuel - 1) as nat, ip).1, (fuel - 1) as nat, ip));
                }
            } else {
                assert(s3o_children(d, vertex_offset as int, num_children as int, i as int, pidx, before, (fuel - 1) as nat, ip)
                    == s3o_children(d, vertex_offset as int, num_children as int, i + 1, pidx, before, (fuel - 1) as nat, ip));
            }
            i = i + 1;
        }
    }
    Ok(())
}

// -- Public entry point -------------------------------------------------------

/// Parse a Spring S3O model from raw bytes.
///
/// Returns a flat merged mesh: every piece in visiting order, every vertex
/// tagged with its piece, and a triangle list.  Primitive types 0
/// (triangles), 1 (tristrip), and 2 (quads) are all normalised to a
/// triangle list; pieces of other primitive types contribute no indices.
/// A piece whose indices do not form a triangle list over the vertices
/// read so far fails with [`S3oError::BadIndices`].  Errors in the root
/// piece fail the parse; errors in child pieces only stop that child
/// (whatever it appended before the error stays).
pub fn parse_s3o(data: &[u8]) -> (r: Result<S3oMesh, S3oError>)
    ensures
        r matches Ok(m) ==> s3o_parse_spec(data@) == Ok::<_, S3oError>(m@),
        r matches Ok(m) ==> is_triangle_list(m.indices@, m.vertices@.len() as int),
        r matches Err(e) ==> s3o_parse_spec(data@) == Err::<(Seq<S3oPiece>, Seq<S3oVertex>, Seq<u32>), _>(e),
{
    let dlen = data.len();
    if dlen < 52 {
        return Err(S3oError::TooShort);
    }
    let magic: [u8; 12] = [83, 112, 114, 105, 110, 103, 32, 117, 110, 105, 116, 0];
    let mut i: usize = 0;
    while i < 12
        invariant
            0 <= i <= 12,
            dlen == data@.len(),
            dlen >= 52,
            magic@ == s3o_magic(),
            forall|j: int| 0 <= j < i ==> data@[j] == s3o_magic()[j],
        decreases 12 - i,
    {
        if data[i] != magic[i] {
            assert(data@.subrange(0, 12)[i as int] != s3o_magic()[i as int]);
            return Err(S3oError::BadMagic);
        }
        i = i + 1;
    }
    assert(data@.subrange(0, 12) =~= s3o_magic());
    let version = read_i32_le(data, 12);
    if version != 0 {
        return Err(S3oError::UnsupportedVersion(version));
    }
    let root_offset = read_u32_le(data, 36) as u64;
    let mut mesh = S3oMesh { pieces: Vec::new(), vertices: Vec::new(), indices: Vec::new() };
    assert(mesh@ == (Seq::<S3oPiece>::empty(), Seq::<S3oVertex>::empty(), Seq::<u32>::empty()));
    let path: Vec<u64> = Vec::new();
    assert(path@ =~= Seq::<u64>::empty());
    match collect_piece(data, root_offset, None, &mut mesh, dlen as u64, &path) {
        Ok(()) => Ok(mesh),
        Err(e) => Err(e),
    }
}

impl S3oError {
    /// The error's message, as its `Display` text reads.
    pub fn message(&self) -> (r: String)
        ensures
            r@ == match *self {
                S3oError::TooShort => "data too short for S3O header"@,
                S3oError::BadMagic => "bad S3O magic"@,
                S3oError::UnsupportedVersion(v) => "unsupported S3O version "@ + crate::text::decimal_text(v as int),
                S3oError::OutOfBounds { offset, len } => "S3O offset "@ + crate::text::decimal_text(offset as int)
                    + " out of bounds (file len="@ + crate::text::decimal_text(len as int) + ")"@,
                S3oError::BadIndices { offset } => "S3O piece at offset "@ + crate::text::decimal_text(offset as int)
                    + " is not a triangle list over its vertices"@,
            },
    {
        match *self {
            S3oError::TooShort => String::from_str("data too short for S3O header"),
            S3oError::BadMagic => String::from_str("bad S3O magic"),
            S3oError::UnsupportedVersion(v) => {
                let mut s = String::from_str("unsupported S3O version ");
                crate::text::push_decimal(&mut s, v);
                s
            },
            S3oError::OutOfBounds { offset, len } => {
                let mut s = String::from_str("S3O offset ");
                crate::text::push_decimal_u64(&mut s, offset);
                s.append(" out of bounds (file len=");
                crate::text::push_decimal_u64(&mut s, len);
                s.append(")");
                s
            },
            S3oError::BadIndices { offset } => {
                let mut s = String::from_str("S3O piece at offset ");
                crate::text::push_decimal_u64(&mut s, offset);
                s.append(" is not a triangle list over its vertices");
                s
            },
        }
    }
}

} // verus!
