use bar_data::s3o::{expand_quads, expand_tristrip, parse_s3o, S3oError};

/// Build a minimal valid S3O in memory: one piece, one triangle.
///
/// Layout (matching the BAR map-bundled field positions):
///   0..52:   header
///  52..104:  piece struct (52 bytes)
/// 104..200:  3 vertices x 32 bytes
/// 200..212:  3 indices x 4 bytes (plain u32)
fn minimal_s3o() -> Vec<u8> {
    let piece_offset: u32 = 52;
    let vertex_offset: u32 = 104; // piece+16
    let index_offset: u32 = 200; // piece+32

    let mut buf = vec![0u8; 212];

    // Header
    buf[0..12].copy_from_slice(b"Spring unit\0");
    buf[36..40].copy_from_slice(&piece_offset.to_le_bytes());
    // tex string offsets at header+44/48 -- point past end (empty strings)
    let len = buf.len() as u32;
    buf[44..48].copy_from_slice(&len.to_le_bytes());
    buf[48..52].copy_from_slice(&len.to_le_bytes());

    // Piece at offset 52
    let p = 52usize;
    buf[p + 12..p + 16].copy_from_slice(&3u32.to_le_bytes());
    buf[p + 16..p + 20].copy_from_slice(&vertex_offset.to_le_bytes());
    buf[p + 24..p + 28].copy_from_slice(&0u32.to_le_bytes());
    buf[p + 28..p + 32].copy_from_slice(&3u32.to_le_bytes());
    buf[p + 32..p + 36].copy_from_slice(&index_offset.to_le_bytes());

    // Vertices at offset 104 (32 bytes each)
    let verts: &[[f32; 8]] = &[
        [0.0, 0.0, 0.0, 0.0, 1.0, 0.0, 0.0, 0.0], // pos + normal + uv
        [1.0, 0.0, 0.0, 0.0, 1.0, 0.0, 1.0, 0.0],
        [0.0, 0.0, 1.0, 0.0, 1.0, 0.0, 0.0, 1.0],
    ];
    for (i, v) in verts.iter().enumerate() {
        let base = 104 + i * 32;
        for (j, f) in v.iter().enumerate() {
            buf[base + j * 4..base + j * 4 + 4].copy_from_slice(&f.to_le_bytes());
        }
    }

    // Indices at offset 200 (plain u32)
    buf[200..204].copy_from_slice(&0u32.to_le_bytes());
    buf[204..208].copy_from_slice(&1u32.to_le_bytes());
    buf[208..212].copy_from_slice(&2u32.to_le_bytes());

    buf
}

#[test]
fn parse_minimal_s3o() {
    let data = minimal_s3o();
    let mesh = parse_s3o(&data).expect("should parse");
    assert_eq!(mesh.vertices.len(), 3);
    assert_eq!(mesh.indices.len(), 3);
    assert_eq!(mesh.indices[0], 0);
    assert_eq!(mesh.indices[1], 1);
    assert_eq!(mesh.indices[2], 2);
}

#[test]
fn aabb_matches_vertices() {
    let data = minimal_s3o();
    let mesh = parse_s3o(&data).expect("should parse");
    // The bounding box of the (single, root) piece's vertex positions.
    let mut aabb_min = [f32::MAX; 3];
    let mut aabb_max = [f32::MIN; 3];
    for v in &mesh.vertices {
        let p = [f32::from_bits(v.position.0), f32::from_bits(v.position.1), f32::from_bits(v.position.2)];
        for k in 0..3 {
            aabb_min[k] = aabb_min[k].min(p[k]);
            aabb_max[k] = aabb_max[k].max(p[k]);
        }
    }
    // x range: 0..1, y range: 0..0, z range: 0..1
    assert!((aabb_min[0] - 0.0).abs() < 1e-5);
    assert!((aabb_max[0] - 1.0).abs() < 1e-5);
    assert!((aabb_min[2] - 0.0).abs() < 1e-5);
    assert!((aabb_max[2] - 1.0).abs() < 1e-5);
}

#[test]
fn bad_magic_rejected() {
    let mut data = minimal_s3o();
    data[0] = b'X';
    assert!(matches!(parse_s3o(&data), Err(S3oError::BadMagic)));
}

#[test]
fn too_short_rejected() {
    let data = vec![0u8; 10];
    assert!(matches!(parse_s3o(&data), Err(S3oError::TooShort)));
}

#[test]
fn tristrip_expands_correctly() {
    // Strip [0,1,2,3] -> triangles [0,1,2] and [1,3,2] (winding alternates)
    let mut out = Vec::new();
    expand_tristrip(&[0, 1, 2, 3], 0, &mut out);
    assert_eq!(out.len(), 6);
    assert_eq!(&out[..3], &[0, 1, 2]);
    assert_eq!(&out[3..], &[1, 3, 2]);
}

#[test]
fn quad_expands_to_two_triangles() {
    let mut out = Vec::new();
    expand_quads(&[0, 1, 2, 3], 0, &mut out);
    assert_eq!(out.len(), 6);
    assert_eq!(&out, &[0, 1, 2, 0, 2, 3]);
}

/// Verify that shifted index encoding (index << 8) is detected and decoded.
#[test]
fn shifted_index_encoding_detected() {
    let mut data = minimal_s3o();
    // Rewrite the 3 indices as (index << 8) form.
    let idx_base = 200usize;
    data[idx_base..idx_base + 4].copy_from_slice(&0u32.to_le_bytes()); // 0<<8 = 0
    data[idx_base + 4..idx_base + 8].copy_from_slice(&256u32.to_le_bytes()); // 1<<8 = 256
    data[idx_base + 8..idx_base + 12].copy_from_slice(&512u32.to_le_bytes()); // 2<<8 = 512
    let mesh = parse_s3o(&data).expect("should parse with shifted encoding");
    assert_eq!(mesh.indices, vec![0, 1, 2]);
}

// -- Further cases -----------------------------------------------------------------

#[test]
fn unsupported_version_rejected() {
    let mut data = minimal_s3o();
    data[12..16].copy_from_slice(&7i32.to_le_bytes());
    assert!(matches!(parse_s3o(&data), Err(S3oError::UnsupportedVersion(7))));
}

#[test]
fn piece_out_of_bounds_rejected() {
    let mut data = minimal_s3o();
    data[36..40].copy_from_slice(&400u32.to_le_bytes());
    assert!(matches!(parse_s3o(&data), Err(S3oError::OutOfBounds { .. })));
}

#[test]
fn strip_and_quads_offset_by_base() {
    let mut out = vec![99];
    expand_tristrip(&[0, 1, 2, 3, 4], 10, &mut out);
    assert_eq!(out, vec![99, 10, 11, 12, 11, 13, 12, 12, 13, 14]);
    let mut q = Vec::new();
    expand_quads(&[0, 1, 2, 3, 4, 5], 100, &mut q);
    // The incomplete trailing quad is dropped.
    assert_eq!(q, vec![100, 101, 102, 100, 102, 103]);
}

#[test]
fn vertex_positions_kept_as_bits() {
    let data = minimal_s3o();
    let mesh = parse_s3o(&data).unwrap();
    assert_eq!(mesh.vertices[1].position.0, 1.0f32.to_bits());
    assert_eq!(mesh.vertices[2].uv.1, 1.0f32.to_bits());
    assert_eq!(mesh.vertices[0].normal.1, 1.0f32.to_bits());
    assert_eq!(mesh.pieces.len(), 1);
    assert_eq!(mesh.pieces[0].parent, None);
}

#[test]
fn error_messages() {
    assert_eq!(S3oError::TooShort.message(), "data too short for S3O header");
    assert_eq!(S3oError::BadMagic.message(), "bad S3O magic");
    assert_eq!(S3oError::UnsupportedVersion(-3).message(), "unsupported S3O version -3");
    assert_eq!(
        S3oError::OutOfBounds { offset: 400, len: 212 }.message(),
        "S3O offset 400 out of bounds (file len=212)"
    );
}

#[test]
fn index_past_last_vertex_rejected() {
    let mut data = minimal_s3o();
    data[208..212].copy_from_slice(&3u32.to_le_bytes());
    assert_eq!(parse_s3o(&data).err(), Some(S3oError::BadIndices { offset: 52 }));
}

#[test]
fn partial_triangle_rejected() {
    let mut data = minimal_s3o();
    // Declare two indices only: not a whole triangle.
    data[52 + 28..52 + 32].copy_from_slice(&2u32.to_le_bytes());
    assert_eq!(parse_s3o(&data).err(), Some(S3oError::BadIndices { offset: 52 }));
}

#[test]
fn parsed_indices_form_a_triangle_list() {
    let mesh = parse_s3o(&minimal_s3o()).unwrap();
    assert_eq!(mesh.indices.len() % 3, 0);
    assert!(mesh.indices.iter().all(|&i| (i as usize) < mesh.vertices.len()));
}

#[test]
fn bad_indices_message() {
    assert_eq!(
        S3oError::BadIndices { offset: 52 }.message(),
        "S3O piece at offset 52 is not a triangle list over its vertices"
    );
}

#[test]
fn child_table_looping_back_is_skipped() {
    let mut data = minimal_s3o();
    // Two children, both the root piece itself (the child table shares the
    // vertex offset field, so it overlays the first vertex's x and y).
    data[52 + 4..52 + 8].copy_from_slice(&2u32.to_le_bytes());
    data[104..108].copy_from_slice(&52u32.to_le_bytes());
    data[108..112].copy_from_slice(&52u32.to_le_bytes());
    let mesh = parse_s3o(&data).expect("parses");
    assert_eq!(mesh.pieces.len(), 1);
    assert_eq!(mesh.vertices.len(), 3);
    assert_eq!(mesh.indices, vec![0, 1, 2]);
}
