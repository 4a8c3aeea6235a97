use bar_data::sd7::{Sd7Error, SmfFeaturePlacement, SmfHeader, SmfMap, SMF_VERSION};

/// 16-bit height sample for a normalized height, as the editor quantizes it.
fn quantize(v: f32) -> u16 {
    (v.clamp(0.0, 1.0) * 65535.0) as u16
}

fn dequantize(s: u16) -> f32 {
    s as f32 / 65535.0
}

#[test]
fn test_header_dimensions() {
    // mapx=4096 means heightmap of (4096+1) = 4097 samples
    let header = SmfHeader::new(4096, 4096);
    let (w, h) = header.heightmap_size();
    assert_eq!(w, 4097);
    assert_eq!(h, 4097);

    let (mw, mh) = header.metalmap_size();
    assert_eq!(mw, 2048);
    assert_eq!(mh, 2048);
}

#[test]
fn test_smf_roundtrip() {
    // mapx=128, mapy=128 → heightmap 129×129, metalmap 64×64
    let mut map = SmfMap::new(128, 128).unwrap();

    // Set some height values
    let (hw, _) = map.header.heightmap_size();
    map.heightmap[0] = quantize(0.5);
    map.heightmap[4 * hw as usize + 4] = quantize(1.0);

    // Set metalmap values
    map.metalmap[0] = 128;
    map.metalmap[1] = 255;

    // Set typemap values
    map.typemap[0] = 1;
    map.typemap[2] = 3;

    // Write to buffer
    let mut buf = Vec::new();
    map.write(&mut buf);

    // Read back
    let loaded = SmfMap::read(&buf).unwrap();

    // Verify header
    assert_eq!(loaded.header.map_x, 128);
    assert_eq!(loaded.header.map_y, 128);

    // Verify heightmap (u16 quantization allows small error)
    let orig_val = 0.5f32;
    let loaded_val = dequantize(loaded.heightmap[0]);
    assert!((orig_val - loaded_val).abs() < 0.001);

    // Verify metalmap
    assert_eq!(loaded.metalmap[0], 128);
    assert_eq!(loaded.metalmap[1], 255);

    // Verify typemap
    assert_eq!(loaded.typemap[0], 1);
    assert_eq!(loaded.typemap[2], 3);

    // Verify SMT filename and tile indices are read back
    assert!(!loaded.smt_filename.is_empty());
    let (tiles_x, tiles_y) = loaded.header.tile_grid_size();
    let expected_indices = (tiles_x * tiles_y) as usize;
    assert_eq!(
        loaded.tile_indices.len(),
        expected_indices,
        "expected {expected_indices} tile indices ({}×{})",
        tiles_x,
        tiles_y
    );
    // Sequential tile indices
    for (i, &idx) in loaded.tile_indices.iter().enumerate() {
        assert_eq!(idx, i as i32, "tile index {i} mismatch");
    }
}

#[test]
fn test_smf_feature_roundtrip() {
    let mut map = SmfMap::new(128, 128).unwrap();
    map.features = vec![
        SmfFeaturePlacement {
            feature_type: b"arborreal".to_vec(),
            x: 512.0f32.to_bits(),
            y: 0.0f32.to_bits(),
            z: 768.0f32.to_bits(),
            angle: std::f32::consts::FRAC_PI_2.to_bits(),
            taken_damage: 0,
        },
        SmfFeaturePlacement {
            feature_type: b"GeoTherm_Lava_Rock".to_vec(),
            x: 100.0f32.to_bits(),
            y: 0.0f32.to_bits(),
            z: 200.0f32.to_bits(),
            angle: 0.0f32.to_bits(),
            taken_damage: 5,
        },
        // Second arborreal -- type table must deduplicate
        SmfFeaturePlacement {
            feature_type: b"arborreal".to_vec(),
            x: 300.0f32.to_bits(),
            y: 0.0f32.to_bits(),
            z: 400.0f32.to_bits(),
            angle: std::f32::consts::PI.to_bits(),
            taken_damage: 0,
        },
    ];

    let mut buf = Vec::new();
    map.write(&mut buf);
    let loaded = SmfMap::read(&buf).unwrap();

    assert_eq!(loaded.features.len(), 3);
    assert_eq!(loaded.features[0].feature_type, b"arborreal".to_vec());
    assert!((f32::from_bits(loaded.features[0].x) - 512.0).abs() < 0.001);
    assert!((f32::from_bits(loaded.features[0].z) - 768.0).abs() < 0.001);
    assert!((f32::from_bits(loaded.features[0].angle) - std::f32::consts::FRAC_PI_2).abs() < 0.001);
    assert_eq!(loaded.features[1].feature_type, b"GeoTherm_Lava_Rock".to_vec());
    assert_eq!(loaded.features[1].taken_damage, 5);
    assert_eq!(loaded.features[2].feature_type, b"arborreal".to_vec());
    assert!((f32::from_bits(loaded.features[2].angle) - std::f32::consts::PI).abs() < 0.001);
}

#[test]
fn test_invalid_magic() {
    let buf = vec![0u8; 100];
    let result = SmfHeader::read(&buf);
    assert!(result.is_err());
}

// -- Further cases -----------------------------------------------------------------

#[test]
fn header_write_read_roundtrip() {
    let mut h = SmfHeader::new(64, 32);
    h.map_id = -7;
    h.featuremap_ptr = 12345;
    h.min_height_bits = (-100.0f32).to_bits();
    let mut buf = Vec::new();
    h.write(&mut buf);
    assert_eq!(buf.len(), 80);
    assert_eq!(&buf[..16], b"spring map file\0");
    assert_eq!(SmfHeader::read(&buf), Ok(h));
}

#[test]
fn header_errors() {
    assert_eq!(SmfHeader::read(&[0u8; 10]), Err(Sd7Error::UnexpectedEof));
    let mut buf = Vec::new();
    SmfHeader::new(8, 8).write(&mut buf);
    let mut wrong = buf.clone();
    wrong[0] = b'S';
    assert_eq!(
        SmfHeader::read(&wrong),
        Err(Sd7Error::InvalidMagic { expected: u32::from_le_bytes(*b"spri"), actual: u32::from_le_bytes(*b"Spri") })
    );
    let mut v2 = buf.clone();
    v2[16..20].copy_from_slice(&2i32.to_le_bytes());
    assert_eq!(SmfHeader::read(&v2), Err(Sd7Error::UnsupportedVersion(2)));
    assert_eq!(SmfHeader::read(&buf[..79]), Err(Sd7Error::UnexpectedEof));
}

#[test]
fn header_default_values() {
    let h = SmfHeader::new(16, 24);
    assert_eq!(h.version, SMF_VERSION);
    assert_eq!(f32::from_bits(h.max_height_bits), 800.0);
    assert_eq!(f32::from_bits(h.min_height_bits), 0.0);
    assert_eq!(h.texture_size(), (128, 192));
    assert_eq!(h.tile_grid_size(), (4, 6));
    assert_eq!(h.typemap_size(), (8, 12));
    assert_eq!(SmfHeader::new(-5, 7).metalmap_size(), ((-2i32) as u32, 3));
}

#[test]
fn new_map_rejects_empty_heightmap() {
    assert!(matches!(SmfMap::new(-1, 8), Err(Sd7Error::Heightmap(_))));
    let m = SmfMap::new(2, 4).unwrap();
    assert_eq!(m.heightmap.len(), 3 * 5);
    assert_eq!(m.metalmap.len(), 2);
    assert_eq!(m.typemap, vec![0, 0]);
}

#[test]
fn written_layout_offsets() {
    let map = SmfMap::new(8, 8).unwrap();
    let mut buf = Vec::new();
    map.write(&mut buf);
    let h = SmfHeader::read(&buf).unwrap();
    let hm = 9 * 9;
    let mm = 4 * 4;
    let tiles = 2 * 2;
    assert_eq!(h.heightmap_ptr, 80);
    assert_eq!(h.typemap_ptr, 80 + 2 * hm);
    assert_eq!(h.tilesmap_ptr, h.typemap_ptr + mm);
    // Tile section: counts, one file ("maps/unknown.smt" + NUL), indices.
    assert_eq!(h.minimap_ptr, h.tilesmap_ptr + 12 + 17 + 4 * tiles);
    assert_eq!(h.metalmap_ptr, h.minimap_ptr + 699048);
    assert_eq!(h.featuremap_ptr, h.metalmap_ptr + mm);
    assert_eq!(buf.len() as i32, h.featuremap_ptr + 8);
    // Placeholder minimap block: dark green RGB565 endpoints.
    let mp = h.minimap_ptr as usize;
    assert_eq!(&buf[mp..mp + 8], &[0xE0, 0x03, 0xE0, 0x03, 0, 0, 0, 0]);
    let loaded = SmfMap::read(&buf).unwrap();
    assert_eq!(loaded.smt_filename, b"maps/unknown.smt".to_vec());
    assert!(loaded.minimap_dxt1.is_empty());
}

#[test]
fn read_reports_truncated_heightmap() {
    let map = SmfMap::new(8, 8).unwrap();
    let mut buf = Vec::new();
    map.write(&mut buf);
    assert_eq!(SmfMap::read(&buf[..100]).err(), Some(Sd7Error::UnexpectedEof));
}

#[test]
fn feature_section_is_optional() {
    let mut map = SmfMap::new(8, 8).unwrap();
    map.smt_filename = b"maps/x.smt".to_vec();
    map.features = vec![SmfFeaturePlacement {
        feature_type: b"rock".to_vec(),
        x: 1,
        y: 2,
        z: 3,
        angle: 4,
        taken_damage: -3,
    }];
    let mut buf = Vec::new();
    map.write(&mut buf);
    let full = SmfMap::read(&buf).unwrap();
    assert_eq!(full.features.len(), 1);
    assert_eq!(full.features[0].taken_damage, -3);
    assert_eq!(full.smt_filename, b"maps/x.smt".to_vec());
    // Cutting the last record leaves the map readable without features.
    let cut = SmfMap::read(&buf[..buf.len() - 1]).unwrap();
    assert!(cut.features.is_empty());
}

#[test]
fn feature_type_text_decodes_utf8_lossily() {
    let mut f = SmfFeaturePlacement {
        feature_type: b"arborreal".to_vec(),
        x: 0,
        y: 0,
        z: 0,
        angle: 0,
        taken_damage: 0,
    };
    assert_eq!(f.feature_type_text(), "arborreal");
    f.feature_type = "Größe".as_bytes().to_vec();
    assert_eq!(f.feature_type_text(), "Größe");
    f.feature_type = vec![0x66, 0xFF, 0x67];
    assert_eq!(f.feature_type_text(), "f\u{FFFD}g");
}
