use bar_data::water_assets::{
    assemble_water_assets, caustic_entry_name, decode_water_texture, water_entry_names, WaterAssetError, WaterTexture,
    CAUSTIC_FRAMES,
};

/// Round-trip the entry-name format against the engine reference
/// (`IntToString(i, "bitmaps/caustics/caustic%02i.jpg")`).
#[test]
fn caustic_entry_names_match_engine_format() {
    assert_eq!(
        format!("bitmaps/caustics/caustic{:02}.jpg", 0),
        "bitmaps/caustics/caustic00.jpg"
    );
    assert_eq!(
        format!("bitmaps/caustics/caustic{:02}.jpg", 31),
        "bitmaps/caustics/caustic31.jpg"
    );
    assert_eq!(caustic_entry_name(0), "bitmaps/caustics/caustic00.jpg");
    assert_eq!(caustic_entry_name(31), "bitmaps/caustics/caustic31.jpg");
}

#[test]
fn entry_list_order() {
    let names = water_entry_names();
    assert_eq!(names.len(), 2 + CAUSTIC_FRAMES as usize);
    assert_eq!(names[0], "bitmaps/foam.jpg");
    assert_eq!(names[1], "bitmaps/shorewaverand.png");
    for i in 0..CAUSTIC_FRAMES {
        assert_eq!(names[2 + i as usize], format!("bitmaps/caustics/caustic{i:02}.jpg"));
    }
}

#[test]
fn decode_png_entry() {
    let img = image::RgbaImage::from_raw(2, 1, vec![1, 2, 3, 4, 5, 6, 7, 8]).unwrap();
    let mut png = Vec::new();
    img.write_to(&mut std::io::Cursor::new(&mut png), image::ImageFormat::Png).unwrap();
    let tex = decode_water_texture(&"bitmaps/shorewaverand.png".to_string(), &png).unwrap();
    assert_eq!((tex.width, tex.height), (2, 1));
    assert_eq!(tex.rgba, vec![1, 2, 3, 4, 5, 6, 7, 8]);
}

#[test]
fn undecodable_entry_reports_its_name() {
    match decode_water_texture(&"bitmaps/foam.jpg".to_string(), b"nope") {
        Err(WaterAssetError::ImageDecode { entry }) => assert_eq!(entry, "bitmaps/foam.jpg"),
        other => panic!("unexpected {other:?}"),
    }
}

#[test]
fn assemble_keeps_entry_order() {
    let texs: Vec<WaterTexture> =
        (0..34u32).map(|i| WaterTexture { rgba: vec![i as u8], width: i, height: 1 }).collect();
    let set = assemble_water_assets(texs);
    assert_eq!(set.foam.width, 0);
    assert_eq!(set.waverand.width, 1);
    assert_eq!(set.caustics.len(), 32);
    assert_eq!(set.caustics[31].width, 33);
}

#[test]
fn caustic_names_pad_to_two_digits_only() {
    assert_eq!(caustic_entry_name(7), "bitmaps/caustics/caustic07.jpg");
    assert_eq!(caustic_entry_name(123), "bitmaps/caustics/caustic123.jpg");
    assert_eq!(caustic_entry_name(u32::MAX), format!("bitmaps/caustics/caustic{:02}.jpg", u32::MAX));
}
