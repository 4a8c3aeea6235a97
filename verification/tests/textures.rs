use bar_data::textures::{
    decode_2d_image, decode_2d_image_with_mips, decode_texture, decode_thumbnail, encode_thumbnail, model_object_path,
    texture_candidates,
};
use ddsfile::{Caps2, D3DFormat, Dds, NewD3dParams};

fn png_bytes(w: u32, h: u32, rgba: Vec<u8>) -> Vec<u8> {
    let img = image::RgbaImage::from_raw(w, h, rgba).unwrap();
    let mut out = Vec::new();
    img.write_to(&mut std::io::Cursor::new(&mut out), image::ImageFormat::Png).unwrap();
    out
}

fn dds_bytes(w: u32, h: u32, mips: Option<u32>, cube: bool, data: Vec<u8>) -> Vec<u8> {
    let mut dds = Dds::new_d3d(NewD3dParams {
        height: h,
        width: w,
        depth: None,
        format: D3DFormat::A8B8G8R8,
        mipmap_levels: mips,
        caps2: if cube { Some(Caps2::CUBEMAP) } else { None },
    })
    .unwrap();
    dds.data = data;
    let mut out = Vec::new();
    dds.write(&mut out).unwrap();
    out
}

#[test]
fn candidates_for_declared_extension() {
    let c = texture_candidates("  Rock01.TGA ");
    assert_eq!(
        c,
        vec![
            "unittextures/Rock01.tga",
            "unittextures/Rock01.dds",
            "unittextures/Rock01.png",
            "unittextures/Rock01.bmp",
        ]
    );
}

#[test]
fn candidates_without_extension() {
    let c = texture_candidates("tree_color");
    assert_eq!(
        c,
        vec![
            "unittextures/tree_color",
            "unittextures/tree_color.dds",
            "unittextures/tree_color.tga",
            "unittextures/tree_color.png",
            "unittextures/tree_color.bmp",
        ]
    );
    assert!(texture_candidates("   ").is_empty());
    // Only the last dot splits.
    assert_eq!(texture_candidates("a.b.jpg")[0], "unittextures/a.b.jpg");
    assert_eq!(texture_candidates("a.b.jpg")[1], "unittextures/a.b.dds");
}

#[test]
fn png_texture_decodes_by_extension_or_sniffing() {
    let png = png_bytes(1, 1, vec![9, 8, 7, 6]);
    let t = decode_texture(Some("PNG"), &png).unwrap();
    assert_eq!((t.width, t.height, t.rgba.clone()), (1, 1, vec![9, 8, 7, 6]));
    // A wrong extension falls back to sniffing the bytes.
    let t = decode_texture(Some("jpg"), &png).unwrap();
    assert_eq!(t.rgba, vec![9, 8, 7, 6]);
    let t = decode_texture(None, &png).unwrap();
    assert_eq!(t.rgba, vec![9, 8, 7, 6]);
    assert!(decode_texture(Some("png"), b"garbage").is_none());
}

#[test]
fn dds_texture_uses_dds_decoder() {
    let dds = dds_bytes(1, 1, None, false, vec![1, 2, 3, 4]);
    let t = decode_texture(Some("Dds"), &dds).unwrap();
    assert_eq!((t.width, t.height, t.rgba.clone()), (1, 1, vec![1, 2, 3, 4]));
    // DDS bytes under another extension are not sniffed as DDS.
    assert!(decode_texture(Some("png"), &dds).is_none());
}

#[test]
fn two_d_image_with_mips() {
    let data: Vec<u8> = (0..20u8).collect();
    let dds = dds_bytes(2, 2, Some(2), false, data.clone());
    let mips = decode_2d_image_with_mips("dds", &dds).unwrap();
    assert_eq!(mips.len(), 2);
    assert_eq!(mips[0], (data[..16].to_vec(), 2, 2));
    assert_eq!(mips[1], (data[16..20].to_vec(), 1, 1));
    let png = png_bytes(1, 1, vec![5, 5, 5, 5]);
    assert_eq!(decode_2d_image_with_mips("png", &png), Some(vec![(vec![5, 5, 5, 5], 1, 1)]));
    assert_eq!(decode_2d_image("png", &png), Some((vec![5, 5, 5, 5], 1, 1)));
    // No format for the extension: nothing decodes (no sniffing here).
    assert_eq!(decode_2d_image("xyz", &png), None);
}

#[test]
fn mislabelled_cubemap_gives_face_zero() {
    let mut data = Vec::new();
    for f in 0..6u8 {
        data.extend([f, f, f, f]);
    }
    let dds = dds_bytes(1, 1, None, true, data);
    assert_eq!(decode_2d_image("DDS", &dds), Some((vec![0, 0, 0, 0], 1, 1)));
}

#[test]
fn model_object_path_appends_s3o_without_extension() {
    assert_eq!(model_object_path("arbor1"), Some("objects3d/arbor1.s3o".to_string()));
}

#[test]
fn model_object_path_keeps_declared_extension() {
    assert_eq!(model_object_path("rocks/rock2.S3O"), Some("objects3d/rocks/rock2.S3O".to_string()));
}

#[test]
fn model_object_path_blank_is_none() {
    assert_eq!(model_object_path(""), None);
}

#[test]
fn thumbnail_png_roundtrip() {
    let rgba: Vec<u8> = (0..2 * 3 * 4).map(|i| (i * 9) as u8).collect();
    let png = encode_thumbnail(&rgba, 2, 3).expect("encodes");
    assert_eq!(&png[1..4], b"PNG");
    assert_eq!(decode_thumbnail(&png), Some((rgba, 2, 3)));
}

#[test]
fn thumbnail_too_few_pixels_is_none() {
    assert_eq!(encode_thumbnail(&[1, 2, 3], 2, 2), None);
    assert_eq!(decode_thumbnail(b"not an image"), None);
}
