use bar_data::dxt1::decode_dxt1_block;
use bar_data::skybox::{
    decode_dds_base, decode_dds_mips, load_dds_2d, load_dds_2d_bytes, load_dds_2d_with_mips, load_dds_cubemap,
    DdsHeaderInfo, SkyboxError, D3D_A8B8G8R8, D3D_A8R8G8B8, D3D_DXT1, D3D_X8R8G8B8, DXGI_BC1_UNORM_SRGB,
};
use bar_data::dds_layout::{dds_layer_readable_exec, DdsFormatSizes};
use ddsfile::{Caps2, D3DFormat, Dds, NewD3dParams};

fn make_dds(format: D3DFormat, w: u32, h: u32, mips: Option<u32>, cube: bool, data: Vec<u8>) -> Vec<u8> {
    let mut dds = Dds::new_d3d(NewD3dParams {
        height: h,
        width: w,
        depth: None,
        format,
        mipmap_levels: mips,
        caps2: if cube { Some(Caps2::CUBEMAP | Caps2::CUBEMAP_ALLFACES) } else { None },
    })
    .unwrap();
    dds.data = data;
    let mut out = Vec::new();
    dds.write(&mut out).unwrap();
    out
}

#[test]
fn bgra_swaps_to_rgba() {
    let data = vec![1, 2, 3, 4, 5, 6, 7, 8, 9, 10, 11, 12, 13, 14, 15, 16];
    let bytes = make_dds(D3DFormat::A8R8G8B8, 2, 2, None, false, data);
    let (rgba, w, h) = load_dds_2d(&bytes).unwrap();
    assert_eq!((w, h), (2, 2));
    assert_eq!(rgba, vec![3, 2, 1, 4, 7, 6, 5, 8, 11, 10, 9, 12, 15, 14, 13, 16]);
}

#[test]
fn rgbx_forces_opaque_alpha() {
    let info = DdsHeaderInfo {
        width: 1,
        height: 2,
        mip_levels: 1,
        cubemap: false,
        d3d_format: Some(D3D_X8R8G8B8),
        dxgi_format: None,
        pitch: None,
        linear_size: None,
        depth: None,
        rgb_bit_count: None,
    };
    let (rgba, _, _) = decode_dds_base(&info, &[1, 2, 3, 0, 5, 6, 7, 9]).unwrap();
    assert_eq!(rgba, vec![3, 2, 1, 255, 7, 6, 5, 255]);
}

#[test]
fn dxt1_level_decodes_colour_blocks() {
    let block = [0xFF, 0xFF, 0x00, 0x00, 0b1110_0100, 0, 0, 0];
    let bytes = make_dds(D3DFormat::DXT1, 4, 4, None, false, block.to_vec());
    let (rgba, w, h) = load_dds_2d_bytes(&bytes).unwrap();
    assert_eq!((w, h), (4, 4));
    let texels = decode_dxt1_block(&block);
    for (i, t) in texels.iter().enumerate() {
        assert_eq!(&rgba[i * 4..i * 4 + 3], &t[..3]);
        assert_eq!(rgba[i * 4 + 3], 255);
    }
}

#[test]
fn dxt1_partial_block_is_cropped() {
    // A 2x5 level spans 1x2 blocks; only the texels inside the image are kept.
    let info = DdsHeaderInfo {
        width: 2,
        height: 5,
        mip_levels: 1,
        cubemap: false,
        d3d_format: Some(D3D_DXT1),
        dxgi_format: Some(DXGI_BC1_UNORM_SRGB),
        pitch: None,
        linear_size: None,
        depth: None,
        rgb_bit_count: None,
    };
    let b0 = [0xFF, 0xFF, 0x00, 0x00, 0, 0, 0, 0];
    let b1 = [0x00, 0x00, 0xFF, 0xFF, 0, 0, 0, 0];
    let raw: Vec<u8> = b0.iter().chain(b1.iter()).copied().collect();
    let (rgba, w, h) = decode_dds_base(&info, &raw).unwrap();
    assert_eq!((w, h), (2, 5));
    assert_eq!(rgba.len(), 2 * 5 * 4);
    assert_eq!(&rgba[..4], &[255, 255, 255, 255]);
    assert_eq!(&rgba[4 * 8..4 * 8 + 4], &[0, 0, 0, 255]);
}

#[test]
fn mip_chain_is_read_back_to_back() {
    let data: Vec<u8> = (0..84u8).collect();
    let bytes = make_dds(D3DFormat::A8B8G8R8, 4, 4, Some(3), false, data.clone());
    let mips = load_dds_2d_with_mips(&bytes).unwrap();
    assert_eq!(mips.len(), 3);
    assert_eq!((mips[0].width, mips[0].height), (4, 4));
    assert_eq!((mips[1].width, mips[1].height), (2, 2));
    assert_eq!((mips[2].width, mips[2].height), (1, 1));
    assert_eq!(mips[0].rgba, data[..64].to_vec());
    assert_eq!(mips[1].rgba, data[64..80].to_vec());
    assert_eq!(mips[2].rgba, data[80..84].to_vec());
}

#[test]
fn mip_chain_stops_where_the_data_ends() {
    let info = DdsHeaderInfo {
        width: 4,
        height: 2,
        mip_levels: 5,
        cubemap: false,
        d3d_format: Some(D3D_A8B8G8R8),
        dxgi_format: None,
        pitch: None,
        linear_size: None,
        depth: None,
        rgb_bit_count: None,
    };
    let raw = vec![7u8; 32 + 8 + 3];
    let mips = decode_dds_mips(&info, &raw).unwrap();
    assert_eq!(mips.len(), 2);
    assert_eq!((mips[1].width, mips[1].height), (2, 1));
    assert!(matches!(decode_dds_mips(&info, &raw[..31]), Err(SkyboxError::UnsupportedFormat)));
}

#[test]
fn cubemap_faces_in_order() {
    let mut data = Vec::new();
    for face in 0..6u8 {
        data.extend(std::iter::repeat(face).take(16));
    }
    let bytes = make_dds(D3DFormat::A8B8G8R8, 2, 2, None, true, data);
    let cube = load_dds_cubemap(&bytes).unwrap();
    assert_eq!((cube.width, cube.height), (2, 2));
    for (i, f) in cube.faces.iter().enumerate() {
        assert_eq!(f, &vec![i as u8; 16]);
    }
}

#[test]
fn non_cubemap_rejected() {
    let bytes = make_dds(D3DFormat::A8B8G8R8, 2, 2, None, false, vec![0; 16]);
    assert!(matches!(load_dds_cubemap(&bytes), Err(SkyboxError::NotACubemap)));
}

#[test]
fn garbage_is_a_parse_error() {
    assert!(matches!(load_dds_2d(b"not a dds file at all"), Err(SkyboxError::Parse)));
    assert!(matches!(load_dds_2d_bytes(&[]), Err(SkyboxError::Parse)));
}

#[test]
fn unsupported_formats_rejected() {
    let bytes = make_dds(D3DFormat::L8, 4, 4, None, false, vec![0; 16]);
    assert!(matches!(load_dds_2d(&bytes), Err(SkyboxError::UnsupportedFormat)));
    // DXT3 files carry a BC2 DXGI format, which the decoder does not take.
    let bytes = make_dds(D3DFormat::DXT3, 4, 4, None, false, vec![0; 16]);
    assert!(matches!(load_dds_2d(&bytes), Err(SkyboxError::UnsupportedFormat)));
}

#[test]
fn short_base_level_rejected() {
    let info = DdsHeaderInfo {
        width: 2,
        height: 2,
        mip_levels: 1,
        cubemap: false,
        d3d_format: Some(D3D_A8R8G8B8),
        dxgi_format: None,
        pitch: None,
        linear_size: None,
        depth: None,
        rgb_bit_count: None,
    };
    assert!(matches!(decode_dds_base(&info, &[0; 15]), Err(SkyboxError::UnsupportedFormat)));
}

fn overflowing_linear_size_dds(cube: bool) -> Vec<u8> {
    linear_size_dds(cube, 0xFFFF_FFFF, 2)
}

fn linear_size_dds(cube: bool, linear_size: u32, mips: u32) -> Vec<u8> {
    let mut dds = Dds::new_d3d(NewD3dParams {
        height: 4,
        width: 4,
        depth: None,
        format: D3DFormat::A8R8G8B8,
        mipmap_levels: Some(mips),
        caps2: if cube { Some(Caps2::CUBEMAP | Caps2::CUBEMAP_ALLFACES) } else { None },
    })
    .unwrap();
    dds.data = vec![0; 64];
    let mut out = Vec::new();
    dds.write(&mut out).unwrap();
    // Header flags at bytes 8..12: drop PITCH (0x8), set LINEARSIZE
    // (0x80000); the pitch-or-linear-size field is at bytes 20..24.
    let flags = u32::from_le_bytes([out[8], out[9], out[10], out[11]]);
    out[8..12].copy_from_slice(&((flags & !0x8) | 0x80000).to_le_bytes());
    out[20..24].copy_from_slice(&linear_size.to_le_bytes());
    out
}

#[test]
fn overflowing_layer_size_is_rejected() {
    let bytes = overflowing_linear_size_dds(false);
    assert!(matches!(load_dds_2d_with_mips(&bytes), Err(SkyboxError::UnsupportedFormat)));
    assert!(matches!(load_dds_2d_bytes(&bytes), Err(SkyboxError::UnsupportedFormat)));
    let cube = overflowing_linear_size_dds(true);
    assert!(matches!(load_dds_cubemap(&cube), Err(SkyboxError::UnsupportedFormat)));
}

#[test]
fn large_layer_that_fits_is_read() {
    // A 2 GiB layer: ddsfile's arithmetic fits, so the layer is looked up;
    // the file is far shorter, so the lookup fails as a parse error.
    let bytes = linear_size_dds(false, 0x8000_0000, 1);
    assert!(matches!(load_dds_2d_with_mips(&bytes), Err(SkyboxError::Parse)));
    assert!(matches!(load_dds_2d_bytes(&bytes), Err(SkyboxError::Parse)));
}

fn header(w: u32, h: u32, d3d: u32, linear_size: Option<u32>, mips: u32) -> DdsHeaderInfo {
    DdsHeaderInfo {
        width: w,
        height: h,
        mip_levels: mips,
        cubemap: false,
        d3d_format: Some(d3d),
        dxgi_format: None,
        pitch: None,
        linear_size,
        depth: None,
        rgb_bit_count: None,
    }
}

#[test]
fn layer_readable_follows_ddsfile_arithmetic() {
    let dxt1 = DdsFormatSizes { format_bpp: None, format_block: Some(8), layers: 1 };
    // A very wide DXT1 strip: pitch 5_000_000 blocks x 8 bytes.
    assert!(dds_layer_readable_exec(&header(20_000_000, 4, D3D_DXT1, None, 1), &dxt1, 0));
    // Width + 3 overflows.
    assert!(!dds_layer_readable_exec(&header(u32::MAX, 4, D3D_DXT1, None, 1), &dxt1, 0));
    let rgba = DdsFormatSizes { format_bpp: Some(32), format_block: None, layers: 6 };
    // One level of 0xFFFF_FFFF bytes fits; a second level overflows the stride.
    assert!(dds_layer_readable_exec(&header(4, 4, D3D_A8R8G8B8, Some(0xFFFF_FFFF), 1), &rgba, 0));
    assert!(!dds_layer_readable_exec(&header(4, 4, D3D_A8R8G8B8, Some(0xFFFF_FFFF), 2), &rgba, 0));
    // Layer offsets: 1 x 2^31 fits, 2 x 2^31 does not.
    assert!(dds_layer_readable_exec(&header(4, 4, D3D_A8R8G8B8, Some(0x8000_0000), 1), &rgba, 1));
    assert!(!dds_layer_readable_exec(&header(4, 4, D3D_A8R8G8B8, Some(0x8000_0000), 1), &rgba, 2));
    // Past the last layer ddsfile does no arithmetic.
    assert!(dds_layer_readable_exec(&header(4, 4, D3D_A8R8G8B8, Some(0xFFFF_FFFF), 2), &rgba, 6));
    // 4 bytes x width overflows the pitch.
    assert!(!dds_layer_readable_exec(&header(0x4000_0000, 1, D3D_A8R8G8B8, None, 1), &rgba, 0));
}
