//! Decoding 2D textures: DDS files through the DDS decoder, other formats
//! through the `image` crate, and the file names a model's texture is
//! looked up under.

use vstd::prelude::*;

use crate::skybox::{
    cube_faces_view, dds_header_of, load_2d_spec, load_cubemap_spec, load_dds_2d, load_dds_2d_with_mips, load_dds_cubemap,
    mips_view, MipView, load_2d_base_spec, load_dds_2d_bytes,
};
use crate::s3o::S3oMesh;
use crate::text::{ascii_lower_seq, ascii_lowercase, str_eq, trim, trim_spec};

verus! {

/// CPU-side RGBA8 texture ready for `Rgba8Unorm` upload.
pub struct TextureRgba {
    pub width: u32,
    pub height: u32,
    pub rgba: Vec<u8>,
}

/// The RGBA8 pixels and dimensions the `image` crate decodes from an
/// encoded image's bytes (`None` when it cannot decode them).
pub uninterp spec fn image_rgba8_of(bytes: Seq<u8>) -> Option<(Seq<u8>, u32, u32)>;

/// Calls `image::load_from_memory` (format sniffed from the bytes), converts
/// the image with `to_rgba8` and returns its raw bytes and `dimensions()`.
/// The contract names the result, a function of the bytes (the JPEG
/// decoder's vector paths are integer code with the same results as its
/// scalar one), and states that the pixels are `4 * width * height` bytes,
/// as an RGBA8 image buffer holds.
#[verifier::external_body]
pub(crate) fn decode_image_rgba8(bytes: &[u8]) -> (r: Option<(Vec<u8>, u32, u32)>)
    ensures
        match r {
            Some((v, w, h)) => image_rgba8_of(bytes@) == Some((v@, w, h)),
            None => image_rgba8_of(bytes@) is None,
        },
        r matches Some((v, w, h)) ==> v@.len() == 4 * w * h,
{
    match image::load_from_memory(bytes) {
        Ok(img) => {
            let rgba = img.to_rgba8();
            let (w, h) = rgba.dimensions();
            Some((rgba.into_raw(), w, h))
        },
        Err(_) => None,
    }
}

/// The RGBA8 pixels and dimensions the `image` crate decodes from an
/// encoded image's bytes in the format named by a file extension (`None`
/// when the extension names no format or the bytes do not decode in it).
pub uninterp spec fn image_rgba8_by_ext_of(ext: Seq<char>, bytes: Seq<u8>) -> Option<(Seq<u8>, u32, u32)>;

/// Calls `image::ImageFormat::from_extension` to pick the format, then
/// `image::load_from_memory_with_format`, and converts with `to_rgba8`.
/// The contract only names the result: it is a function of the extension
/// and the bytes.  The pixels are `4 * width * height` bytes.
#[verifier::external_body]
pub(crate) fn decode_image_by_extension(ext: &str, bytes: &[u8]) -> (r: Option<(Vec<u8>, u32, u32)>)
    ensures
        match r {
            Some((v, w, h)) => image_rgba8_by_ext_of(ext@, bytes@) == Some((v@, w, h)),
            None => image_rgba8_by_ext_of(ext@, bytes@) is None,
        },
        r matches Some((v, w, h)) ==> v@.len() == 4 * w * h,
{
    let fmt = match image::ImageFormat::from_extension(ext) {
        Some(f) => f,
        None => return None,
    };
    match image::load_from_memory_with_format(bytes, fmt) {
        Ok(img) => {
            let rgba = img.to_rgba8();
            let (w, h) = rgba.dimensions();
            Some((rgba.into_raw(), w, h))
        },
        Err(_) => None,
    }
}

/// The PNG file `image` encodes from `w`×`h` RGBA8 pixels (`None` when the
/// pixels are fewer than `4 * w * h` bytes or the encoder fails).
pub uninterp spec fn png_encoding_of(rgba: Seq<u8>, w: u32, h: u32) -> Option<Seq<u8>>;

/// Calls `image::RgbaImage::from_raw` and writes the image to an in-memory
/// buffer with `write_to(.., ImageFormat::Png)`.  The contract only names
/// the result: it is a function of the pixels and the dimensions.
#[verifier::external_body]
fn encode_png_rgba8(rgba: &[u8], w: u32, h: u32) -> (r: Option<Vec<u8>>)
    ensures
        match r {
            Some(v) => png_encoding_of(rgba@, w, h) == Some(v@),
            None => png_encoding_of(rgba@, w, h) is None,
        },
{
    let img = image::RgbaImage::from_raw(w, h, rgba.to_vec())?;
    let mut out = std::io::Cursor::new(Vec::new());
    match img.write_to(&mut out, image::ImageFormat::Png) {
        Ok(()) => Some(out.into_inner()),
        Err(_) => None,
    }
}

/// Decode a cached feature thumbnail (any format `image` recognises from
/// its bytes) into RGBA8 pixels, width and height.
pub fn decode_thumbnail(bytes: &[u8]) -> (r: Option<(Vec<u8>, u32, u32)>)
    ensures
        triple_view(r) == image_rgba8_of(bytes@),
        r matches Some((v, w, h)) ==> v@.len() == 4 * w * h,
{
    decode_image_rgba8(bytes)
}

/// Encode a rendered feature thumbnail (`w`×`h` RGBA8 pixels) as a PNG file.
pub fn encode_thumbnail(rgba: &[u8], w: u32, h: u32) -> (r: Option<Vec<u8>>)
    ensures
        match r {
            Some(v) => png_encoding_of(rgba@, w, h) == Some(v@),
            None => png_encoding_of(rgba@, w, h) is None,
        },
{
    encode_png_rgba8(rgba, w, h)
}

/// A 2D image file's bytes decoded by extension: for `dds` (any ASCII
/// case) the base level of a 2D DDS, else face 0 of a DDS cubemap; failing
/// those (or for other extensions) the `image` decoder for the extension.
pub open spec fn decode_2d_spec(ext: Seq<char>, bytes: Seq<u8>) -> Option<(Seq<u8>, u32, u32)> {
    let e = ascii_lower_seq(ext);
    if e == "dds"@ && load_2d_spec(bytes) is Ok {
        let ms = load_2d_spec(bytes)->Ok_0;
        Some((ms[0].rgba, ms[0].width, ms[0].height))
    } else if e == "dds"@ && load_cubemap_spec(bytes) is Ok {
        let info = dds_header_of(bytes)->Some_0;
        Some((load_cubemap_spec(bytes)->Ok_0[0], info.width, info.height))
    } else {
        image_rgba8_by_ext_of(e, bytes)
    }
}

pub open spec fn triple_view(t: Option<(Vec<u8>, u32, u32)>) -> Option<(Seq<u8>, u32, u32)> {
    match t {
        Some((v, w, h)) => Some((v@, w, h)),
        None => None,
    }
}

/// Decode a 2D image file's bytes, its format picked by the file's
/// extension `ext` (see [`decode_2d_spec`]).
pub fn decode_2d_image(ext: &str, bytes: &[u8]) -> (r: Option<(Vec<u8>, u32, u32)>)
    ensures
        triple_view(r) == decode_2d_spec(ext@, bytes@),
{
    let e = ascii_lowercase(ext);
    if str_eq(e.as_str(), "dds") {
        match load_dds_2d(bytes) {
            Ok(t) => {
                return Some(t);
            },
            Err(_) => {},
        }
        match load_dds_cubemap(bytes) {
            Ok(cm) => {
                let f0 = cm.faces[0].clone();
                assert(f0@ =~= cube_faces_view(cm)[0]);
                return Some((f0, cm.width, cm.height));
            },
            Err(_) => {},
        }
    }
    decode_image_by_extension(e.as_str(), bytes)
}

pub open spec fn triples_view(v: Seq<(Vec<u8>, u32, u32)>) -> Seq<(Seq<u8>, u32, u32)> {
    Seq::new(v.len(), |i: int| (v[i].0@, v[i].1, v[i].2))
}

/// Every mip level of a 2D image file's bytes: a DDS file's pre-baked mip
/// chain, face 0 of a DDS cubemap, or else the single image
/// [`decode_2d_spec`] gives.
pub open spec fn decode_2d_mips_spec(ext: Seq<char>, bytes: Seq<u8>) -> Option<Seq<(Seq<u8>, u32, u32)>> {
    let e = ascii_lower_seq(ext);
    if e == "dds"@ && load_2d_spec(bytes) is Ok {
        let ms = load_2d_spec(bytes)->Ok_0;
        Some(Seq::new(ms.len(), |i: int| (ms[i].rgba, ms[i].width, ms[i].height)))
    } else if e == "dds"@ && load_cubemap_spec(bytes) is Ok {
        let info = dds_header_of(bytes)->Some_0;
        Some(seq![(load_cubemap_spec(bytes)->Ok_0[0], info.width, info.height)])
    } else {
        match decode_2d_spec(ext, bytes) {
            Some(t) => Some(seq![t]),
            None => None,
        }
    }
}

/// Decode a 2D image file's bytes and return all its mip levels as
/// `(rgba, w, h)` (see [`decode_2d_mips_spec`]).
pub fn decode_2d_image_with_mips(ext: &str, bytes: &[u8]) -> (r: Option<Vec<(Vec<u8>, u32, u32)>>)
    ensures
        match r {
            Some(v) => decode_2d_mips_spec(ext@, bytes@) == Some(triples_view(v@)),
            None => decode_2d_mips_spec(ext@, bytes@) is None,
        },
{
    let e = ascii_lowercase(ext);
    if str_eq(e.as_str(), "dds") {
        match load_dds_2d_with_mips(bytes) {
            Ok(mips) => {
                let ghost mv = mips_view(mips@);
                let mut out: Vec<(Vec<u8>, u32, u32)> = Vec::new();
                let mut mips = mips;
                let ghost all = mips@;
                let mut i: usize = 0;
                let n = mips.len();
                while i < n
                    invariant
                        0 <= i <= n,
                        n == all.len(),
                        mv == mips_view(all),
                        mips@.len() == n - i,
                        out@.len() == i,
                        forall|k: int| 0 <= k < mips@.len() ==> mips@[k] == all[i + k],
                        triples_view(out@) == Seq::new(i as nat, |k: int| (mv[k].rgba, mv[k].width, mv[k].height)),
                    decreases n - i,
                {
                    let m = mips.remove(0);
                    assert(m == all[i as int]);
                    assert(mv[i as int] == all[i as int]@);
                    let ghost before = out@;
                    out.push((m.rgba, m.width, m.height));
                    assert(triples_view(out@)[i as int] == (mv[i as int].rgba, mv[i as int].width, mv[i as int].height));
                    assert forall|k: int| 0 <= k < i implies #[trigger] triples_view(out@)[k] == triples_view(before)[k] by {
                        assert(out@[k] == before[k]);
                    }
                    assert(triples_view(out@) =~= Seq::new((i + 1) as nat, |k: int| (mv[k].rgba, mv[k].width, mv[k].height)));
                    i = i + 1;
                }
                return Some(out);
            },
            Err(_) => {},
        }
        match load_dds_cubemap(bytes) {
            Ok(cm) => {
                let f0 = cm.faces[0].clone();
                assert(f0@ =~= cube_faces_view(cm)[0]);
                let mut out: Vec<(Vec<u8>, u32, u32)> = Vec::new();
                out.push((f0, cm.width, cm.height));
                assert(triples_view(out@) =~= seq![(cube_faces_view(cm)[0], cm.width, cm.height)]);
                return Some(out);
            },
            Err(_) => {},
        }
    }
    match decode_2d_image(ext, bytes) {
        Some(t) => {
            let mut out: Vec<(Vec<u8>, u32, u32)> = Vec::new();
            out.push(t);
            assert(triples_view(out@) =~= seq![triple_view(Some(t))->Some_0]);
            Some(out)
        },
        None => None,
    }
}

// -- Model textures ---------------------------------------------------------------

/// Position of the last `.` in `s`.
pub open spec fn last_dot(s: Seq<char>) -> Option<int>
    decreases s.len(),
{
    if s.len() == 0 {
        None
    } else if s.last() == '.' {
        Some(s.len() - 1)
    } else {
        last_dot(s.drop_last())
    }
}

/// A file name split at its last `.` into stem and ASCII-lower-cased
/// extension (no extension without a `.`).
pub open spec fn split_ext(s: Seq<char>) -> (Seq<char>, Option<Seq<char>>) {
    match last_dot(s) {
        Some(i) => (s.subrange(0, i), Some(ascii_lower_seq(s.subrange(i + 1, s.len() as int)))),
        None => (s, None),
    }
}

/// The alternate extensions tried for a texture, in order.
pub open spec fn alt_exts() -> Seq<Seq<char>> {
    seq!["dds"@, "tga"@, "png"@, "bmp"@]
}

/// `unittextures/{stem}.{ext}`.
pub open spec fn unittexture_path(stem: Seq<char>, ext: Seq<char>) -> Seq<char> {
    "unittextures/"@ + stem + "."@ + ext
}

/// The alternates from position `k` on, skipping the declared extension.
pub open spec fn alt_candidates(stem: Seq<char>, declared: Option<Seq<char>>, k: nat) -> Seq<Seq<char>>
    decreases 4 - k,
{
    if k >= 4 {
        Seq::empty()
    } else if declared == Some(alt_exts()[k as int]) {
        alt_candidates(stem, declared, k + 1)
    } else {
        seq![unittexture_path(stem, alt_exts()[k as int])] + alt_candidates(stem, declared, k + 1)
    }
}

/// The archive paths a model texture declared as `name` is looked up
/// under, in order: the declared name under `unittextures/` (extension
/// lower-cased), then the same stem with each other of `dds`, `tga`,
/// `png`, `bmp`.  A blank name has none.
pub open spec fn texture_candidates_spec(name: Seq<char>) -> Seq<Seq<char>> {
    let t = trim_spec(name);
    if t.len() == 0 {
        Seq::empty()
    } else {
        let (stem, ext) = split_ext(t);
        let first = match ext {
            Some(e) => unittexture_path(stem, e),
            None => "unittextures/"@ + stem,
        };
        seq![first] + alt_candidates(stem, ext, 0)
    }
}

pub open spec fn strings_view(v: Seq<String>) -> Seq<Seq<char>> {
    Seq::new(v.len(), |i: int| v[i]@)
}

fn find_last_dot(s: &str) -> (r: Option<usize>)
    ensures
        match r {
            Some(i) => last_dot(s@) == Some(i as int) && i < s@.len(),
            None => last_dot(s@) is None,
        },
{
    let n = s.unicode_len();
    assert(s@.subrange(0, n as int) =~= s@);
    let mut i: usize = n;
    while i > 0
        invariant
            0 <= i <= n,
            n == s@.len(),
            last_dot(s@) == last_dot(s@.subrange(0, i as int)),
        decreases i,
    {
        let ghost pre = s@.subrange(0, i as int);
        if s.get_char(i - 1) == '.' {
            assert(pre.last() == '.');
            return Some(i - 1);
        }
        assert(pre.drop_last() =~= s@.subrange(0, i - 1));
        i = i - 1;
    }
    assert(s@.subrange(0, 0) =~= Seq::<char>::empty());
    None
}

fn unittexture_string(stem: &str, ext: &str) -> (r: String)
    ensures
        r@ == unittexture_path(stem@, ext@),
{
    let mut p = String::from_str("unittextures/");
    p.append(stem);
    p.append(".");
    p.append(ext);
    p
}

/// The archive paths a model texture is looked up under (see
/// [`texture_candidates_spec`]).
pub fn texture_candidates(tex_filename: &str) -> (r: Vec<String>)
    ensures
        strings_view(r@) == texture_candidates_spec(tex_filename@),
{
    let mut tried: Vec<String> = Vec::new();
    let t = trim(tex_filename);
    if t.unicode_len() == 0 {
        assert(strings_view(tried@) =~= Seq::<Seq<char>>::empty());
        return tried;
    }
    let n = t.unicode_len();
    let (stem, ext): (&str, Option<String>) = match find_last_dot(t) {
        Some(i) => (t.substring_char(0, i), Some(ascii_lowercase(t.substring_char(i + 1, n)))),
        None => (t, None),
    };
    let ghost ext_view: Option<Seq<char>> = match &ext {
        Some(e) => Some(e@),
        None => None,
    };
    assert(split_ext(t@) == (stem@, ext_view));
    match &ext {
        Some(e) => tried.push(unittexture_string(stem, e.as_str())),
        None => {
            let mut p = String::from_str("unittextures/");
            p.append(stem);
            tried.push(p);
        },
    }
    let alts: [&str; 4] = ["dds", "tga", "png", "bmp"];
    let ghost first = strings_view(tried@);
    let mut k: usize = 0;
    while k < 4
        invariant
            0 <= k <= 4,
            tried@.len() >= 1,
            alts@.len() == 4,
            forall|j: int| 0 <= j < 4 ==> #[trigger] alts@[j]@ == alt_exts()[j],
            strings_view(tried@) + alt_candidates(stem@, ext_view, k as nat) == first + alt_candidates(stem@, ext_view, 0),
            ext_view == match &ext {
                Some(e) => Some(e@),
                None => None,
            },
        decreases 4 - k,
    {
        let alt = alts[k];
        let same = match &ext {
            Some(e) => str_eq(e.as_str(), alt),
            None => false,
        };
        let ghost before = strings_view(tried@);
        if !same {
            tried.push(unittexture_string(stem, alt));
            assert(strings_view(tried@) =~= before.push(unittexture_path(stem@, alt_exts()[k as int])));
            assert(strings_view(tried@) + alt_candidates(stem@, ext_view, (k + 1) as nat) =~= before + alt_candidates(
                stem@,
                ext_view,
                k as nat,
            ));
        }
        k = k + 1;
    }
    assert(strings_view(tried@) =~= strings_view(tried@) + alt_candidates(stem@, ext_view, 4));
    tried
}

/// A texture decoded from a candidate file's bytes, by its extension
/// `ext` (`None` when it has none): the base level of a DDS for `dds` (any
/// ASCII case), else the `image` decoder for the extension, falling back
/// to format sniffing.
pub open spec fn decode_texture_spec(ext: Option<Seq<char>>, bytes: Seq<u8>) -> Option<(Seq<u8>, u32, u32)> {
    let e = match ext {
        Some(x) => Some(ascii_lower_seq(x)),
        None => None,
    };
    if e == Some("dds"@) {
        match load_2d_base_spec(bytes) {
            Ok(t) => Some(t),
            Err(_) => None,
        }
    } else {
        let hinted = match e {
            Some(x) => image_rgba8_by_ext_of(x, bytes),
            None => None,
        };
        match hinted {
            Some(t) => Some(t),
            None => image_rgba8_of(bytes),
        }
    }
}

pub open spec fn texture_view(t: Option<TextureRgba>) -> Option<(Seq<u8>, u32, u32)> {
    match t {
        Some(x) => Some((x.rgba@, x.width, x.height)),
        None => None,
    }
}

/// Decode a model texture candidate's bytes (see [`decode_texture_spec`]).
pub fn decode_texture(ext: Option<&str>, bytes: &[u8]) -> (r: Option<TextureRgba>)
    ensures
        texture_view(r) == decode_texture_spec(
            match ext {
                Some(x) => Some(x@),
                None => None,
            },
            bytes@,
        ),
{
    let e: Option<String> = match ext {
        Some(x) => Some(ascii_lowercase(x)),
        None => None,
    };
    let is_dds = match &e {
        Some(x) => str_eq(x.as_str(), "dds"),
        None => false,
    };
    if is_dds {
        return match load_dds_2d_bytes(bytes) {
            Ok((rgba, width, height)) => Some(TextureRgba { width, height, rgba }),
            Err(_) => None,
        };
    }
    let hinted = match &e {
        Some(x) => decode_image_by_extension(x.as_str(), bytes),
        None => None,
    };
    let decoded = match hinted {
        Some(t) => Some(t),
        None => decode_image_rgba8(bytes),
    };
    match decoded {
        Some((rgba, width, height)) => Some(TextureRgba { width, height, rgba }),
        None => None,
    }
}

// -- Feature models ---------------------------------------------------------------

/// A feature model loaded in the background: its parsed mesh and its two
/// textures (`tex1`: diffuse RGB with the team-colour mask in alpha;
/// `tex2`: glow / specular with the opacity in alpha), either of which may
/// be missing.
pub struct LoadedModel {
    pub name: String,
    pub mesh: S3oMesh,
    pub tex1: Option<TextureRgba>,
    pub tex2: Option<TextureRgba>,
}

/// The archive path of a feature's model object `obj`: under `objects3d/`,
/// with `.s3o` appended when the name has no `.`; none for a blank name.
pub open spec fn model_object_path_spec(obj: Seq<char>) -> Option<Seq<char>> {
    if obj.len() == 0 {
        None
    } else if obj.contains('.') {
        Some("objects3d/"@ + obj)
    } else {
        Some("objects3d/"@ + obj + ".s3o"@)
    }
}

/// The archive path of a feature's model object (see
/// [`model_object_path_spec`]).
pub fn model_object_path(obj: &str) -> (r: Option<String>)
    ensures
        match r {
            Some(p) => model_object_path_spec(obj@) == Some(p@),
            None => model_object_path_spec(obj@) == None::<Seq<char>>,
        },
{
    let n = obj.unicode_len();
    if n == 0 {
        return None;
    }
    let mut has_dot = false;
    let mut i: usize = 0;
    while i < n
        invariant
            0 <= i <= n,
            n == obj@.len(),
            has_dot == exists|j: int| 0 <= j < i && obj@[j] == '.',
        decreases n - i,
    {
        if obj.get_char(i) == '.' {
            has_dot = true;
        }
        i = i + 1;
    }
    assert(has_dot == obj@.contains('.'));
    let mut p = String::from_str("objects3d/");
    p.append(obj);
    if !has_dot {
        p.append(".s3o");
    }
    Some(p)
}

} // verus!
