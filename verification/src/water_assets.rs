//! Engine-shipped water texture assets: shore-foam, wave-randomisation,
//! and a 32-frame caustic animation. All three live inside Recoil's
//! `bitmaps.sdz` base archive (a standard ZIP despite the `.sdz`
//! extension).
//!
//! Asset paths inside `bitmaps.sdz`:
//!
//! - `bitmaps/foam.jpg` -- shore foam tile.
//! - `bitmaps/shorewaverand.png` -- random-direction perturbation used
//!   by `GetShorewaves`.
//! - `bitmaps/caustics/caustic{00..31}.jpg` -- 32-frame animation,
//!   host swaps once per game step.
//!
//! This module names the entries, decodes entry bytes into RGBA8 buffers
//! and assembles the bundle; reading the archive is the caller's part.

use vstd::prelude::*;

use crate::text::{decimal_text, push_decimal_u32};
use crate::textures::{decode_image_rgba8, image_rgba8_of};

verus! {

/// Number of caustic animation frames the engine ships.
pub const CAUSTIC_FRAMES: u32 = 32;

/// One decoded 2D image: RGBA8 bytes plus dimensions.
#[derive(Debug, Clone)]
pub struct WaterTexture {
    pub rgba: Vec<u8>,
    pub width: u32,
    pub height: u32,
}

/// Full bundle of engine-shipped water assets.
#[derive(Debug, Clone)]
pub struct WaterAssetSet {
    /// `bitmaps/foam.jpg` -- tiled across the shoreline.
    pub foam: WaterTexture,
    /// `bitmaps/shorewaverand.png` -- per-fragment randomisation that breaks
    /// up the foam tiling.
    pub waverand: WaterTexture,
    /// 32-frame caustic animation, sorted by frame index `00..31`.
    pub caustics: Vec<WaterTexture>,
}

/// Errors turning archive entries into water textures.
#[derive(Debug, Clone)]
pub enum WaterAssetError {
    /// The entry's bytes are not an image the decoder understands.
    ImageDecode { entry: String },
}

/// `"bitmaps/caustics/caustic"`, the frame number in decimal zero-padded
/// to at least two digits, `".jpg"`.
pub open spec fn caustic_entry_spec(frame: int) -> Seq<char> {
    "bitmaps/caustics/caustic"@ + (if frame < 10 {
        "0"@
    } else {
        Seq::empty()
    }) + decimal_text(frame) + ".jpg"@
}

/// Archive entry of caustic frame `frame`: the engine numbers frames
/// `caustic00..caustic31` with a 2-digit zero-pad (wider numbers are
/// written in full).
pub fn caustic_entry_name(frame: u32) -> (r: String)
    ensures
        r@ == caustic_entry_spec(frame as int),
{
    let mut s = String::from_str("bitmaps/caustics/caustic");
    if frame < 10 {
        s.append("0");
    }
    push_decimal_u32(&mut s, frame);
    s.append(".jpg");
    s
}

/// The archive entries of the bundle, in order: foam, wave randomisation,
/// then the caustic frames `00..31`.
pub open spec fn water_entries_spec() -> Seq<Seq<char>> {
    seq!["bitmaps/foam.jpg"@, "bitmaps/shorewaverand.png"@] + Seq::new(
        CAUSTIC_FRAMES as nat,
        |i: int| caustic_entry_spec(i),
    )
}

/// The archive entries to read for a [`WaterAssetSet`], in the order
/// [`assemble_water_assets`] takes their textures.
pub fn water_entry_names() -> (r: Vec<String>)
    ensures
        r@.len() == water_entries_spec().len(),
        forall|i: int| 0 <= i < r@.len() ==> #[trigger] r@[i]@ == water_entries_spec()[i],
{
    let mut names: Vec<String> = Vec::new();
    names.push(String::from_str("bitmaps/foam.jpg"));
    names.push(String::from_str("bitmaps/shorewaverand.png"));
    let mut i: u32 = 0;
    while i < CAUSTIC_FRAMES
        invariant
            0 <= i <= CAUSTIC_FRAMES,
            names@.len() == 2 + i,
            forall|j: int| 0 <= j < names@.len() ==> #[trigger] names@[j]@ == water_entries_spec()[j],
        decreases CAUSTIC_FRAMES - i,
    {
        let n = caustic_entry_name(i);
        names.push(n);
        i = i + 1;
    }
    names
}

/// Decodes the bytes of archive entry `entry` into a texture.
pub fn decode_water_texture(entry: &String, bytes: &[u8]) -> (r: Result<WaterTexture, WaterAssetError>)
    ensures
        match image_rgba8_of(bytes@) {
            Some((v, w, h)) => r matches Ok(t) && t.rgba@ == v && t.width == w && t.height == h,
            None => r matches Err(WaterAssetError::ImageDecode { entry: e }) && e@ == entry@,
        },
{
    match decode_image_rgba8(bytes) {
        Some((rgba, width, height)) => Ok(WaterTexture { rgba, width, height }),
        None => Err(WaterAssetError::ImageDecode { entry: entry.clone() }),
    }
}

/// Bundles the textures of the entries of [`water_entry_names`], in that
/// order: foam, wave randomisation, then the caustic frames.
pub fn assemble_water_assets(textures: Vec<WaterTexture>) -> (r: WaterAssetSet)
    requires
        textures@.len() == 2 + CAUSTIC_FRAMES,
    ensures
        r.foam == textures@[0],
        r.waverand == textures@[1],
        r.caustics@ == textures@.subrange(2, textures@.len() as int),
{
    let ghost all = textures@;
    let mut textures = textures;
    let caustics = textures.split_off(2);
    let waverand = textures.pop().unwrap();
    let foam = textures.pop().unwrap();
    WaterAssetSet { foam, waverand, caustics }
}

} // verus!
