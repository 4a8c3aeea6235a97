//! Verified core of the BAR map editor's data layer: Spring SMT/SMF/S3O
//! binary formats, the DXT1 (BC1) block codec, and the small pure helpers
//! around them.

use vstd::prelude::*;

pub mod le;
pub mod dxt1;
pub mod smt;
pub mod s3o;
pub mod sd7;
pub mod sd7_write;
pub mod hash;
pub mod skybox;
pub mod dds_layout;
pub mod water_assets;
pub mod text;
pub mod bar_install;
pub mod resolution;
pub mod cli;
pub mod textures;
pub mod log_message;

verus! {

} // verus!
