//! Verified core of an asset build pipeline: URL resolution, a memoizing
//! load cache, the model pipeline's stages and the composite-object loader.

pub mod asset_url;
pub mod cache;
pub mod grid;
pub mod identifier;
pub mod model_crate;
pub mod object;
pub mod out_asset;
pub mod pipeline;
pub mod scaffold;
pub mod scene;
pub mod seq_util;
pub mod text;
pub mod texture;
