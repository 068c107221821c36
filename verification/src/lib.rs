//! Paths, resource identifiers and the asset, input and connection logic
//! of a game client.
pub mod path_spec;
pub mod text;
pub mod components;
pub mod spath;
pub mod order;
pub mod ordering;
pub mod resource;
pub mod asset;
pub mod sprite;
pub mod number;
pub mod texture;
pub mod atlas;
pub mod queue;
pub mod session;
pub mod players;
pub mod path_laws;
pub mod input;
pub mod path_hash;
pub mod extension;
pub mod hud;
pub mod asset_laws;
