//! Game settings master: ReShade preset handling, remote preset packs,
//! profile checks, Unity boot.config and scalability limits.
pub mod known_games;
pub mod models;
pub mod paths;
pub mod profiles;
pub mod remote_presets;
pub mod reshade;
pub mod resource_paths;
pub mod safety;
pub mod scalability;
pub mod encoding;
pub mod text;
pub mod unity;
