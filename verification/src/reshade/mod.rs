pub mod presets;
pub mod ini_edit;
pub mod gpu_adapt;
pub mod api;
pub mod config;
pub mod bundle;
pub mod resolve;
pub mod game_presets;
pub mod detect;
pub mod install;
pub mod remove;
