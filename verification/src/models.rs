//! Shared data types: game profiles, INI overrides, preset descriptions,
//! config diffs and GPU facts.
use vstd::prelude::*;

verus! {

/// A game the user has added or that a scan found.
#[derive(Debug, Clone)]
pub struct GameProfile {
    pub id: String,
    pub name: String,
    pub source: String,
    pub install_dir: String,
    pub config_dir: Option<String>,
    pub exe_name: Option<String>,
    pub is_ue: bool,
    pub is_unity: bool,
    pub is_author_curated: bool,
    pub possible_unity: bool,
    pub possible_ue: bool,
    pub cover_url: Option<String>,
    pub custom_cover: Option<String>,
    pub build_id: Option<String>,
    pub engine_family: String,
    pub engine_version: Option<String>,
}

/// INI changes for one game: `files` is `[(file, [(section, [(key, value)])])]`,
/// `removals` is `[(file, [(section, [key])])]`.
#[derive(Debug, Clone)]
pub struct GameOverride {
    pub game_id: String,
    pub name: String,
    pub files: Vec<(String, Vec<(String, Vec<(String, String)>)>)>,
    pub removals: Vec<(String, Vec<(String, Vec<String>)>)>,
}

#[derive(Debug, Clone)]
pub struct PresetInfo {
    pub id: String,
    pub name: String,
    pub description: String,
}

/// One key whose value a change would set.
#[derive(Debug, Clone)]
pub struct ConfigDiffEntry {
    pub file: String,
    pub section: String,
    pub key: String,
    pub old_value: Option<String>,
    pub new_value: String,
}

/// A preset as file → section → key → value.
#[derive(Debug, Clone)]
pub struct PresetDefinition {
    pub id: String,
    pub name: String,
    pub description: String,
    pub files: Vec<(String, Vec<(String, Vec<(String, String)>)>)>,
}

#[derive(Debug, Clone, Copy, PartialEq, Eq, Structural)]
pub enum GpuVendor {
    Nvidia,
    Amd,
    Intel,
    Other,
}

/// What is known of the GPU in use.
#[derive(Debug, Clone)]
pub struct GpuCapabilities {
    pub name: String,
    pub vendor: GpuVendor,
    pub supports_dlss: bool,
    pub supports_dlss_fg: bool,
    pub supports_ray_tracing: bool,
}

} // verus!
