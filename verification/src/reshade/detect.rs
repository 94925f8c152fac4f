//! The install marker left in a game directory, and the ReShade status of a
//! game assembled from it, the settings and what was found on disk.
use vstd::prelude::*;
use crate::known_games::{any_eq, opt_sv, KnownGameEntry};
use crate::models::{GameProfile, GpuCapabilities};
use crate::paths::join_spec;
use crate::reshade::api::{all_apis, api_files, api_id, known_install_file, parse_api, strs_view, GraphicsApi};
use crate::reshade::config::{game_entry, ReShadeSettings};
use crate::reshade::game_presets::{suggested_api_spec, suggested_reshade_api_for_game};
use crate::reshade::gpu_adapt::{adapt_preset_with_gpu, adapted_preset, weak_gpu_lower};
use crate::text::lowercase_of;
use crate::text::{chars_of, contains, has_char, str_views};

verus! {

/// File name of the marker GSM leaves in a game directory.
pub fn marker_file_name() -> (r: &'static str)
    ensures
        r@ == ".gsm-reshade-installed.json"@,
{
    ".gsm-reshade-installed.json"
}

/// Directory name of the backups GSM keeps in a game directory.
pub fn backup_dir_name() -> (r: &'static str)
    ensures
        r@ == ".gsm-reshade-backup"@,
{
    ".gsm-reshade-backup"
}

#[derive(Debug, Clone)]
pub struct InstallMarker {
    pub preset_id: String,
    pub graphics_api: String,
    pub proxy_dll: Option<String>,
    pub installed_files: Vec<String>,
    pub installed_at: String,
    /// The Vulkan layer could not be registered.
    pub needs_vulkan_registry: bool,
}

/// A marker may only name a known proxy or layer file: a plain name with
/// no separator, drive colon or `..`.
pub open spec fn safe_marker_name(name: Seq<char>) -> bool {
    &&& name.len() > 0
    &&& !has_char(name, '\\')
    &&& !has_char(name, '/')
    &&& !has_char(name, ':')
    &&& !contains(name, ".."@)
    &&& known_install_file(name)
}

pub fn is_safe_marker_filename(name: &str) -> (r: bool)
    ensures
        r == safe_marker_name(name@),
{
    let v = chars_of(name);
    if v.len() == 0 {
        return false;
    }
    if crate::text::has_char_vec(&v, '\\') || crate::text::has_char_vec(&v, '/')
        || crate::text::has_char_vec(&v, ':') || crate::text::contains_str(&v, "..") {
        return false;
    }
    crate::reshade::api::is_known_install_filename(name)
}

/// The safe names among `xs`, in order.
pub open spec fn safe_names(xs: Seq<Seq<char>>) -> Seq<Seq<char>>
    decreases xs.len(),
{
    if xs.len() == 0 {
        seq![]
    } else if safe_marker_name(xs.last()) {
        safe_names(xs.drop_last()).push(xs.last())
    } else {
        safe_names(xs.drop_last())
    }
}

/// The files a marker names: its file list, or else its proxy DLL, keeping
/// only safe names.
pub open spec fn marker_files(m: InstallMarker) -> Seq<Seq<char>> {
    let raw = if m.installed_files@.len() > 0 {
        str_views(m.installed_files@)
    } else {
        match m.proxy_dll {
            Some(p) => seq![p@],
            None => seq![],
        }
    };
    safe_names(raw)
}

pub proof fn lemma_safe_names(xs: Seq<Seq<char>>)
    ensures
        forall|i: int| 0 <= i < safe_names(xs).len() ==> safe_marker_name(#[trigger] safe_names(xs)[i]),
        forall|i: int| 0 <= i < xs.len() && safe_marker_name(#[trigger] xs[i]) ==> safe_names(xs).contains(xs[i]),
    decreases xs.len(),
{
    if xs.len() > 0 {
        let init = xs.drop_last();
        lemma_safe_names(init);
        let s = safe_names(xs);
        let si = safe_names(init);
        assert forall|i: int| 0 <= i < s.len() implies safe_marker_name(#[trigger] s[i]) by {
            if i < si.len() {
                assert(s[i] == si[i]);
            }
        }
        assert forall|i: int| 0 <= i < xs.len() && safe_marker_name(#[trigger] xs[i]) implies s.contains(xs[i]) by {
            if i == xs.len() - 1 {
                assert(s[s.len() - 1] == xs[i]);
            } else {
                assert(init[i] == xs[i]);
                assert(si.contains(xs[i]));
                let k = choose|k: int| 0 <= k < si.len() && si[k] == xs[i];
                assert(s[k] == xs[i]);
            }
        }
    }
}

/// Law: every file a marker names is a plain, known proxy or layer file
/// name (no separator, drive or `..`), and every such name it lists is kept.
pub proof fn marker_files_are_safe(m: InstallMarker)
    ensures
        forall|i: int| 0 <= i < marker_files(m).len() ==> safe_marker_name(#[trigger] marker_files(m)[i]),
        m.installed_files@.len() > 0 ==> forall|i: int|
            0 <= i < m.installed_files@.len() && safe_marker_name((#[trigger] m.installed_files@[i])@)
                ==> marker_files(m).contains(m.installed_files@[i]@),
{
    let raw = if m.installed_files@.len() > 0 {
        str_views(m.installed_files@)
    } else {
        match m.proxy_dll {
            Some(p) => seq![p@],
            None => seq![],
        }
    };
    lemma_safe_names(raw);
    if m.installed_files@.len() > 0 {
        assert forall|i: int|
            0 <= i < m.installed_files@.len() && safe_marker_name((#[trigger] m.installed_files@[i])@)
            implies marker_files(m).contains(m.installed_files@[i]@) by {
            assert(raw[i] == m.installed_files@[i]@);
        }
    }
}

fn filter_safe(xs: &Vec<String>) -> (r: Vec<String>)
    ensures
        str_views(r@) == safe_names(str_views(xs@)),
{
    let ghost v = str_views(xs@);
    let mut out: Vec<String> = Vec::new();
    let mut i: usize = 0;
    while i < xs.len()
        invariant
            i <= xs.len(),
            v == str_views(xs@),
            str_views(out@) == safe_names(v.take(i as int)),
        decreases xs.len() - i,
    {
        assert(v.take(i + 1).drop_last() =~= v.take(i as int));
        assert(v.take(i + 1).last() == xs@[i as int]@);
        if is_safe_marker_filename(xs[i].as_str()) {
            proof {
                crate::text::lemma_str_views_push(out@, xs@[i as int]);
            }
            out.push(xs[i].clone());
        }
        i += 1;
    }
    assert(v.take(i as int) =~= v);
    out
}

impl InstallMarker {
    /// The safe files the marker names.
    pub fn files(&self) -> (r: Vec<String>)
        ensures
            str_views(r@) == marker_files(*self),
    {
        if self.installed_files.len() > 0 {
            filter_safe(&self.installed_files)
        } else {
            let mut raw: Vec<String> = Vec::new();
            match &self.proxy_dll {
                Some(p) => raw.push(p.clone()),
                None => {},
            }
            assert(str_views(raw@) =~= match self.proxy_dll {
                Some(p) => seq![p@],
                None => seq![],
            });
            filter_safe(&raw)
        }
    }
}

/// Where a marker-listed file is, when its name is safe.
pub fn safe_marker_path(target_dir: &str, filename: &str) -> (r: Option<String>)
    ensures
        match r {
            Some(p) => safe_marker_name(filename@) && p@ == join_spec(target_dir@, filename@),
            None => !safe_marker_name(filename@),
        },
{
    if !is_safe_marker_filename(filename) {
        return None;
    }
    Some(crate::paths::join(target_dir, filename))
}

/// Whether some safe marker file still exists in the game directory
/// (`existing` lists the paths present there).
pub fn marker_proxy_paths_still_present(target_dir: &str, files: &Vec<String>, existing: &Vec<String>) -> (r:
    bool)
    ensures
        r == exists|i: int|
            0 <= i < files@.len() && safe_marker_name((#[trigger] files@[i])@) && any_eq(
                existing@,
                join_spec(target_dir@, files@[i]@),
            ),
{
    let mut i: usize = 0;
    while i < files.len()
        invariant
            i <= files.len(),
            forall|k: int|
                0 <= k < i ==> !(safe_marker_name((#[trigger] files@[k])@) && any_eq(
                    existing@,
                    join_spec(target_dir@, files@[k]@),
                )),
        decreases files.len() - i,
    {
        match safe_marker_path(target_dir, files[i].as_str()) {
            Some(p) => {
                let pv = chars_of(p.as_str());
                if crate::known_games::list_has(existing, &pv) {
                    return true;
                }
            },
            None => {},
        }
        i += 1;
    }
    false
}

/// The marker's path in a game directory.
pub fn marker_path(target_dir: &str) -> (r: String)
    ensures
        r@ == join_spec(target_dir@, ".gsm-reshade-installed.json"@),
{
    crate::paths::join(target_dir, marker_file_name())
}

/// The backup directory's path in a game directory.
pub fn backup_dir(target_dir: &str) -> (r: String)
    ensures
        r@ == join_spec(target_dir@, ".gsm-reshade-backup"@),
{
    crate::paths::join(target_dir, backup_dir_name())
}

/// Every name of `xs` is among `ys`.
pub open spec fn all_among(xs: Seq<Seq<char>>, ys: Seq<String>) -> bool {
    forall|i: int| 0 <= i < xs.len() ==> any_eq(ys, #[trigger] xs[i])
}

fn all_among_exec(xs: &Vec<String>, ys: &Vec<String>) -> (r: bool)
    ensures
        r == all_among(str_views(xs@), ys@),
{
    let mut i: usize = 0;
    while i < xs.len()
        invariant
            i <= xs.len(),
            forall|k: int| 0 <= k < i ==> any_eq(ys@, #[trigger] str_views(xs@)[k]),
        decreases xs.len() - i,
    {
        let v = chars_of(xs[i].as_str());
        if !crate::known_games::list_has(ys, &v) {
            assert(!any_eq(ys@, str_views(xs@)[i as int]));
            return false;
        }
        i += 1;
    }
    true
}

/// Whether the shipped binaries of an API are all valid (`valid` lists the
/// shipped file names that pass the check).
pub open spec fn api_bundle_valid(a: GraphicsApi, valid: Seq<String>) -> bool {
    all_among(api_files(a), valid)
}

pub fn bundle_binaries_valid_for_api(api: GraphicsApi, valid: &Vec<String>) -> (r: bool)
    ensures
        r == api_bundle_valid(api, valid@),
{
    let files = api.files_to_install();
    let mut i: usize = 0;
    while i < files.len()
        invariant
            i <= files.len(),
            strs_view(files@) == api_files(api),
            forall|k: int| 0 <= k < i ==> any_eq(valid@, #[trigger] api_files(api)[k]),
        decreases files.len() - i,
    {
        let v = chars_of(files[i]);
        if !crate::known_games::list_has(valid, &v) {
            assert(!any_eq(valid@, api_files(api)[i as int]));
            return false;
        }
        assert(strs_view(files@)[i as int] == files@[i as int]@);
        i += 1;
    }
    true
}

pub fn bundle_ready_for_api(api: GraphicsApi, valid: &Vec<String>) -> (r: bool)
    ensures
        r == api_bundle_valid(api, valid@),
{
    bundle_binaries_valid_for_api(api, valid)
}

/// The configured API's bundle, or else whether some API's bundle, is
/// valid.
pub open spec fn bundle_valid_for(configured: Option<GraphicsApi>, valid: Seq<String>) -> bool {
    match configured {
        Some(a) => api_bundle_valid(a, valid),
        None => exists|k: int| 0 <= k < all_apis().len() && api_bundle_valid(#[trigger] all_apis()[k], valid),
    }
}

fn bundle_valid_for_exec(configured: Option<GraphicsApi>, valid: &Vec<String>) -> (r: bool)
    ensures
        r == bundle_valid_for(configured, valid@),
{
    match configured {
        Some(a) => bundle_binaries_valid_for_api(a, valid),
        None => {
            let apis = GraphicsApi::all();
            let mut i: usize = 0;
            while i < apis.len()
                invariant
                    i <= apis.len(),
                    apis@ == all_apis(),
                    configured is None,
                    forall|k: int| 0 <= k < i ==> !api_bundle_valid(#[trigger] all_apis()[k], valid@),
                decreases apis.len() - i,
            {
                if bundle_binaries_valid_for_api(apis[i], valid) {
                    assert(api_bundle_valid(all_apis()[i as int], valid@));
                    return true;
                }
                i += 1;
            }
            false
        },
    }
}

/// What was found in and around the game directory.
#[derive(Debug, Clone)]
pub struct InstallFacts {
    pub target_dir: String,
    pub marker: Option<InstallMarker>,
    /// Names of the regular files in the target directory.
    pub present_files: Vec<String>,
    /// Names of the files in the target directory that pass the proxy
    /// check.
    pub valid_proxies: Vec<String>,
    pub reshade_ini_present: bool,
    /// Names of the shipped binaries that pass the bundle check.
    pub valid_bundled: Vec<String>,
    pub shaders_present: bool,
    pub shaders_in_bundle: bool,
    pub exe_path: Option<String>,
}

#[derive(Debug, Clone)]
pub struct ReShadeGameStatus {
    pub game_id: String,
    pub install_dir: String,
    pub target_dir: String,
    pub saved_api: Option<String>,
    pub api_remembered: bool,
    pub configured_api: Option<GraphicsApi>,
    pub installed_api: Option<String>,
    pub installed_files: Vec<String>,
    pub installed: bool,
    pub active_preset: Option<String>,
    pub api_matches_install: bool,
    pub reshade_ini_present: bool,
    pub bundle_ready: bool,
    pub bundled_binaries_valid: bool,
    pub shaders_present: bool,
    pub shaders_in_bundle: bool,
    pub installed_proxy_valid: bool,
    pub broken_install: bool,
    pub exe_path: Option<String>,
    pub suggested_api: Option<String>,
    pub gpu_name: Option<String>,
    pub gpu_adapt_reason: Option<String>,
    /// The preset the user chose (before adapting to the GPU).
    pub requested_preset: Option<String>,
    /// The preset that will be installed (after adapting to the GPU).
    pub effective_preset: Option<String>,
}

/// Whether an install is complete: a marker, all its files present and
/// valid, and for Vulkan the layer registered.
pub open spec fn install_complete(f: InstallFacts) -> bool {
    match f.marker {
        Some(m) => all_among(marker_files(m), f.present_files@) && all_among(
            marker_files(m),
            f.valid_proxies@,
        ) && !(m.needs_vulkan_registry && m.graphics_api@ == api_id(GraphicsApi::Vulkan)),
        None => false,
    }
}

/// The API saved for the game, when it names a known one.
pub open spec fn configured_api_spec(cfg: ReShadeSettings, gid: Seq<char>) -> Option<GraphicsApi> {
    match game_entry(cfg.per_game@, gid) {
        Some(s) => match s.api {
            Some(a) => parse_api(a@),
            None => None,
        },
        None => None,
    }
}

pub open spec fn requested_spec(cfg: ReShadeSettings, gid: Seq<char>) -> Seq<char> {
    match game_entry(cfg.per_game@, gid) {
        Some(s) if s.preset is Some => s.preset->0@,
        _ => cfg.default_preset@,
    }
}

fn clone_opt_string(o: &Option<String>) -> (r: Option<String>)
    ensures
        r == *o,
{
    match o {
        Some(s) => Some(s.clone()),
        None => None,
    }
}

/// The ReShade status of a game.
pub fn get_status_with_settings(
    profile: &GameProfile,
    cfg: &ReShadeSettings,
    facts: &InstallFacts,
    known: &Vec<KnownGameEntry>,
    gpu: &GpuCapabilities,
) -> (r: ReShadeGameStatus)
    ensures
        r.game_id == profile.id,
        r.install_dir == profile.install_dir,
        r.target_dir == facts.target_dir,
        r.saved_api == match game_entry(cfg.per_game@, profile.id@) {
            Some(s) => s.api,
            None => None,
        },
        r.api_remembered == match game_entry(cfg.per_game@, profile.id@) {
            Some(s) => s.api_remembered,
            None => false,
        },
        r.configured_api == configured_api_spec(*cfg, profile.id@),
        opt_sv(r.installed_api) == match facts.marker {
            Some(m) => Some(m.graphics_api@),
            None => None,
        },
        str_views(r.installed_files@) == match facts.marker {
            Some(m) => marker_files(m),
            None => seq![],
        },
        r.installed == install_complete(*facts),
        r.broken_install == (facts.marker is Some && (!install_complete(*facts) || (
        facts.marker->0.needs_vulkan_registry && facts.marker->0.graphics_api@ == api_id(
            GraphicsApi::Vulkan,
        )))),
        r.installed_proxy_valid == match facts.marker {
            Some(m) => all_among(marker_files(m), facts.valid_proxies@),
            None => true,
        },
        opt_sv(r.active_preset) == match facts.marker {
            Some(m) => Some(m.preset_id@),
            None => None,
        },
        r.api_matches_install == (configured_api_spec(*cfg, profile.id@) is Some
            && facts.marker is Some && api_id(configured_api_spec(*cfg, profile.id@)->0)
            == facts.marker->0.graphics_api@),
        r.reshade_ini_present == facts.reshade_ini_present,
        r.bundle_ready == bundle_valid_for(
            configured_api_spec(*cfg, profile.id@),
            facts.valid_bundled@,
        ),
        r.bundled_binaries_valid == r.bundle_ready,
        r.shaders_present == facts.shaders_present,
        r.shaders_in_bundle == facts.shaders_in_bundle,
        r.exe_path == facts.exe_path,
        opt_sv(r.suggested_api) == suggested_api_spec(
            known@,
            profile.id@,
            Some(profile.engine_family@),
        ),
        opt_sv(r.gpu_name) == Some(gpu.name@),
        opt_sv(r.requested_preset) == Some(requested_spec(*cfg, profile.id@)),
        opt_sv(r.effective_preset) == Some(
            adapted_preset(
                weak_gpu_lower(gpu.vendor, lowercase_of(gpu.name@)),
                requested_spec(*cfg, profile.id@),
            ),
        ),
        r.gpu_adapt_reason is Some <==> adapted_preset(
            weak_gpu_lower(gpu.vendor, lowercase_of(gpu.name@)),
            requested_spec(*cfg, profile.id@),
        ) != requested_spec(*cfg, profile.id@),
        r.gpu_adapt_reason matches Some(m) ==> m@ == "Слабая GPU ("@ + gpu.name@
            + ") — выбран Performance вместо "@ + requested_spec(*cfg, profile.id@),
{
    let per_game = cfg.game(profile.id.as_str());
    let saved_api: Option<String> = match per_game {
        Some(g) => clone_opt_string(&g.api),
        None => None,
    };
    let api_remembered = match per_game {
        Some(g) => g.api_remembered,
        None => false,
    };
    let configured_api = crate::reshade::config::saved_api_for_game(cfg, profile.id.as_str());
    let installed_files: Vec<String> = match &facts.marker {
        Some(m) => m.files(),
        None => Vec::new(),
    };
    let installed_api: Option<String> = match &facts.marker {
        Some(m) => Some(crate::text::owned(m.graphics_api.as_str())),
        None => None,
    };
    let proxy_present = all_among_exec(&installed_files, &facts.present_files);
    let api_matches_install = match (&configured_api, &facts.marker) {
        (Some(a), Some(m)) => crate::text::str_eq(a.as_str(), m.graphics_api.as_str()),
        _ => false,
    };
    let bundle_ready = bundle_valid_for_exec(configured_api, &facts.valid_bundled);
    let installed_proxy_valid = all_among_exec(&installed_files, &facts.valid_proxies);
    let has_marker = facts.marker.is_some();
    let vulkan_registry_missing = match &facts.marker {
        Some(m) => m.needs_vulkan_registry && crate::text::str_eq(
            m.graphics_api.as_str(),
            GraphicsApi::Vulkan.as_str(),
        ),
        None => false,
    };
    let installed = has_marker && proxy_present && installed_proxy_valid
        && !vulkan_registry_missing;
    let broken_install = has_marker && (!installed || vulkan_registry_missing);
    let suggested_api = suggested_reshade_api_for_game(
        known,
        profile.id.as_str(),
        Some(profile.engine_family.as_str()),
    );
    let requested: String = match per_game {
        Some(g) => match &g.preset {
            Some(p) => crate::text::owned(p.as_str()),
            None => crate::text::owned(cfg.default_preset.as_str()),
        },
        None => crate::text::owned(cfg.default_preset.as_str()),
    };
    let adapt = adapt_preset_with_gpu(requested.as_str(), gpu);
    let active_preset: Option<String> = match &facts.marker {
        Some(m) => Some(crate::text::owned(m.preset_id.as_str())),
        None => None,
    };
    ReShadeGameStatus {
        game_id: profile.id.clone(),
        install_dir: profile.install_dir.clone(),
        target_dir: facts.target_dir.clone(),
        saved_api,
        api_remembered,
        configured_api,
        installed_api,
        installed_files,
        installed,
        active_preset,
        api_matches_install,
        reshade_ini_present: facts.reshade_ini_present,
        bundle_ready,
        bundled_binaries_valid: bundle_ready,
        shaders_present: facts.shaders_present,
        shaders_in_bundle: facts.shaders_in_bundle,
        installed_proxy_valid,
        broken_install,
        exe_path: clone_opt_string(&facts.exe_path),
        suggested_api,
        gpu_name: Some(crate::text::owned(gpu.name.as_str())),
        gpu_adapt_reason: adapt.reason,
        requested_preset: Some(requested),
        effective_preset: Some(adapt.preset_id),
    }
}

} // verus!
