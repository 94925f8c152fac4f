//! The decisions of installing, updating and launching with ReShade: the
//! INI written into the game, when to (re)install, what to back up, and the
//! messages shown. Copying files, the registry and processes are handled
//! around them.
use vstd::prelude::*;
use crate::known_games::{any_eq, opt_sv};
use crate::models::GameProfile;
use crate::reshade::api::{api_files, api_id, strs_view, GraphicsApi};
use crate::reshade::bundle::{bundle_error_kind, bundled_file_error, validate_bundled_file, BundleError, FileFacts};
use crate::reshade::detect::{marker_files, InstallMarker};
use crate::reshade::ini_edit::{
    apply_behavior_to_base, apply_overrides_to_preset, PresetOverrides,
};
use crate::text::{
    append_all, append_str, chars_of, has_suffix, join, str_views, string_of, trim, trim_end,
    trim_end_vec, trim_str,
};

verus! {

#[derive(Debug, Clone)]
pub struct InstallResult {
    pub target_dir: String,
    pub preset_id: String,
    pub graphics_api: GraphicsApi,
    pub installed_files: Vec<String>,
    pub warnings: Vec<String>,
}

/// Separator written between the base INI and the preset.
pub open spec fn preset_separator() -> Seq<char> {
    "\n\n; --- GSM preset ---\n"@
}

/// The base INI (trailing white space removed), the separator, the preset
/// (trimmed), ending with a line break.
pub open spec fn merged_ini(base: Seq<char>, preset: Seq<char>) -> Seq<char> {
    let out = trim_end(base) + preset_separator() + trim(preset);
    if out.len() > 0 && out.last() == '\n' {
        out
    } else {
        out.push('\n')
    }
}

pub fn merge_ini_sections(base: &str, preset: &str) -> (r: String)
    ensures
        r@ == merged_ini(base@, preset@),
{
    let mut out = trim_end_vec(&chars_of(base));
    append_str(&mut out, "\n\n; --- GSM preset ---\n");
    let p = trim_str(preset);
    append_all(&mut out, &p);
    if !(out.len() > 0 && out[out.len() - 1] == '\n') {
        out.push('\n');
    }
    string_of(&out)
}

/// The preset text used when the preset's shaders are missing: all
/// effects off.
pub fn safe_preset_overlay() -> (r: &'static str)
    ensures
        r@ == "; GSM safe fallback — эффекты отключены (нет шейдеров в бандле)\nTechniques=\nTechniqueSorting=\n"@,
{
    "; GSM safe fallback — эффекты отключены (нет шейдеров в бандле)\nTechniques=\nTechniqueSorting=\n"
}

/// The `ReShade.ini` base used when the bundle has none.
pub fn default_base_ini() -> (r: String)
    ensures
        r@ == "[GENERAL]\nEffectSearchPaths=.\\reshade-shaders\\Shaders\nTextureSearchPaths=.\\reshade-shaders\\Textures\nPreprocessorDefinitions=\nPresetPath=.\nPresetTransitionDuration=1000\n"@,
{
    crate::text::owned(
        "[GENERAL]\nEffectSearchPaths=.\\reshade-shaders\\Shaders\nTextureSearchPaths=.\\reshade-shaders\\Textures\nPreprocessorDefinitions=\nPresetPath=.\nPresetTransitionDuration=1000\n",
    )
}

/// The `ReShade.ini` written into a game: the base with the behaviour
/// overrides applied, then the preset (the real one when its shaders are
/// there, else the safe overlay) with the overrides applied.
pub fn reshade_ini_content(
    base_ini: &str,
    preset_ini: &str,
    shaders_ready: bool,
    overrides: Option<&PresetOverrides>,
) -> (r: String)
    ensures
        ({
            let base = match overrides {
                Some(o) => match o.behavior {
                    Some(b) => crate::reshade::ini_edit::with_final_newline(
                        join(
                            crate::reshade::ini_edit::behavior_lines(
                                crate::text::lines_of(base_ini@),
                                b.performance_mode,
                                crate::reshade::ini_edit::opt_string_view(b.key_overlay),
                                crate::reshade::ini_edit::opt_string_view(b.key_toggle_effects),
                            ),
                            "\n"@,
                        ),
                    ),
                    None => base_ini@,
                },
                None => base_ini@,
            };
            let chosen = if shaders_ready {
                preset_ini@
            } else {
                "; GSM safe fallback — эффекты отключены (нет шейдеров в бандле)\nTechniques=\nTechniqueSorting=\n"@
            };
            let preset = match overrides {
                Some(o) => crate::reshade::ini_edit::apply_overrides_text(
                    chosen,
                    crate::reshade::ini_edit::opt_str_views(o.techniques),
                    crate::reshade::ini_edit::override_param_views(o.parameters@),
                ),
                None => chosen,
            };
            r@ == merged_ini(base, preset)
        }),
{
    let base: String = match overrides {
        Some(o) => match &o.behavior {
            Some(b) => apply_behavior_to_base(base_ini, b),
            None => crate::text::owned(base_ini),
        },
        None => crate::text::owned(base_ini),
    };
    let chosen: &str = if shaders_ready {
        preset_ini
    } else {
        safe_preset_overlay()
    };
    let preset: String = match overrides {
        Some(o) => apply_overrides_to_preset(chosen, o),
        None => crate::text::owned(chosen),
    };
    merge_ini_sections(base.as_str(), preset.as_str())
}

/// ReShade can be touched only for a profile whose trimmed install
/// directory is not empty and exists.
pub fn reshade_ops_possible(profile: &GameProfile, install_exists: bool) -> (r: bool)
    ensures
        r == (trim(profile.install_dir@).len() > 0 && install_exists),
{
    trim_str(profile.install_dir.as_str()).len() > 0 && install_exists
}

/// ReShade is applied on launch when it is active for the game and can be
/// touched.
pub fn reshade_launch_applicable(active: bool, ops_possible: bool) -> (r: bool)
    ensures
        r == (active && ops_possible),
{
    active && ops_possible
}

/// What was found in the install target when launching without ReShade.
#[derive(Debug, Clone, Copy)]
pub struct LaunchFootprint {
    pub marker_present: bool,
    pub broken_proxy_present: bool,
    pub gsm_artifacts: bool,
    pub known_proxy_present: bool,
}

/// Launching without ReShade removes it when the target holds a marker, a
/// broken proxy, or known proxies with GSM's artifacts; otherwise when the
/// status says it is installed or broken.
pub open spec fn should_remove_spec(fp: Option<LaunchFootprint>, status: Option<(bool, bool)>) -> bool {
    let by_footprint = match fp {
        Some(f) => f.marker_present || f.broken_proxy_present || (f.gsm_artifacts
            && f.known_proxy_present),
        None => false,
    };
    by_footprint || match status {
        Some((installed, broken)) => installed || broken,
        None => false,
    }
}

/// `fp` is `None` when the install target could not be resolved; `status`
/// holds `(installed, broken_install)` when it could be read.
pub fn skip_launch_should_remove_reshade(fp: Option<LaunchFootprint>, status: Option<(bool, bool)>) -> (r:
    bool)
    ensures
        r == should_remove_spec(fp, status),
{
    match fp {
        Some(f) => {
            if f.marker_present || f.broken_proxy_present {
                return true;
            }
            if f.gsm_artifacts && f.known_proxy_present {
                return true;
            }
        },
        None => {},
    }
    match status {
        Some((installed, broken)) => installed || broken,
        None => false,
    }
}

/// What a launch does about ReShade.
#[derive(Debug, Clone, Copy, PartialEq, Eq)]
pub enum LaunchAction {
    /// Remove GSM's proxies (if any) and launch without effects.
    WithoutReShade,
    /// Make sure ReShade is installed with this API.
    Ensure(GraphicsApi),
}

#[derive(Debug, Clone, PartialEq, Eq)]
pub enum LaunchError {
    ApiRequired,
}

/// The launch policy: skipping, or ReShade not applicable, means launching
/// without it; otherwise an API must have been chosen.
pub fn launch_action(skip_reshade: bool, applicable: bool, api: Option<GraphicsApi>) -> (r: Result<
    LaunchAction,
    LaunchError,
>)
    ensures
        (skip_reshade || !applicable) ==> r == Ok::<LaunchAction, LaunchError>(
            LaunchAction::WithoutReShade,
        ),
        !skip_reshade && applicable && api is None ==> r == Err::<LaunchAction, LaunchError>(
            LaunchError::ApiRequired,
        ),
        !skip_reshade && applicable && api is Some ==> r == Ok::<LaunchAction, LaunchError>(
            LaunchAction::Ensure(api->0),
        ),
{
    if skip_reshade || !applicable {
        return Ok(LaunchAction::WithoutReShade);
    }
    match api {
        None => Err(LaunchError::ApiRequired),
        Some(a) => Ok(LaunchAction::Ensure(a)),
    }
}

/// The message when an API is required before launch.
pub fn api_required_message() -> (r: &'static str)
    ensures
        r@ == "RESHADE_API_REQUIRED: Выберите графический API для ReShade перед запуском."@,
{
    "RESHADE_API_REQUIRED: Выберите графический API для ReShade перед запуском."
}

/// An install is needed unless ReShade is installed with this API and
/// this preset.
pub open spec fn needs_install_spec(
    installed: bool,
    installed_api: Option<Seq<char>>,
    active_preset: Option<Seq<char>>,
    api: GraphicsApi,
    preset: Seq<char>,
) -> bool {
    !installed || installed_api != Some(api_id(api)) || active_preset != Some(preset)
}

pub fn needs_install(
    installed: bool,
    installed_api: Option<&str>,
    active_preset: Option<&str>,
    api: GraphicsApi,
    preset: &str,
) -> (r: bool)
    ensures
        r == needs_install_spec(
            installed,
            match installed_api {
                Some(a) => Some(a@),
                None => None,
            },
            match active_preset {
                Some(p) => Some(p@),
                None => None,
            },
            api,
            preset@,
        ),
{
    if !installed {
        return true;
    }
    let api_same = match installed_api {
        Some(a) => crate::text::str_eq(a, api.as_str()),
        None => false,
    };
    let preset_same = match active_preset {
        Some(p) => crate::text::str_eq(p, preset),
        None => false,
    };
    !api_same || !preset_same
}

/// Why `ensure_installed` stops.
#[derive(Debug, Clone, PartialEq, Eq)]
pub enum EnsureError {
    /// A broken install could not be cleaned.
    StillBroken,
    /// The bundle only has stub DLLs (`true` when a broken install was
    /// removed first).
    StubBundle(bool),
}

/// What `ensure_installed` does once any broken install is cleaned.
#[derive(Debug, Clone, Copy, PartialEq, Eq)]
pub enum EnsureStep {
    Install,
    /// Installed as asked; only write `ReShade.ini` if it is missing.
    KeepWriteIniIfMissing,
}

/// Decides, after the repair step, how to make sure ReShade is installed:
/// a still broken install or an invalid bundle stop it; otherwise install
/// unless it is installed as asked.
pub fn plan_ensure(
    still_broken: bool,
    repaired_broken: bool,
    bundle_valid: bool,
    installed: bool,
    installed_api: Option<&str>,
    active_preset: Option<&str>,
    api: GraphicsApi,
    preset: &str,
) -> (r: Result<EnsureStep, EnsureError>)
    ensures
        still_broken ==> r == Err::<EnsureStep, EnsureError>(EnsureError::StillBroken),
        !still_broken && !bundle_valid ==> r == Err::<EnsureStep, EnsureError>(
            EnsureError::StubBundle(repaired_broken),
        ),
        !still_broken && bundle_valid ==> r == Ok::<EnsureStep, EnsureError>(
            if needs_install_spec(
                installed,
                match installed_api {
                    Some(a) => Some(a@),
                    None => None,
                },
                match active_preset {
                    Some(p) => Some(p@),
                    None => None,
                },
                api,
                preset@,
            ) {
                EnsureStep::Install
            } else {
                EnsureStep::KeepWriteIniIfMissing
            },
        ),
{
    if still_broken {
        return Err(EnsureError::StillBroken);
    }
    if !bundle_valid {
        return Err(EnsureError::StubBundle(repaired_broken));
    }
    if needs_install(installed, installed_api, active_preset, api, preset) {
        Ok(EnsureStep::Install)
    } else {
        Ok(EnsureStep::KeepWriteIniIfMissing)
    }
}

/// The message of an `ensure_installed` refusal.
pub fn ensure_error_message(e: &EnsureError) -> (r: String)
    ensures
        r@ == match e {
            EnsureError::StillBroken => "ReShade установлен некорректно и не удалось очистить proxy DLL. Откройте вкладку ReShade → «Удалить» или запустите «Без ReShade»."@,
            EnsureError::StubBundle(repaired) => "В бандле GSM только заглушки ReShade, не настоящие addon DLL."@
                + (if *repaired {
                " Повреждённый ReShade уже удалён, но переустановить нельзя — "@
            } else {
                " "@
            }) + "Скачайте addon с https://reshade.me → presets/reshade/bin/. Либо «Играть без ReShade» / отключите ReShade."@,
        },
{
    match e {
        EnsureError::StillBroken => crate::text::owned(
            "ReShade установлен некорректно и не удалось очистить proxy DLL. Откройте вкладку ReShade → «Удалить» или запустите «Без ReShade».",
        ),
        EnsureError::StubBundle(repaired) => {
            let mut m = chars_of("В бандле GSM только заглушки ReShade, не настоящие addon DLL.");
            if *repaired {
                append_str(&mut m, " Повреждённый ReShade уже удалён, но переустановить нельзя — ");
            } else {
                append_str(&mut m, " ");
            }
            append_str(
                &mut m,
                "Скачайте addon с https://reshade.me → presets/reshade/bin/. Либо «Играть без ReShade» / отключите ReShade.",
            );
            string_of(&m)
        },
    }
}

/// The files an API installs, as owned names.
pub fn installed_file_names(api: GraphicsApi) -> (r: Vec<String>)
    ensures
        str_views(r@) == api_files(api),
{
    let fs = api.files_to_install();
    let mut out: Vec<String> = Vec::new();
    let mut j: usize = 0;
    while j < fs.len()
        invariant
            j <= fs.len(),
            str_views(out@) == strs_view(fs@).take(j as int),
            strs_view(fs@) == api_files(api),
        decreases fs.len() - j,
    {
        let f = crate::text::owned(fs[j]);
        proof {
            crate::text::lemma_str_views_push(out@, f);
        }
        out.push(f);
        assert(str_views(out@) =~= strs_view(fs@).take(j + 1));
        j += 1;
    }
    assert(strs_view(fs@).take(fs.len() as int) =~= strs_view(fs@));
    out
}

/// The proxies of an API that exist in the game directory and have no
/// backup yet (`existing` and `backed_up` list file names).
pub open spec fn backup_names(files: Seq<Seq<char>>, existing: Seq<String>, backed_up: Seq<String>) -> Seq<
    Seq<char>,
>
    decreases files.len(),
{
    if files.len() == 0 {
        seq![]
    } else {
        let rest = backup_names(files.drop_last(), existing, backed_up);
        if any_eq(existing, files.last()) && !any_eq(backed_up, files.last()) {
            rest.push(files.last())
        } else {
            rest
        }
    }
}

pub fn files_to_backup(api: GraphicsApi, existing: &Vec<String>, backed_up: &Vec<String>) -> (r: Vec<
    String,
>)
    ensures
        str_views(r@) == backup_names(api_files(api), existing@, backed_up@),
{
    let names = installed_file_names(api);
    let ghost nv = str_views(names@);
    let mut out: Vec<String> = Vec::new();
    let mut i: usize = 0;
    while i < names.len()
        invariant
            i <= names.len(),
            nv == str_views(names@),
            nv == api_files(api),
            str_views(out@) == backup_names(nv.take(i as int), existing@, backed_up@),
        decreases names.len() - i,
    {
        assert(nv.take(i + 1).drop_last() =~= nv.take(i as int));
        assert(nv.take(i + 1).last() == names@[i as int]@);
        let v = chars_of(names[i].as_str());
        if crate::known_games::list_has(existing, &v) && !crate::known_games::list_has(
            backed_up,
            &v,
        ) {
            proof {
                crate::text::lemma_str_views_push(out@, names@[i as int]);
            }
            out.push(names[i].clone());
        }
        i += 1;
    }
    assert(nv.take(i as int) =~= nv);
    out
}

/// What was found for the `i`-th file of an API in the bundle: its facts and
/// content; a file with no entry counts as missing.
pub open spec fn bundle_entry(files: Seq<(FileFacts, Vec<u8>)>, i: int) -> (FileFacts, Seq<u8>) {
    if 0 <= i < files.len() {
        (files[i].0, files[i].1@)
    } else {
        (FileFacts { is_file: false, size: 0, mz_header: false, text: None }, Seq::empty())
    }
}

pub open spec fn api_file_error(
    api: GraphicsApi,
    files: Seq<(FileFacts, Vec<u8>)>,
    hashes: Seq<(String, String)>,
    i: int,
) -> Option<u8> {
    bundled_file_error(api_files(api)[i], bundle_entry(files, i).0, hashes, bundle_entry(files, i).1)
}

/// Checks every file an API installs before anything in the game is
/// touched; `files[i]` is what was found for the `i`-th of `api`'s files.
/// The first file refused gives the error.
pub fn validate_api_bundle(
    api: GraphicsApi,
    files: &Vec<(FileFacts, Vec<u8>)>,
    hashes: &Vec<(String, String)>,
) -> (r: Result<(), BundleError>)
    ensures
        r is Ok <==> forall|i: int|
            0 <= i < api_files(api).len() ==> #[trigger] api_file_error(api, files@, hashes@, i) is None,
        r matches Err(e) ==> exists|i: int|
            0 <= i < api_files(api).len() && #[trigger] api_file_error(api, files@, hashes@, i)
                == Some(bundle_error_kind(e)) && forall|j: int|
                0 <= j < i ==> api_file_error(api, files@, hashes@, j) is None,
{
    let names = api.files_to_install();
    let missing = FileFacts { is_file: false, size: 0, mz_header: false, text: None };
    let empty: Vec<u8> = Vec::new();
    let mut i: usize = 0;
    while i < names.len()
        invariant
            i <= names.len(),
            strs_view(names@) == api_files(api),
            missing == (FileFacts { is_file: false, size: 0, mz_header: false, text: None }),
            empty@ == Seq::<u8>::empty(),
            forall|j: int| 0 <= j < i ==> #[trigger] api_file_error(api, files@, hashes@, j) is None,
        decreases names.len() - i,
    {
        assert(names@[i as int]@ == api_files(api)[i as int]);
        let res = if i < files.len() {
            validate_bundled_file(names[i], &files[i].0, hashes, files[i].1.as_slice())
        } else {
            validate_bundled_file(names[i], &missing, hashes, empty.as_slice())
        };
        match res {
            Err(e) => {
                assert(api_file_error(api, files@, hashes@, i as int) == Some(bundle_error_kind(e)));
                return Err(e);
            },
            Ok(()) => {},
        }
        i += 1;
    }
    Ok(())
}

/// The marker of a fresh install.
pub fn new_install_marker(preset: &str, api: GraphicsApi, installed_at: String, needs_vulkan_registry: bool) -> (r:
    InstallMarker)
    ensures
        r.preset_id@ == preset@,
        r.graphics_api@ == api_id(api),
        r.proxy_dll is None,
        str_views(r.installed_files@) == api_files(api),
        r.installed_at == installed_at,
        r.needs_vulkan_registry == needs_vulkan_registry,
{
    InstallMarker {
        preset_id: crate::text::owned(preset),
        graphics_api: crate::text::owned(api.as_str()),
        proxy_dll: None,
        installed_files: installed_file_names(api),
        installed_at,
        needs_vulkan_registry,
    }
}

/// An update keeps the install only when a marker exists for the same API;
/// otherwise it reinstalls.
pub fn update_needs_reinstall(marker: Option<&InstallMarker>, api: GraphicsApi) -> (r: bool)
    ensures
        r == match marker {
            None => true,
            Some(m) => m.graphics_api@ != api_id(api),
        },
{
    match marker {
        None => true,
        Some(m) => !crate::text::str_eq(m.graphics_api.as_str(), api.as_str()),
    }
}

/// The marker after an in-place preset update; `vulkan_registered` tells
/// whether a retried Vulkan registration succeeded.
pub fn updated_marker(
    marker: InstallMarker,
    preset: &str,
    api: GraphicsApi,
    installed_at: String,
    vulkan_registered: bool,
) -> (r: InstallMarker)
    ensures
        r.preset_id@ == preset@,
        r.graphics_api@ == api_id(api),
        r.installed_at == installed_at,
        r.proxy_dll == marker.proxy_dll,
        r.installed_files == marker.installed_files,
        r.needs_vulkan_registry == (marker.needs_vulkan_registry && !(api == GraphicsApi::Vulkan
            && vulkan_registered)),
{
    let mut m = marker;
    if api == GraphicsApi::Vulkan && m.needs_vulkan_registry && vulkan_registered {
        m.needs_vulkan_registry = false;
    }
    m.preset_id = crate::text::owned(preset);
    m.graphics_api = crate::text::owned(api.as_str());
    m.installed_at = installed_at;
    m
}

/// The result reported after installing or updating.
pub fn install_result(target_dir: String, preset: String, api: GraphicsApi, warnings: Vec<String>) -> (r:
    InstallResult)
    ensures
        r.target_dir == target_dir,
        r.preset_id == preset,
        r.graphics_api == api,
        str_views(r.installed_files@) == api_files(api),
        r.warnings == warnings,
{
    InstallResult {
        target_dir,
        preset_id: preset,
        graphics_api: api,
        installed_files: installed_file_names(api),
        warnings,
    }
}

/// The warning of an install whose preset shaders are missing.
pub fn shaders_missing_install_warning() -> (r: String)
    ensures
        r@ == "Шейдеры пресета отсутствуют в бандле — установлен безопасный режим (эффекты выкл.). Добавьте reshade-shaders в presets/reshade/shaders/Shaders/ и переустановите."@,
{
    crate::text::owned(
        "Шейдеры пресета отсутствуют в бандле — установлен безопасный режим (эффекты выкл.). Добавьте reshade-shaders в presets/reshade/shaders/Shaders/ и переустановите.",
    )
}

/// The warning of an update whose preset shaders are missing.
pub fn shaders_missing_update_warning() -> (r: String)
    ensures
        r@ == "Пресет применён без эффектов — шейдеры не найдены в бандле."@,
{
    crate::text::owned("Пресет применён без эффектов — шейдеры не найдены в бандле.")
}

/// The warning when the Vulkan layer could not be registered.
pub fn vulkan_registry_warning(err: &str) -> (r: String)
    ensures
        r@ == "VULKAN_REGISTRY_REQUIRED: Vulkan layer не зарегистрирован в реестре: "@ + err@
            + ". Установка завершена частично: прокси-файлы установлены, но для Vulkan нужен registry layer. Запустите GSM от администратора или установите ReShade через официальный setup."@,
{
    let mut m = chars_of("VULKAN_REGISTRY_REQUIRED: Vulkan layer не зарегистрирован в реестре: ");
    append_str(&mut m, err);
    append_str(
        &mut m,
        ". Установка завершена частично: прокси-файлы установлены, но для Vulkan нужен registry layer. Запустите GSM от администратора или установите ReShade через официальный setup.",
    );
    string_of(&m)
}

/// Texts joined with `sep`.
pub fn join_texts(parts: &Vec<String>, sep: &str) -> (r: String)
    ensures
        r@ == join(str_views(parts@), sep@),
{
    let mut vs: Vec<Vec<char>> = Vec::new();
    let mut i: usize = 0;
    while i < parts.len()
        invariant
            i <= parts.len(),
            crate::text::views(vs@) == str_views(parts@).take(i as int),
        decreases parts.len() - i,
    {
        let v = chars_of(parts[i].as_str());
        proof {
            crate::text::lemma_views_push(vs@, v);
        }
        vs.push(v);
        assert(crate::text::views(vs@) =~= str_views(parts@).take(i + 1));
        i += 1;
    }
    assert(str_views(parts@).take(i as int) =~= str_views(parts@));
    let sv = chars_of(sep);
    let j = crate::text::join_vec(&vs, &sv);
    string_of(&j)
}

/// The error of a failed install step after its rollback: the step's
/// message, then what the rollback could not undo, if anything.
pub fn failed_install_message(step: &str, err: &str, rollback_error: Option<&str>) -> (r: String)
    ensures
        r@ == step@ + err@ + ". Установка откатана."@ + match rollback_error {
            Some(e) => " "@ + e@,
            None => seq![],
        },
{
    let mut m = chars_of(step);
    append_str(&mut m, err);
    append_str(&mut m, ". Установка откатана.");
    match rollback_error {
        Some(e) => {
            append_str(&mut m, " ");
            append_str(&mut m, e);
        },
        None => {},
    }
    string_of(&m)
}

/// The rollback's own report: `Ok` when nothing failed.
pub fn rollback_report(errors: &Vec<String>) -> (r: Result<(), String>)
    ensures
        errors@.len() == 0 <==> r is Ok,
        r matches Err(m) ==> m@ == "Откат после неудачной установки выполнен не полностью: "@
            + join(str_views(errors@), "; "@),
{
    if errors.len() == 0 {
        return Ok(());
    }
    let mut m = chars_of("Откат после неудачной установки выполнен не полностью: ");
    let j = join_texts(errors, "; ");
    append_str(&mut m, j.as_str());
    Err(string_of(&m))
}

/// The error when previous proxies could not be removed.
pub fn leftover_proxies_message(left: &Vec<String>) -> (r: String)
    ensures
        r@ == "Не удалось снять предыдущий proxy ReShade: "@ + join(str_views(left@), ", "@),
{
    let mut m = chars_of("Не удалось снять предыдущий proxy ReShade: ");
    let j = join_texts(left, ", ");
    append_str(&mut m, j.as_str());
    string_of(&m)
}

/// The warning when launching without ReShade could not remove its
/// proxies.
pub open spec fn cleanup_failed_msg() -> Seq<char> {
    "Запуск без ReShade, но не удалось удалить proxy DLL из папки игры. Откройте вкладку ReShade → «Удалить» или удалите dxgi.dll/d3d11.dll вручную."@
}

/// What launching without ReShade reports: `None` when its proxies are
/// gone; the failure message (with the error, if removal failed) when a
/// marker is left or removal failed.
pub fn launch_cleanup_warning(removal_error: Option<&str>, marker_left: bool) -> (r: Option<String>)
    ensures
        match removal_error {
            Some(e) => r matches Some(m) && m@ == cleanup_failed_msg() + " ("@ + e@ + ")"@,
            None => if marker_left {
                r matches Some(m) && m@ == cleanup_failed_msg()
            } else {
                r is None
            },
        },
{
    let msg = "Запуск без ReShade, но не удалось удалить proxy DLL из папки игры. Откройте вкладку ReShade → «Удалить» или удалите dxgi.dll/d3d11.dll вручную.";
    match removal_error {
        Some(e) => {
            let mut m = chars_of(msg);
            append_str(&mut m, " (");
            append_str(&mut m, e);
            append_str(&mut m, ")");
            Some(string_of(&m))
        },
        None => if marker_left {
            Some(crate::text::owned(msg))
        } else {
            None
        },
    }
}

/// The files a best-effort cleanup removes: the marker's, else the known
/// proxies found in the directory.
pub fn best_effort_files(marker: Option<&InstallMarker>, found_proxies: Vec<String>) -> (r: Vec<
    String,
>)
    ensures
        ({
            let from_marker = match marker {
                Some(m) => marker_files(*m),
                None => seq![],
            };
            str_views(r@) == if from_marker.len() > 0 {
                from_marker
            } else {
                str_views(found_proxies@)
            }
        }),
{
    let files = match marker {
        Some(m) => m.files(),
        None => Vec::new(),
    };
    if files.len() > 0 {
        files
    } else {
        found_proxies
    }
}

/// The warning of a launch without ReShade while the game still runs:
/// what the best-effort cleanup did (`None` when the game directory was
/// unknown; else the list of failures).
pub fn best_effort_message(reason: &str, failures: Option<&Vec<String>>) -> (r: String)
    ensures
        r@ == "Запуск без ReShade: игра всё ещё запущена, полная деинсталляция отложена. "@ + reason@
            + " "@ + match failures {
            None => "Не удалось определить папку игры для best-effort очистки."@,
            Some(f) => if f@.len() == 0 {
                "Сделана best-effort очистка ReShade (часть файлов могла остаться заблокированной)."@
            } else {
                "Часть файлов не удалось удалить: "@ + join(str_views(f@), "; "@)
            },
        },
{
    let mut m = chars_of("Запуск без ReShade: игра всё ещё запущена, полная деинсталляция отложена. ");
    append_str(&mut m, reason);
    append_str(&mut m, " ");
    match failures {
        None => append_str(&mut m, "Не удалось определить папку игры для best-effort очистки."),
        Some(f) => if f.len() == 0 {
            append_str(
                &mut m,
                "Сделана best-effort очистка ReShade (часть файлов могла остаться заблокированной).",
            );
        } else {
            append_str(&mut m, "Часть файлов не удалось удалить: ");
            let j = join_texts(f, "; ");
            append_str(&mut m, j.as_str());
        },
    }
    string_of(&m)
}

/// The shader copy in a game is current when its directory exists and its
/// stamp (trimmed) is the bundle's fingerprint.
pub fn shaders_up_to_date(dest_is_dir: bool, stamp: Option<&str>, fingerprint: &str) -> (r: bool)
    ensures
        r == (dest_is_dir && stamp is Some && trim(stamp->0@) == fingerprint@),
{
    if !dest_is_dir {
        return false;
    }
    match stamp {
        Some(s) => {
            let t = trim_str(s);
            crate::text::seq_eq(&t, &chars_of(fingerprint))
        },
        None => false,
    }
}


// ---------------------------------------------------------------------------
// Launching without ReShade
// ---------------------------------------------------------------------------
/// How the removal before a launch without ReShade went.
#[derive(Debug, Clone, PartialEq, Eq)]
pub enum LaunchRemoval {
    /// Removal finished; whether GSM's marker is still in the directory.
    Done { marker_left: bool },
    /// Removal failed while the game runs; the report of the best-effort
    /// cleanup that followed.
    FailedWhileRunning { report: String },
    /// Removal failed with this error.
    Failed { error: String },
}

/// Launching without ReShade cleans the game directory only when ReShade
/// can be touched there and something of it is found (see
/// `should_remove_spec`).
pub fn launch_cleanup_needed(ops_possible: bool, fp: Option<LaunchFootprint>, status: Option<(bool, bool)>) -> (r:
    bool)
    ensures
        r == (ops_possible && should_remove_spec(fp, status)),
{
    ops_possible && skip_launch_should_remove_reshade(fp, status)
}

/// The warning of a launch without ReShade, from how its cleanup went
/// (`None`: no cleanup was needed).
pub open spec fn launch_report_spec(removal: Option<LaunchRemoval>) -> Option<Seq<char>> {
    match removal {
        None => None,
        Some(LaunchRemoval::Done { marker_left }) => if marker_left {
            Some(cleanup_failed_msg())
        } else {
            None
        },
        Some(LaunchRemoval::FailedWhileRunning { report }) => Some(report@),
        Some(LaunchRemoval::Failed { error }) => Some(cleanup_failed_msg() + " ("@ + error@ + ")"@),
    }
}

/// What a launch without ReShade reports: a warning at most. Whatever the
/// cleanup did, the launch goes ahead.
pub fn launch_report(removal: Option<&LaunchRemoval>) -> (r: Option<String>)
    ensures
        opt_sv(r) == launch_report_spec(
            match removal {
                Some(x) => Some(*x),
                None => None,
            },
        ),
{
    match removal {
        None => None,
        Some(LaunchRemoval::Done { marker_left }) => launch_cleanup_warning(None, *marker_left),
        Some(LaunchRemoval::FailedWhileRunning { report }) => Some(report.clone()),
        Some(LaunchRemoval::Failed { error }) => launch_cleanup_warning(Some(error.as_str()), false),
    }
}

/// What preparing a launch without ReShade answers: cleanup runs only when
/// `launch_cleanup_needed` says so (`removal` is how it went), and the
/// answer is its warning, if any. It is never an error.
pub open spec fn launch_outcome_spec(
    ops_possible: bool,
    fp: Option<LaunchFootprint>,
    status: Option<(bool, bool)>,
    removal: Option<LaunchRemoval>,
) -> Result<Option<Seq<char>>, Seq<char>> {
    if ops_possible && should_remove_spec(fp, status) {
        Ok(launch_report_spec(removal))
    } else {
        Ok(None)
    }
}

/// The answer of preparing a launch without ReShade (see
/// `launch_outcome_spec`).
pub fn launch_outcome(
    ops_possible: bool,
    fp: Option<LaunchFootprint>,
    status: Option<(bool, bool)>,
    removal: Option<&LaunchRemoval>,
) -> (r: Result<Option<String>, String>)
    ensures
        r is Ok,
        r matches Ok(w) && launch_outcome_spec(
            ops_possible,
            fp,
            status,
            match removal {
                Some(x) => Some(*x),
                None => None,
            },
        ) == Ok::<Option<Seq<char>>, Seq<char>>(opt_sv(w)),
{
    if launch_cleanup_needed(ops_possible, fp, status) {
        Ok(launch_report(removal))
    } else {
        Ok(None)
    }
}

/// Law: a launch without ReShade is never blocked and leaves a game's own
/// proxies alone. Its answer is never an error; where ReShade cannot be
/// touched it is `Ok(None)` and no cleanup runs; with no marker and no
/// backup, the cleanup removes none of the present proxies that fail the
/// proxy check, and when it finishes with no marker left the answer is
/// `Ok(None)`.
pub proof fn launch_without_reshade_never_blocks(
    ops_possible: bool,
    fp: Option<LaunchFootprint>,
    status: Option<(bool, bool)>,
    removal: Option<LaunchRemoval>,
    present: Seq<Seq<char>>,
    valid: Seq<String>,
)
    ensures
        launch_outcome_spec(ops_possible, fp, status, removal) is Ok,
        !ops_possible ==> launch_outcome_spec(ops_possible, fp, status, removal) == Ok::<
            Option<Seq<char>>,
            Seq<char>,
        >(None),
        (forall|i: int| 0 <= i < present.len() ==> !any_eq(valid, #[trigger] present[i])) ==> (
        crate::reshade::remove::removal_files(None, present, valid, false).len() == 0),
        launch_outcome_spec(
            ops_possible,
            fp,
            status,
            Some(LaunchRemoval::Done { marker_left: false }),
        ) == Ok::<Option<Seq<char>>, Seq<char>>(None),
{
    if forall|i: int| 0 <= i < present.len() ==> !any_eq(valid, #[trigger] present[i]) {
        lemma_names_among_none(present, valid);
    }
}

proof fn lemma_names_among_none(xs: Seq<Seq<char>>, ys: Seq<String>)
    requires
        forall|i: int| 0 <= i < xs.len() ==> !any_eq(ys, #[trigger] xs[i]),
    ensures
        crate::reshade::remove::names_among(xs, ys).len() == 0,
    decreases xs.len(),
{
    if xs.len() > 0 {
        let init = xs.drop_last();
        assert forall|i: int| 0 <= i < init.len() implies !any_eq(ys, #[trigger] init[i]) by {
            assert(init[i] == xs[i]);
        }
        lemma_names_among_none(init, ys);
        assert(!any_eq(ys, xs[xs.len() - 1]));
    }
}

} // verus!
