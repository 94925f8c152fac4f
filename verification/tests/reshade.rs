use game_settings_master::known_games::KnownGameEntry;
use game_settings_master::models::{GameProfile, GpuCapabilities, GpuVendor};
use game_settings_master::remote_presets::manifest::{
    PackApply, PackManifest, PackMatch, PackPresetEntry, ReShadeIniPresetEntry, ResolvedPack,
};
use game_settings_master::reshade::api::GraphicsApi;
use game_settings_master::reshade::bundle::{
    is_valid_bundled_file, is_valid_bundled_json, is_valid_reshade_dll, validate_bundled_file,
    BundleError, FileFacts, MIN_RESHADE_DLL_BYTES,
};
use game_settings_master::profiles::ProfileError;
use game_settings_master::reshade::config::{
    set_preset_overrides, should_prompt_api_for_game, validate_settings, ReShadePerGameSettings, ReShadeSettings,
    SettingsError,
};
use game_settings_master::reshade::detect::{is_safe_marker_filename, InstallMarker};
use game_settings_master::reshade::game_presets::{
    check_preset_request, list_presets_for_game, load_author_presets, load_remote_author_presets, merge_author_presets,
    preset_ini_path_for, PresetError,
};
use game_settings_master::reshade::gpu_adapt::{adapt_preset_with_gpu, is_weak_gpu};
use game_settings_master::reshade::ini_edit::{
    apply_overrides_to_preset, build_preset_ini, set_ini_value, set_parameter_in_ini,
    set_techniques_in_ini,
    validate_preset_overrides, OverridesError, PresetOverrides, MAX_OVERRIDE_VALUE_LEN,
};
use game_settings_master::reshade::install::{
    launch_action, reshade_launch_applicable, reshade_ops_possible, validate_api_bundle,
    LaunchAction, LaunchError,
};
use game_settings_master::reshade::presets::{
    parse_parameters, parse_techniques, PresetParameter, shaders_available_in_bundle, shaders_bundle_fingerprint, ReShadePresetInfo,
};
use game_settings_master::reshade::resolve::{ensure_game_not_running, ResolveError};

fn per_game(api: Option<&str>, remembered: bool) -> ReShadePerGameSettings {
    ReShadePerGameSettings {
        enabled: true,
        api: api.map(|s| s.to_string()),
        api_remembered: remembered,
        preset: None,
        preset_overrides: None,
    }
}

fn gpu(name: &str, vendor: GpuVendor) -> GpuCapabilities {
    GpuCapabilities {
        name: name.to_string(),
        vendor,
        supports_dlss: false,
        supports_dlss_fg: false,
        supports_ray_tracing: false,
    }
}

fn info(id: &str, name: &str, description: &str) -> ReShadePresetInfo {
    ReShadePresetInfo {
        id: id.to_string(),
        name: name.to_string(),
        description: description.to_string(),
        author: true,
    }
}

fn test_profile(install_dir: &str, exe_name: Option<&str>) -> GameProfile {
    GameProfile {
        id: "steam-99".to_string(),
        name: "Test".to_string(),
        source: "steam".to_string(),
        install_dir: install_dir.to_string(),
        config_dir: None,
        exe_name: exe_name.map(|s| s.to_string()),
        is_ue: true,
        is_unity: false,
        is_author_curated: false,
        possible_unity: false,
        possible_ue: false,
        cover_url: None,
        custom_cover: None,
        build_id: None,
        engine_family: "ue5".to_string(),
        engine_version: None,
    }
}

fn sn2_known() -> Vec<KnownGameEntry> {
    vec![KnownGameEntry {
        app_id: "1962700".to_string(),
        game_ids: vec!["steam-1962700".to_string(), "epic-Subnautica2".to_string()],
        engine_family: Some("ue5".to_string()),
        reshade_pack: Some("subnautica2-reshade".to_string()),
        suggested_reshade_api: Some("dx12".to_string()),
        overlay_preset: None,
        unity_data_subdir: None,
        local_low_folder: None,
    }]
}

fn sn2_pack() -> ResolvedPack {
    ResolvedPack {
        manifest: PackManifest {
            schema_version: 1,
            pack_id: "subnautica2-reshade".to_string(),
            title: None,
            revision: None,
            updated_at: None,
            match_rules: PackMatch {
                steam_app_ids: vec!["1962700".to_string()],
                game_ids: vec!["steam-1962700".to_string()],
                engine_families: vec!["ue5".to_string()],
                overlay_ids: vec![],
            },
            apply: PackApply::ReShadeIni { presets_root: "presets".to_string() },
            bundle: None,
            presets: vec![PackPresetEntry::ReShade(ReShadeIniPresetEntry {
                id: "sn2-underwater-clarity".to_string(),
                name: "Underwater Clarity".to_string(),
                description: "test".to_string(),
                ini_file: "sn2-underwater-clarity.ini".to_string(),
            })],
            policy: None,
        },
        root: "/cache/packs/subnautica2-reshade/extracted".to_string(),
    }
}

fn file(is_file: bool, size: u64, mz: bool, text: Option<&str>) -> FileFacts {
    FileFacts { is_file, size, mz_header: mz, text: text.map(|s| s.to_string()) }
}

#[test]
fn parses_api_ids() {
    assert_eq!(GraphicsApi::from_str_id("dx12").unwrap(), GraphicsApi::Dx12);
    assert_eq!(GraphicsApi::from_str_id("dx11").unwrap(), GraphicsApi::Dx11);
    assert!(GraphicsApi::from_str_id("unknown").is_err());
}

#[test]
fn dx12_uses_dxgi() {
    assert_eq!(GraphicsApi::Dx12.files_to_install()[0], "dxgi.dll");
}

#[test]
fn vulkan_installs_layer_files() {
    assert_eq!(GraphicsApi::Vulkan.files_to_install(), &["ReShade64.dll", "ReShade64.json"]);
}

#[test]
fn api_ids_round_trip() {
    for api in GraphicsApi::all() {
        assert_eq!(GraphicsApi::from_str_id(api.as_str()).unwrap(), api);
    }
    assert_eq!(
        GraphicsApi::from_str_id("dx13").unwrap_err(),
        "Неизвестный графический API: dx13"
    );
}

#[test]
fn should_prompt_when_not_remembered() {
    assert!(should_prompt_api_for_game(Some(&per_game(Some("dx11"), false))));
}

#[test]
fn should_prompt_when_saved_api_invalid() {
    assert!(should_prompt_api_for_game(Some(&per_game(Some("bad-api"), true))));
}

#[test]
fn should_not_prompt_when_remembered_with_api() {
    assert!(!should_prompt_api_for_game(Some(&per_game(Some("dx12"), true))));
}

#[test]
fn should_prompt_when_no_per_game_entry() {
    assert!(should_prompt_api_for_game(None));
}

#[test]
fn validate_settings_rejects_invalid_default_preset() {
    let cfg = ReShadeSettings { default_preset: "../evil".to_string(), ..Default::default() };
    assert!(validate_settings(&cfg).is_err());
}

#[test]
fn validate_settings_rejects_invalid_per_game_api() {
    let mut cfg = ReShadeSettings::default();
    cfg.set_game("steam-1", per_game(Some("not-an-api"), true));
    assert!(validate_settings(&cfg).is_err());
}

#[test]
fn settings_read_back_what_was_set() {
    let mut cfg = ReShadeSettings::default();
    cfg.set_game("steam-1", per_game(Some("dx12"), true));
    cfg.set_game("steam-2", per_game(None, false));
    cfg.set_game("steam-1", per_game(Some("dx11"), false));
    assert_eq!(cfg.per_game.len(), 2);
    assert_eq!(cfg.game("steam-1").unwrap().api.as_deref(), Some("dx11"));
    assert_eq!(cfg.game("steam-2").unwrap().api, None);
    assert!(cfg.game("steam-3").is_none());
    assert_eq!(validate_settings(&cfg), Ok(()));
}

#[test]
fn default_settings_are_valid() {
    let cfg = ReShadeSettings::default();
    assert_eq!(cfg.default_preset, "clarity");
    assert_eq!(validate_settings(&cfg), Ok(()));
    let bad = ReShadeSettings { default_preset: "../evil".to_string(), ..Default::default() };
    assert_eq!(validate_settings(&bad), Err(SettingsError::InvalidDefaultPreset("../evil".to_string())));
}

#[test]
fn marker_files_rejects_traversal_and_unknown_names() {
    let marker = InstallMarker {
        preset_id: "clarity".to_string(),
        graphics_api: "dx12".to_string(),
        proxy_dll: None,
        installed_files: vec![
            "dxgi.dll".to_string(),
            "..\\..\\hosts".to_string(),
            "C:\\Windows\\System32\\drivers\\etc\\hosts".to_string(),
            "ReShade.ini".to_string(),
        ],
        installed_at: "now".to_string(),
        needs_vulkan_registry: false,
    };
    assert_eq!(marker.files(), vec!["dxgi.dll".to_string()]);
    assert!(!is_safe_marker_filename("..\\dxgi.dll"));
    assert!(!is_safe_marker_filename("ReShade.ini"));
    assert!(is_safe_marker_filename("dxgi.dll"));
}

#[test]
fn sn2_pack_lists_author_preset_for_epic() {
    let remote = load_remote_author_presets(&vec![sn2_pack()], &sn2_known(), "epic-Subnautica2");
    let presets = load_author_presets(vec![], remote);
    assert!(presets.iter().any(|p| p.id == "sn2-underwater-clarity"));
}

#[test]
fn sn2_pack_lists_author_preset() {
    let remote = load_remote_author_presets(&vec![sn2_pack()], &sn2_known(), "steam-1962700");
    let presets = load_author_presets(vec![], remote);
    assert!(presets.iter().any(|p| p.id == "sn2-underwater-clarity"));
}

#[test]
fn sn2_pack_not_listed_for_other_games() {
    let remote = load_remote_author_presets(&vec![sn2_pack()], &sn2_known(), "steam-2483190");
    assert!(remote.is_empty());
}

#[test]
fn list_for_game_includes_generic() {
    let remote = load_remote_author_presets(&vec![sn2_pack()], &sn2_known(), "steam-1962700");
    let all = list_presets_for_game(load_author_presets(vec![], remote));
    assert!(all.iter().any(|p| p.id == "performance"));
    assert!(all.iter().any(|p| p.author));
}

#[test]
fn merge_remote_presets_skips_local_duplicates() {
    let local = vec![info("sn2-underwater-clarity", "Local", "local")];
    let remote = vec![info("sn2-underwater-clarity", "Remote", "remote")];
    let merged = merge_author_presets(local, remote);
    assert_eq!(merged.len(), 1);
    assert_eq!(merged[0].name, "Local");
}

#[test]
fn preset_ini_comes_from_game_pack_then_remote_then_bundle() {
    let bundle = "/res/presets/reshade";
    assert_eq!(
        preset_ini_path_for(bundle, "x", Some("g"), Some("/local/x.ini".to_string()), Some("/remote/x.ini".to_string())),
        Ok("/local/x.ini".to_string())
    );
    assert_eq!(
        preset_ini_path_for(bundle, "x", Some("g"), None, Some("/remote/x.ini".to_string())),
        Ok("/remote/x.ini".to_string())
    );
    assert_eq!(
        preset_ini_path_for(bundle, "clarity", None, Some("/local/x.ini".to_string()), None),
        Ok("/res/presets/reshade/presets/clarity/ReShade.ini".to_string())
    );
    assert_eq!(
        preset_ini_path_for(bundle, "nope", Some("g"), None, None),
        Err("Неизвестный пресет ReShade: nope".to_string())
    );
}

#[test]
fn weak_gpu_downgrades_cinematic() {
    let r = adapt_preset_with_gpu("cinematic", &gpu("Intel UHD 630", GpuVendor::Intel));
    assert!(r.reason.is_some());
    assert_eq!(r.preset_id, "performance");
}

#[test]
fn rtx_without_dlss_flag_is_not_weak() {
    let g = gpu("NVIDIA GeForce RTX 3070", GpuVendor::Nvidia);
    assert!(!is_weak_gpu(&g));
    let r = adapt_preset_with_gpu("cinematic", &g);
    assert_eq!(r.preset_id, "cinematic");
    assert!(r.reason.is_none());
}

#[test]
fn gtx_is_weak() {
    assert!(is_weak_gpu(&gpu("NVIDIA GeForce GTX 1050 Ti", GpuVendor::Nvidia)));
}

#[test]
fn rx_5600_is_not_weak() {
    assert!(!is_weak_gpu(&gpu("AMD Radeon RX 5600 XT", GpuVendor::Amd)));
}

#[test]
fn rx_580_polaris_is_weak() {
    assert!(is_weak_gpu(&gpu("AMD Radeon RX 580", GpuVendor::Amd)));
}

#[test]
fn weak_gpu_reason_names_gpu_and_preset() {
    let r = adapt_preset_with_gpu("clarity", &gpu("Intel UHD 630", GpuVendor::Intel));
    assert_eq!(r.preset_id, "performance");
    assert_eq!(r.reason.unwrap(), "Слабая GPU (Intel UHD 630) — выбран Performance вместо clarity");
    let kept = adapt_preset_with_gpu("performance", &gpu("Intel UHD 630", GpuVendor::Intel));
    assert_eq!(kept.preset_id, "performance");
    assert!(kept.reason.is_none());
}

#[test]
fn rejects_oversized_override_payload() {
    let overrides = PresetOverrides {
        techniques: None,
        parameters: vec![(
            "Clarity".to_string(),
            vec![("x".repeat(MAX_OVERRIDE_VALUE_LEN + 1), "1".to_string())],
        )],
        behavior: None,
    };
    assert!(validate_preset_overrides(&overrides).is_err());
}

#[test]
fn accepts_small_override_payload() {
    let overrides = PresetOverrides {
        techniques: Some(vec!["Clarity".to_string()]),
        parameters: vec![(
            "Clarity".to_string(),
            vec![("ClarityRadius".to_string(), "2.5".to_string())],
        )],
        behavior: None,
    };
    assert!(validate_preset_overrides(&overrides).is_ok());
}

#[test]
fn validate_api_bundle_rejects_stub_before_any_io() {
    let stub = file(true, 2, true, None);
    let r = validate_api_bundle(GraphicsApi::Dx12, &vec![(stub, b"MZ".to_vec())], &vec![]);
    assert_eq!(r, Err(BundleError::StubDll("dxgi.dll".to_string(), 2)));
}

#[test]
fn api_bundle_checks_every_file() {
    let dll = file(true, MIN_RESHADE_DLL_BYTES, true, None);
    let json = file(true, 60, false, Some(r#"{"layer": {"name": "VK_LAYER_RESHADE"}}"#));
    assert_eq!(
        validate_api_bundle(GraphicsApi::Vulkan, &vec![(dll.clone(), vec![]), (json, vec![])], &vec![]),
        Ok(())
    );
    assert_eq!(
        validate_api_bundle(GraphicsApi::Vulkan, &vec![(dll, vec![])], &vec![]),
        Err(BundleError::NotFound("ReShade64.json".to_string()))
    );
}

#[test]
fn apply_launch_best_effort_skip_does_not_fail_on_missing_dir() {
    let profile = test_profile("C:\\nonexistent-gsm-game-dir", Some("Game.exe"));
    // The directory does not exist: nothing can be cleaned, launch goes on.
    assert!(!reshade_ops_possible(&profile, false));
    assert_eq!(launch_action(true, false, None), Ok(LaunchAction::WithoutReShade));
}

#[test]
fn apply_launch_skips_ensure_when_install_dir_missing() {
    let profile = test_profile("", None);
    let ops = reshade_ops_possible(&profile, false);
    assert!(!reshade_launch_applicable(true, ops));
    assert_eq!(launch_action(false, reshade_launch_applicable(true, ops), None), Ok(LaunchAction::WithoutReShade));
}

#[test]
fn launch_requires_api_when_applicable() {
    assert_eq!(launch_action(false, true, None), Err(LaunchError::ApiRequired));
    assert_eq!(launch_action(false, true, Some(GraphicsApi::Dx11)), Ok(LaunchAction::Ensure(GraphicsApi::Dx11)));
}

#[test]
fn ensure_game_not_running_fails_without_exe() {
    assert_eq!(ensure_game_not_running(None, false), Err(ResolveError::UnknownExe));
    assert_eq!(
        ensure_game_not_running(Some("Game.exe".to_string()), true),
        Err(ResolveError::GameRunning("Game.exe".to_string()))
    );
    assert_eq!(ensure_game_not_running(Some("Game.exe".to_string()), false), Ok(()));
}

#[test]
fn shaders_available_in_bundle_is_stable() {
    let entries = vec!["Clarity.fx".to_string(), "README.txt".to_string()];
    let first = shaders_available_in_bundle(true, &entries);
    let second = shaders_available_in_bundle(true, &entries);
    assert_eq!(first, second);
}

#[test]
fn shaders_bundle_fingerprint_none_without_effects() {
    for (entries, count, bytes) in [
        (vec!["README.txt".to_string()], 0u64, 0u64),
        (vec!["README.txt".to_string(), "sub".to_string()], 2, 5),
        (vec!["a.fx".to_string(), "sub".to_string()], 3, 7),
    ] {
        let fp = shaders_bundle_fingerprint(true, &entries, count, bytes);
        if shaders_available_in_bundle(true, &entries) {
            assert!(fp.is_some());
            assert!(fp.unwrap().contains(':'));
        } else {
            assert!(fp.is_none());
        }
    }
}

#[test]
fn shader_availability_and_fingerprint() {
    assert!(shaders_available_in_bundle(true, &vec!["a.fx".to_string()]));
    assert!(!shaders_available_in_bundle(true, &vec![".fx".to_string(), "a.fxh".to_string()]));
    assert!(!shaders_available_in_bundle(false, &vec!["a.fx".to_string()]));
    let top = vec!["a.fx".to_string(), "nested".to_string()];
    assert_eq!(shaders_bundle_fingerprint(true, &top, 2, 3), Some("2:3".to_string()));
    assert_eq!(shaders_bundle_fingerprint(false, &top, 2, 3), None);
    assert_eq!(shaders_bundle_fingerprint(true, &vec!["nested".to_string()], 2, 3), None);
}

#[test]
fn rejects_tiny_dll() {
    let f = file(true, 2, true, None);
    assert!(!is_valid_reshade_dll(&f));
    assert!(!is_valid_bundled_file("dxgi.dll", &f));
    assert!(validate_bundled_file("dxgi.dll", &f, &vec![], b"MZ").is_err());
}

#[test]
fn rejects_dll_just_below_min_size() {
    let f = file(true, MIN_RESHADE_DLL_BYTES - 1, true, None);
    assert!(!is_valid_reshade_dll(&f));
    assert!(validate_bundled_file("dxgi.dll", &f, &vec![], b"").is_err());
}

#[test]
fn accepts_dll_at_min_size() {
    let f = file(true, MIN_RESHADE_DLL_BYTES, true, None);
    assert!(is_valid_reshade_dll(&f));
    assert!(is_valid_bundled_file("dxgi.dll", &f));
    assert!(validate_bundled_file("dummy.dll", &f, &vec![], b"").is_ok());
}

#[test]
fn rejects_missing_file() {
    let f = file(false, 0, false, None);
    assert_eq!(
        validate_bundled_file("dxgi.dll", &f, &vec![], b""),
        Err(BundleError::NotFound("dxgi.dll".to_string()))
    );
    assert!(!is_valid_bundled_file("dxgi.dll", &f));
}

#[test]
fn rejects_tiny_vulkan_json() {
    let f = file(true, 2, false, Some("{}"));
    assert!(!is_valid_bundled_file("ReShade64.json", &f));
    assert_eq!(
        validate_bundled_file("ReShade64.json", &f, &vec![], b"{}"),
        Err(BundleError::CorruptJson("ReShade64.json".to_string()))
    );
}

#[test]
fn accepts_valid_json() {
    let f = file(
        true,
        80,
        false,
        Some(r#"{"file_format_version": "1.0.0", "layer": {"name": "VK_LAYER_RESHADE", "type": "GLOBAL"}}"#),
    );
    assert!(is_valid_bundled_file("ReShade64.json", &f));
    assert!(is_valid_bundled_json(&f));
    assert!(!is_valid_bundled_json(&file(true, 20, false, Some(r#"{"layer": {"name": "  "}}"#))));
    assert!(!is_valid_bundled_json(&file(true, 20, false, Some("not json"))));
}

#[test]
fn rejects_large_dll_without_mz() {
    assert!(!is_valid_reshade_dll(&file(true, MIN_RESHADE_DLL_BYTES, false, None)));
}

#[test]
fn pinned_hash_is_checked() {
    let f = file(true, 3, false, None);
    let hashes = vec![(
        "ReShade64.JSON".to_string(),
        "BA7816BF8F01CFEA414140DE5DAE2223B00361A396177A9CB410FF61F20015AD".to_string(),
    )];
    assert_eq!(validate_bundled_file("other.txt", &f, &hashes, b"xyz"), Ok(()));
    let json = file(true, 3, false, Some(r#"{"layer":{"name":"L"}}"#));
    assert_eq!(validate_bundled_file("ReShade64.json", &json, &hashes, b"abc"), Ok(()));
    match validate_bundled_file("ReShade64.json", &json, &hashes, b"abd") {
        Err(BundleError::HashMismatch(n, _, _)) => assert_eq!(n, "ReShade64.json"),
        other => panic!("unexpected {other:?}"),
    }
}

fn param(e: &str, k: &str, v: &str) -> PresetParameter {
    PresetParameter { effect: e.to_string(), key: k.to_string(), value: v.to_string() }
}

#[test]
fn written_preset_reads_back_on_values() {
    let techniques = vec!["Clarity".to_string(), "LumaSharpen".to_string()];
    let params = vec![
        param("Clarity", "ClarityStrength", "0.4"),
        param("Clarity", "ClarityRadius", "3"),
        param("LumaSharpen", "sharp_strength", "0.65"),
        param("Clarity", "ClarityOffset", "2"),
    ];
    let ini = build_preset_ini(&techniques, &params);
    assert!(ini.starts_with("Techniques=Clarity,LumaSharpen\nTechniqueSorting=Clarity@Clarity,LumaSharpen@LumaSharpen\n"));
    assert_eq!(parse_techniques(&ini), techniques);
    let back = parse_parameters(&ini);
    assert_eq!(back.len(), params.len());
    for (a, b) in back.iter().zip(params.iter()) {
        assert_eq!((&a.effect, &a.key, &a.value), (&b.effect, &b.key, &b.value));
    }
    let empty = build_preset_ini(&Vec::new(), &Vec::new());
    assert_eq!(empty, "Techniques=\nTechniqueSorting=\n");
    assert!(parse_techniques(&empty).is_empty());
    assert!(parse_parameters(&empty).is_empty());
}

#[test]
fn read_preset_ini_rejects_traversal_id() {
    let err = check_preset_request("../secret", true).unwrap_err();
    assert_eq!(err, PresetError::InvalidPresetId("../secret".to_string()));
    assert_eq!(
        check_preset_request("no-such", false).unwrap_err(),
        PresetError::UnknownPreset("no-such".to_string())
    );
    assert!(check_preset_request("performance", true).is_ok());
}

fn triples(ps: &[PresetParameter]) -> Vec<(String, String, String)> {
    ps.iter().map(|p| (p.effect.clone(), p.key.clone(), p.value.clone())).collect()
}

fn t3(e: &str, k: &str, v: &str) -> (String, String, String) {
    (e.to_string(), k.to_string(), v.to_string())
}

const EDIT_BASE: &str = "; comment\nTechniques=Clarity, LumaSharpen ,\n[Clarity.fx]\nClarityStrength = 0.4\n\n[LumaSharpen.fx]\nsharp_strength=0.65\n[Clarity.fx]\nClarityStrength=0.9\n";

#[test]
fn set_parameter_reads_back_on_values() {
    let out = set_parameter_in_ini(EDIT_BASE, "Clarity", "ClarityStrength", "0.7");
    assert_eq!(parse_techniques(&out), vec!["Clarity".to_string(), "LumaSharpen".to_string()]);
    assert_eq!(
        triples(&parse_parameters(&out)),
        vec![
            t3("Clarity", "ClarityStrength", "0.7"),
            t3("LumaSharpen", "sharp_strength", "0.65"),
            t3("Clarity", "ClarityStrength", "0.9"),
        ]
    );
    let out = set_parameter_in_ini(EDIT_BASE, "Vibrance", "Strength", "1");
    assert_eq!(triples(&parse_parameters(&out)).last(), Some(&t3("Vibrance", "Strength", "1")));
    assert_eq!(parse_parameters(&out).len(), 4);
}

#[test]
fn set_techniques_reads_back_on_values() {
    let ts = vec!["Vibrance".to_string()];
    let out = set_techniques_in_ini(EDIT_BASE, &ts);
    assert_eq!(parse_techniques(&out), ts);
    assert_eq!(triples(&parse_parameters(&out)), triples(&parse_parameters(EDIT_BASE)));
}

#[test]
fn overrides_read_back_on_values() {
    let overrides = PresetOverrides {
        techniques: None,
        parameters: vec![(
            "LumaSharpen".to_string(),
            vec![("sharp_strength".to_string(), "0.3".to_string()), ("sharp_clamp".to_string(), "0.02".to_string())],
        )],
        behavior: None,
    };
    let out = apply_overrides_to_preset(EDIT_BASE, &overrides);
    assert_eq!(parse_techniques(&out), vec!["Clarity".to_string(), "LumaSharpen".to_string()]);
    assert_eq!(
        triples(&parse_parameters(&out)),
        vec![
            t3("Clarity", "ClarityStrength", "0.4"),
            t3("LumaSharpen", "sharp_strength", "0.3"),
            t3("Clarity", "ClarityStrength", "0.9"),
            t3("LumaSharpen", "sharp_clamp", "0.02"),
        ]
    );
}

fn char_lines(text: &str) -> Vec<Vec<char>> {
    text.lines().map(|l| l.chars().collect()).collect()
}

#[test]
fn set_ini_value_last_wins_on_values() {
    let base = "[GENERAL]\nEffectSearchPaths=.\\\n[INPUT]\nKeyOverlay=36,0,0,0\n";
    for (section, key) in [("INPUT", "KeyOverlay"), ("GENERAL", "PerformanceMode"), ("OVERLAY", "Tutorial")] {
        let mut twice = char_lines(base);
        set_ini_value(&mut twice, section, key, "1");
        set_ini_value(&mut twice, section, key, "2");
        let mut once = char_lines(base);
        set_ini_value(&mut once, section, key, "2");
        assert_eq!(twice, once);
    }
    let mut ls = char_lines(base);
    set_ini_value(&mut ls, "GENERAL", "PerformanceMode", "1");
    assert_eq!(ls[1], "PerformanceMode=1".chars().collect::<Vec<char>>());
    set_ini_value(&mut ls, "OVERLAY", "Tutorial", "0");
    let n = ls.len();
    assert_eq!(ls[n - 2], "[OVERLAY]".chars().collect::<Vec<char>>());
    assert_eq!(ls[n - 1], "Tutorial=0".chars().collect::<Vec<char>>());
}

#[test]
fn preset_overrides_need_a_known_game_and_keep_the_rest() {
    let known = vec!["steam-1".to_string()];
    let ov = PresetOverrides { techniques: Some(vec!["Clarity".to_string()]), parameters: vec![], behavior: None };
    let mut cfg = ReShadeSettings::default();
    cfg.warnings_acknowledged = true;
    cfg.launch_warning_acknowledged = true;
    let before = cfg.clone();
    assert_eq!(
        set_preset_overrides(&mut cfg, &known, "steam-2", ov.clone()),
        Err(SettingsError::Game(ProfileError::UnknownGame("steam-2".to_string())))
    );
    assert_eq!(
        set_preset_overrides(&mut cfg, &known, "   ", ov.clone()),
        Err(SettingsError::Game(ProfileError::InvalidGameId))
    );
    assert_eq!(cfg.per_game.len(), before.per_game.len());
    assert_eq!(set_preset_overrides(&mut cfg, &known, "steam-1", ov.clone()), Ok(()));
    assert!(cfg.warnings_acknowledged && cfg.launch_warning_acknowledged && !cfg.install_warning_acknowledged);
    let g = cfg.game("steam-1").unwrap();
    assert!(g.enabled && g.api.is_none() && g.preset_overrides.is_some());
}

#[test]
fn settings_with_a_game_listed_twice_are_refused() {
    let mut cfg = ReShadeSettings::default();
    cfg.per_game.push(("steam-1".to_string(), per_game(Some("dx12"), true)));
    cfg.per_game.push(("steam-2".to_string(), per_game(None, false)));
    assert_eq!(validate_settings(&cfg), Ok(()));
    cfg.per_game.push(("steam-1".to_string(), per_game(None, false)));
    assert_eq!(validate_settings(&cfg), Err(SettingsError::DuplicateGame("steam-1".to_string())));
}

#[test]
fn overrides_with_repeated_names_are_refused() {
    let kv = |k: &str, v: &str| (k.to_string(), v.to_string());
    let twice_effect = PresetOverrides {
        techniques: None,
        parameters: vec![
            ("Clarity".to_string(), vec![kv("A", "1")]),
            ("Vibrance".to_string(), vec![kv("B", "1")]),
            ("Clarity".to_string(), vec![kv("C", "1")]),
        ],
        behavior: None,
    };
    assert_eq!(validate_preset_overrides(&twice_effect), Err(OverridesError::DuplicateEffect("Clarity".to_string())));
    let twice_key = PresetOverrides {
        techniques: None,
        parameters: vec![("Clarity".to_string(), vec![kv("A", "1"), kv("B", "2"), kv("A", "3")])],
        behavior: None,
    };
    assert_eq!(
        validate_preset_overrides(&twice_key),
        Err(OverridesError::DuplicateParameter { effect: "Clarity".to_string(), key: "A".to_string() })
    );
}
