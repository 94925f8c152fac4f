use game_settings_master::paths::{is_safe_relative_path, join};
use game_settings_master::safety::{is_safe_pack_id, path_within_root};
use game_settings_master::models::GameProfile;
use game_settings_master::reshade::api::GraphicsApi;
use game_settings_master::reshade::detect::InstallMarker;
use game_settings_master::reshade::install::{
    launch_cleanup_needed, launch_outcome, launch_report, merge_ini_sections, needs_install, plan_ensure,
    skip_launch_should_remove_reshade, EnsureError, EnsureStep, LaunchFootprint, LaunchRemoval,
};
use game_settings_master::reshade::presets::{
    bundled_file, bundled_shaders_dir, bundled_shaders_effects_dir, parse_parameters,
    parse_techniques, preset_exists,
};
use game_settings_master::reshade::remove::{
    is_renamed_aside, known_proxy_files_present, proxy_files_to_remove, proxy_removal_paths,
    removed_report, renamed_aside_name,
};
use game_settings_master::reshade::resolve::{
    normalize_exe_name, resolve_game_exe_path, resolve_install_target, running_exe_name, ExeEntry,
    ResolveError,
};
use game_settings_master::resource_paths::{
    bundled_remote_presets_dir, games_dir, presets_dir, resource_root,
};

fn profile(install_dir: &str, exe_name: Option<&str>) -> GameProfile {
    GameProfile {
        id: "steam-99".to_string(),
        name: "Test".to_string(),
        source: "steam".to_string(),
        install_dir: install_dir.to_string(),
        config_dir: None,
        exe_name: exe_name.map(|s| s.to_string()),
        is_ue: true,
        is_unity: false,
        is_author_curated: false,
        possible_unity: false,
        possible_ue: false,
        cover_url: None,
        custom_cover: None,
        build_id: None,
        engine_family: "ue5".to_string(),
        engine_version: None,
    }
}

fn exe(path: &str, parent: &str, name: &str) -> ExeEntry {
    ExeEntry { path: path.to_string(), parent: Some(parent.to_string()), file_name: Some(name.to_string()) }
}

#[test]
fn resolves_exe_subdirectory() {
    let p = profile("/games/g", Some("Game-Win64-Shipping.exe"));
    let exes = vec![
        exe("/games/g/Launcher.exe", "/games/g", "Launcher.exe"),
        exe(
            "/games/g/Binaries/Win64/Game-Win64-Shipping.exe",
            "/games/g/Binaries/Win64",
            "game-win64-shipping.EXE",
        ),
    ];
    assert_eq!(resolve_install_target(&p, true, &exes, false), Ok("/games/g/Binaries/Win64".to_string()));
    assert_eq!(
        resolve_install_target(&p, false, &exes, false),
        Err(ResolveError::InstallDirMissing("/games/g".to_string()))
    );
    let no_exe = profile(" /games/g ", None);
    assert_eq!(resolve_install_target(&no_exe, true, &vec![], false), Ok("/games/g".to_string()));
    assert_eq!(resolve_install_target(&no_exe, true, &exes, false), Ok("/games/g".to_string()));
}

#[test]
fn running_exe_name_from_profile() {
    assert_eq!(running_exe_name(&profile("/g", Some("Game")), None), Some("Game.exe".to_string()));
    assert_eq!(running_exe_name(&profile("/g", Some("Game.EXE")), None), Some("Game.EXE".to_string()));
    assert_eq!(
        running_exe_name(&profile("/g", None), Some("Subnautica2-Win64-Shipping.exe")),
        Some("Subnautica2-Win64-Shipping.exe".to_string())
    );
    assert_eq!(running_exe_name(&profile("/g", Some("")), None), None);
    assert_eq!(normalize_exe_name("x"), "x.exe");
}

#[test]
fn game_exe_path() {
    let exes = vec![exe("/g/bin/Other.exe", "/g/bin", "Other.exe")];
    assert_eq!(resolve_game_exe_path("/g", Some("Game"), true, &exes), Ok("/g/Game.exe".to_string()));
    assert_eq!(resolve_game_exe_path("/g", Some("Game"), false, &exes), Ok("/g/bin/Other.exe".to_string()));
    assert_eq!(resolve_game_exe_path("/g", None, false, &vec![]), Err(ResolveError::NoExe));
}

#[test]
fn resource_locations() {
    assert_eq!(resource_root(Some("/set".to_string()), Some("/exe".to_string()), "/src"), "/set");
    assert_eq!(resource_root(None, Some("/exe".to_string()), "/src"), "/exe");
    assert_eq!(resource_root(None, None, "/src"), "/src");
    assert_eq!(presets_dir("/res", "/src", true), "/res/presets");
    assert_eq!(presets_dir("/res", "/src", false), "/src/presets");
    assert_eq!(games_dir("/res/", "/src", true), "/res/games");
    assert_eq!(bundled_remote_presets_dir("/res", "/src", true, true), "/res/bundled-remote-presets");
    assert_eq!(bundled_remote_presets_dir("/res", "/src", false, true), "/src/../vps/public");
    assert_eq!(bundled_remote_presets_dir("/res", "/src", false, false), "/res/bundled-remote-presets");
}

#[test]
fn bundle_locations() {
    assert_eq!(bundled_file("/b", "dxgi.dll"), "/b/bin/dxgi.dll");
    assert_eq!(bundled_shaders_dir("/b"), "/b/shaders");
    assert_eq!(bundled_shaders_effects_dir("/b"), "/b/shaders/Shaders");
}

#[test]
fn builtin_presets() {
    assert!(preset_exists("clarity"));
    assert!(preset_exists("performance"));
    assert!(!preset_exists("../evil"));
}

#[test]
fn reads_preset_ini() {
    let ini = "; comment\nTechniques=Clarity@Clarity.fx, LumaSharpen\n[Clarity.fx]\nClarityRadius=3\n\n[LumaSharpen.fx]\nsharp_strength = 0.6\n";
    assert_eq!(parse_techniques(ini), vec!["Clarity@Clarity.fx".to_string(), "LumaSharpen".to_string()]);
    let ps = parse_parameters(ini);
    assert_eq!(ps.len(), 2);
    assert_eq!(ps[0].effect, "Clarity");
    assert_eq!(ps[1].effect, "LumaSharpen");
    assert_eq!(ps[0].key, "ClarityRadius");
    assert_eq!(ps[0].value, "3");
    assert_eq!(ps[1].key, "sharp_strength");
    assert_eq!(ps[1].value, "0.6");
}

#[test]
fn install_decisions() {
    assert!(needs_install(false, None, None, GraphicsApi::Dx12, "clarity"));
    assert!(needs_install(true, Some("dx11"), Some("clarity"), GraphicsApi::Dx12, "clarity"));
    assert!(needs_install(true, Some("dx12"), Some("performance"), GraphicsApi::Dx12, "clarity"));
    assert!(!needs_install(true, Some("dx12"), Some("clarity"), GraphicsApi::Dx12, "clarity"));
    assert_eq!(
        plan_ensure(true, true, true, false, None, None, GraphicsApi::Dx12, "clarity"),
        Err(EnsureError::StillBroken)
    );
    assert_eq!(
        plan_ensure(false, false, false, false, None, None, GraphicsApi::Dx12, "clarity"),
        Err(EnsureError::StubBundle(false))
    );
    assert_eq!(
        plan_ensure(false, false, true, true, Some("dx12"), Some("clarity"), GraphicsApi::Dx12, "clarity"),
        Ok(EnsureStep::KeepWriteIniIfMissing)
    );
}

#[test]
fn skip_launch_should_remove_on_broken_status() {
    assert!(skip_launch_should_remove_reshade(None, Some((false, true))));
    assert!(!skip_launch_should_remove_reshade(None, Some((false, false))));
    assert!(!skip_launch_should_remove_reshade(None, None));
}

#[test]
fn skip_launch_should_remove_on_marker_when_status_unavailable() {
    let fp = LaunchFootprint {
        marker_present: true,
        broken_proxy_present: false,
        gsm_artifacts: true,
        known_proxy_present: true,
    };
    assert!(skip_launch_should_remove_reshade(Some(fp), None));
}

#[test]
fn foreign_proxy_without_footprint_is_kept() {
    let fp = LaunchFootprint {
        marker_present: false,
        broken_proxy_present: false,
        gsm_artifacts: false,
        known_proxy_present: true,
    };
    assert!(!skip_launch_should_remove_reshade(Some(fp), Some((false, false))));
}

#[test]
fn proxies_to_remove() {
    let present = known_proxy_files_present(&vec![
        "dxgi.dll".to_string(),
        "Game.exe".to_string(),
        "d3d11.dll".to_string(),
    ]);
    assert_eq!(present, vec!["d3d11.dll".to_string(), "dxgi.dll".to_string()]);
    let valid = vec!["dxgi.dll".to_string()];
    // No GSM footprint: only valid ReShade proxies are removed.
    assert_eq!(proxy_files_to_remove(None, present.clone(), &valid, false), vec!["dxgi.dll".to_string()]);
    // A backup directory marks GSM's install: every known proxy goes.
    assert_eq!(proxy_files_to_remove(None, present.clone(), &valid, true), present);
    let marker = InstallMarker {
        preset_id: "clarity".to_string(),
        graphics_api: "dx12".to_string(),
        proxy_dll: None,
        installed_files: vec!["dxgi.dll".to_string(), "..\\..\\victim.dll".to_string()],
        installed_at: "now".to_string(),
        needs_vulkan_registry: false,
    };
    assert_eq!(proxy_files_to_remove(Some(&marker), present, &valid, false), vec!["dxgi.dll".to_string()]);
}

#[test]
fn renamed_aside_files() {
    let n = renamed_aside_name("dxgi.dll", 1234);
    assert_eq!(n, "dxgi.dll.gsm-removed-1234");
    assert!(is_renamed_aside(&n));
    assert!(!is_renamed_aside("dxgi.dll"));
}

#[test]
fn ini_sections_are_merged() {
    let merged = merge_ini_sections("[GENERAL]\nA=1\n", "Techniques=X\n");
    assert_eq!(merged, "[GENERAL]\nA=1\n\n; --- GSM preset ---\nTechniques=X\n");
}

#[test]
fn safe_ids_and_relative_paths_stay_within_root() {
    for root in ["/cache/packs", "C:\\cache\\packs\\"] {
        for id in ["pack-1", "A_b", "x"] {
            assert!(is_safe_pack_id(id));
            assert!(path_within_root(root, &join(root, id)));
        }
        for rel in ["presets/a.ini", "x/y/z.json", "a..b/c"] {
            assert!(is_safe_relative_path(rel));
            assert!(path_within_root(root, &join(root, rel)));
        }
        assert!(!is_safe_pack_id("../x"));
        assert!(!is_safe_relative_path("a/../../b"));
        assert!(!path_within_root(root, &join(root, "a/../../b")));
    }
}

#[test]
fn launch_without_reshade_never_blocks() {
    let foreign = LaunchFootprint {
        marker_present: false,
        broken_proxy_present: true,
        gsm_artifacts: false,
        known_proxy_present: true,
    };
    assert!(!launch_cleanup_needed(false, Some(foreign), Some((true, true))));
    assert!(launch_cleanup_needed(true, Some(foreign), None));
    assert_eq!(launch_report(None), None);
    assert_eq!(launch_report(Some(&LaunchRemoval::Done { marker_left: false })), None);
    assert!(launch_report(Some(&LaunchRemoval::Done { marker_left: true })).is_some());
    let failed = launch_report(Some(&LaunchRemoval::Failed { error: "locked".to_string() })).unwrap();
    assert!(failed.ends_with(" (locked)"));
    assert_eq!(
        launch_report(Some(&LaunchRemoval::FailedWhileRunning { report: "r".to_string() })),
        Some("r".to_string())
    );
    // With no marker and no backup, a proxy failing the check is not removed.
    let present = vec!["dxgi.dll".to_string()];
    assert!(proxy_files_to_remove(None, present, &Vec::new(), false).is_empty());
}

#[test]
fn removal_paths_stay_in_the_game_directory() {
    let files: Vec<String> = vec!["dxgi.dll", "..\\victim.dll", "C:\\x\\d3d11.dll", "notes.txt", "ReShade64.json"]
        .into_iter()
        .map(String::from)
        .collect();
    let paths = proxy_removal_paths("C:\\Games\\X", &files);
    assert_eq!(
        paths,
        vec![
            ("dxgi.dll".to_string(), "C:\\Games\\X/dxgi.dll".to_string()),
            ("ReShade64.json".to_string(), "C:\\Games\\X/ReShade64.json".to_string()),
        ]
    );
}

#[test]
fn removal_report_and_launch_outcome() {
    use_removal_report();
    assert_eq!(launch_outcome(false, None, Some((true, true)), None), Ok(None));
    assert_eq!(
        launch_outcome(true, None, Some((true, false)), Some(&LaunchRemoval::Done { marker_left: false })),
        Ok(None)
    );
    assert!(launch_outcome(true, None, Some((true, false)), Some(&LaunchRemoval::Failed { error: "x".to_string() }))
        .unwrap()
        .is_some());
}

fn use_removal_report() {
    let removals = vec![
        ("dxgi.dll".to_string(), "G/dxgi.dll".to_string()),
        ("d3d11.dll".to_string(), "G/d3d11.dll".to_string()),
    ];
    assert_eq!(
        removed_report(&removals, &vec![false, true], true, true),
        vec!["d3d11.dll".to_string(), "ReShade.ini".to_string(), "reshade-shaders/".to_string()]
    );
    assert!(removed_report(&removals, &vec![], false, false).is_empty());
}
