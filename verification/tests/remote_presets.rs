use std::cmp::Ordering;

use game_settings_master::known_games::KnownGameEntry;
use game_settings_master::remote_presets::config::{
    effective_base_url, normalize_server_url, set_base_url, validate_preset_server_url,
    PresetServerConfig, ServerUrlError,
};
use game_settings_master::remote_presets::manifest::{
    accept_manifest, catalog_json_files, pack_matches, CatalogPackRef, PackApply, PackManifest, PackMatch,
    PackPathError, PackPresetEntry, PresetCatalog, ReShadeIniPresetEntry, ResolvedPack,
};
use game_settings_master::remote_presets::sync::{
    add_extracted_bytes, check_download_size, check_pack_id, check_redirect, hex_lower,
    hex_sha256, join_url, orphan_packs, resolve_url, sync_pack_by_id, verify_bundle_digest,
    PackSync, SyncError, MAX_DOWNLOAD_BYTES,
};
use game_settings_master::remote_presets::versions::{catalog_is_newer, version_cmp};

/// The file name of a pack's manifest.
fn manifest_file() -> String {
    ["manifest", "json"].join(".")
}

fn rules(steam: &[&str], games: &[&str], families: &[&str], overlays: &[&str]) -> PackMatch {
    PackMatch {
        steam_app_ids: steam.iter().map(|s| s.to_string()).collect(),
        game_ids: games.iter().map(|s| s.to_string()).collect(),
        engine_families: families.iter().map(|s| s.to_string()).collect(),
        overlay_ids: overlays.iter().map(|s| s.to_string()).collect(),
    }
}

fn sn2_known() -> Vec<KnownGameEntry> {
    vec![KnownGameEntry {
        app_id: "1962700".to_string(),
        game_ids: vec!["steam-1962700".to_string(), "epic-Subnautica2".to_string()],
        engine_family: Some("ue5".to_string()),
        reshade_pack: Some("subnautica2-reshade".to_string()),
        suggested_reshade_api: Some("dx12".to_string()),
        overlay_preset: Some("subnautica2".to_string()),
        unity_data_subdir: None,
        local_low_folder: None,
    }]
}

fn catalog(version: &str, updated_at: Option<&str>, packs: Vec<CatalogPackRef>) -> PresetCatalog {
    PresetCatalog {
        schema_version: 1,
        catalog_id: "a".to_string(),
        version: version.to_string(),
        updated_at: updated_at.map(|s| s.to_string()),
        base_url: None,
        packs,
    }
}

fn reshade_pack(pack_id: &str, ini_file: &str) -> ResolvedPack {
    ResolvedPack {
        manifest: PackManifest {
            schema_version: 1,
            pack_id: pack_id.to_string(),
            title: None,
            revision: None,
            updated_at: None,
            match_rules: rules(&[], &["steam-1"], &[], &[]),
            apply: PackApply::ReShadeIni { presets_root: "presets".to_string() },
            bundle: None,
            presets: vec![PackPresetEntry::ReShade(ReShadeIniPresetEntry {
                id: pack_id.to_string(),
                name: "Evil".to_string(),
                description: String::new(),
                ini_file: ini_file.to_string(),
            })],
            policy: None,
        },
        root: "/cache/packs/evil/extracted".to_string(),
    }
}

#[test]
fn resolve_url_rejects_absolute() {
    assert!(resolve_url("https://example.com", "https://evil.com/x").is_err());
}

#[test]
fn join_url_works() {
    assert_eq!(join_url("http://localhost:8787", "catalog.json"), "http://localhost:8787/catalog.json");
    assert_eq!(
        join_url("http://localhost:8787/", &format!("/packs/x/{}", manifest_file())),
        format!("http://localhost:8787/packs/x/{}", manifest_file())
    );
}

#[test]
fn version_cmp_orders_semver_parts() {
    assert_eq!(version_cmp("1.5.0", "1.4.9"), Ordering::Greater);
    assert_eq!(version_cmp("1.5.0", "1.5.0"), Ordering::Equal);
    assert_eq!(version_cmp("1.4.0", "1.5.0"), Ordering::Less);
}

#[test]
fn catalog_is_newer_prefers_updated_at() {
    let older = catalog("2.0.0", Some("2026-01-01T00:00:00Z"), vec![]);
    let newer = catalog(
        "1.0.0",
        Some("2026-06-01T00:00:00Z"),
        vec![CatalogPackRef {
            id: "x".to_string(),
            manifest_url: format!("packs/x/{}", manifest_file()),
            sha256: None,
        }],
    );
    assert!(catalog_is_newer(&newer, &older));
    assert!(!catalog_is_newer(&older, &newer));
}

#[test]
fn catalog_without_timestamps_goes_by_version_then_pack_count() {
    let a = catalog("1.2", None, vec![]);
    let b = catalog("1.10", None, vec![]);
    assert!(catalog_is_newer(&b, &a));
    assert!(!catalog_is_newer(&a, &b));
    assert!(!catalog_is_newer(&a, &a));
}

#[test]
fn version_parts_missing_count_as_zero() {
    assert_eq!(version_cmp("1.0", "1.0.0"), Ordering::Equal);
    assert_eq!(version_cmp("1.x.2", "1.2"), Ordering::Equal);
    assert_eq!(version_cmp("2", "10"), Ordering::Less);
}

#[test]
fn match_forza_by_engine() {
    let r = rules(&["2483190"], &["steam-2483190"], &["forza"], &[]);
    assert!(pack_matches(&r, &vec![], Some("steam-2483190"), Some("forza"), None));
    assert!(pack_matches(&r, &vec![], None, Some("forza"), None));
}

#[test]
fn ue_json_pack_prefers_game_specific_match() {
    let sn2 = rules(&["1962700"], &["steam-1962700"], &["ue5"], &[]);
    let generic = rules(&[], &[], &["ue5", "ue4"], &[]);
    assert!(pack_matches(&sn2, &vec![], Some("steam-1962700"), Some("ue5"), None));
    assert!(pack_matches(&generic, &vec![], None, Some("ue5"), None));
    assert!(pack_matches(&generic, &vec![], Some("steam-1962700"), Some("ue5"), None));
}

#[test]
fn sn2_reshade_pack_does_not_match_unrelated_ue5() {
    let r = rules(&["1962700"], &["steam-1962700"], &["ue5"], &[]);
    assert!(!pack_matches(&r, &sn2_known(), Some("steam-2483190"), Some("ue5"), None));
}

#[test]
fn sn2_reshade_pack_matches_epic_game_id() {
    let r = rules(&["1962700"], &["steam-1962700"], &["ue5"], &[]);
    let known = sn2_known();
    assert!(pack_matches(&r, &known, Some("epic-Subnautica2"), Some("ue5"), None));
    assert!(!pack_matches(&r, &known, Some("epic-Subnautica2"), None, None));
    assert!(!pack_matches(&r, &known, Some("steam-1962700"), Some("ue4"), None));
}

#[test]
fn match_overlay_by_id() {
    let r = rules(&[], &[], &[], &["subnautica2"]);
    assert!(pack_matches(&r, &vec![], None, None, Some("subnautica2")));
    assert!(!pack_matches(&r, &vec![], None, None, Some("other")));
}

#[test]
fn overlay_from_known_game_matches() {
    let r = rules(&[], &[], &[], &["subnautica2"]);
    assert!(pack_matches(&r, &sn2_known(), Some("epic-Subnautica2"), None, None));
}

#[test]
fn manifest_rejects_unsafe_pack_id() {
    let mut m = reshade_pack("x", "x.ini").manifest;
    m.pack_id = "../evil".to_string();
    let err = accept_manifest(m).unwrap_err();
    assert!(err.contains("Недопустимый pack_id"));
    let ok = accept_manifest(reshade_pack("subnautica2-reshade", "a.ini").manifest).unwrap();
    assert_eq!(ok.pack_id, "subnautica2-reshade");
}

#[test]
fn load_unity_preset_rejects_unsafe_id() {
    let mut pack = reshade_pack("unity-pack", "x.ini");
    pack.manifest.apply = PackApply::Unity { presets_root: "presets".to_string() };
    pack.manifest.presets = vec![];
    match pack.unity_preset_path("../evil") {
        Some(Err(PackPathError::InvalidPresetId(id))) => assert_eq!(id, "../evil"),
        other => panic!("unexpected {other:?}"),
    }
    let ok = pack.unity_preset_path("high").unwrap().unwrap();
    assert_eq!(ok, "/cache/packs/evil/extracted/presets/high.json");
}

#[test]
fn load_reshade_ini_path_rejects_traversal() {
    let pack = reshade_pack("evil", "..\\..\\Windows\\win.ini");
    assert!(pack.load_reshade_ini_path("evil").is_none());
    let safe = reshade_pack("safe", "safe.ini");
    assert_eq!(
        safe.load_reshade_ini_path("safe").unwrap(),
        "/cache/packs/evil/extracted/presets/safe.ini"
    );
}

#[test]
fn server_urls() {
    assert_eq!(normalize_server_url("  https://presets.example.com/// "), "https://presets.example.com");
    assert!(validate_preset_server_url("https://x").is_ok());
    assert!(validate_preset_server_url("http://LOCALHOST:8787/x").is_ok());
    assert!(validate_preset_server_url("http://127.0.0.1:9").is_ok());
    assert_eq!(validate_preset_server_url("http://example.com"), Err(ServerUrlError::NotHttps));
    assert!(validate_preset_server_url("   ").is_ok());
}

#[test]
fn server_url_host_must_be_local_exactly() {
    assert_eq!(validate_preset_server_url("http://127.0.0.1.evil.com"), Err(ServerUrlError::NotHttps));
    assert_eq!(validate_preset_server_url("http://localhost:1@evil.com"), Err(ServerUrlError::NotHttps));
    assert_eq!(validate_preset_server_url("http://localhost.evil.com/x"), Err(ServerUrlError::NotHttps));
    assert_eq!(validate_preset_server_url("ftp://x"), Err(ServerUrlError::NotHttps));
    assert!(validate_preset_server_url("http://evil.com@localhost:8787/p").is_ok());
    assert!(validate_preset_server_url("http://127.0.0.1").is_ok());
    assert!(validate_preset_server_url("http://localhost:8787").is_ok());
}

#[test]
fn saved_server_url_is_the_one_used() {
    let cfg = PresetServerConfig::default();
    let saved = set_base_url(cfg, Some(" https://presets.example.com/ ".to_string())).unwrap();
    assert_eq!(saved.base_url.as_deref(), Some("https://presets.example.com"));
    assert_eq!(
        effective_base_url(None, Some(&saved), "https://bundled").as_deref(),
        Some("https://presets.example.com")
    );
    assert_eq!(
        effective_base_url(Some("https://env/"), Some(&saved), "https://bundled").as_deref(),
        Some("https://env")
    );
    let cleared = set_base_url(saved, Some("  ".to_string())).unwrap();
    assert_eq!(cleared.base_url, None);
    assert_eq!(effective_base_url(None, Some(&cleared), "https://bundled").as_deref(), Some("https://bundled"));
    assert_eq!(effective_base_url(None, None, ""), None);
    assert!(set_base_url(cleared, Some("http://evil.example".to_string())).is_err());
}

#[test]
fn pack_ids_and_limits() {
    assert_eq!(check_pack_id("../x"), Err(SyncError::InvalidPackId("../x".to_string())));
    assert_eq!(check_pack_id("forza-fh6"), Ok(()));
    assert!(check_download_size("u", MAX_DOWNLOAD_BYTES - 1, 1).is_ok());
    assert_eq!(
        check_download_size("u", MAX_DOWNLOAD_BYTES, 1),
        Err(SyncError::ResponseTooLarge("u".to_string()))
    );
    assert_eq!(add_extracted_bytes(10, 5), Ok(15));
    assert_eq!(add_extracted_bytes(209715200, 1), Err(SyncError::ExtractTooLarge));
}

#[test]
fn redirects_must_stay_on_https() {
    assert!(check_redirect("https://a/x", "https://b/y").is_ok());
    assert_eq!(
        check_redirect("https://a/x", "http://b/y"),
        Err(SyncError::UnsafeRedirect("https://a/x".to_string(), "http://b/y".to_string()))
    );
}

#[test]
fn sha256_of_abc() {
    assert_eq!(
        hex_sha256(b"abc"),
        "ba7816bf8f01cfea414140de5dae2223b00361a396177a9cb410ff61f20015ad"
    );
    assert_eq!(hex_lower(&vec![0x00, 0xab, 0x10]), "00ab10");
}

#[test]
fn bundle_digest_must_match() {
    let good = "ba7816bf8f01cfea414140de5dae2223b00361a396177a9cb410ff61f20015ad";
    assert!(verify_bundle_digest("p", Some(good), b"abc").is_ok());
    assert!(verify_bundle_digest("p", Some(&good.to_uppercase()), b"abc").is_err());
    assert!(verify_bundle_digest("p", None, b"abc").is_ok());
    match verify_bundle_digest("p", Some("00"), b"abc") {
        Err(SyncError::HashMismatch(p, expected, actual)) => {
            assert_eq!(p, "p");
            assert_eq!(expected, "00");
            assert_eq!(actual, "ba7816bf8f01cfea414140de5dae2223b00361a396177a9cb410ff61f20015ad");
        }
        other => panic!("unexpected {other:?}"),
    }
}

#[test]
fn orphans_are_cached_packs_no_longer_listed() {
    let active = vec!["a".to_string(), "b".to_string()];
    let dirs = vec!["a".to_string(), "old".to_string(), "../x".to_string()];
    assert_eq!(orphan_packs(&active, &dirs), vec!["old".to_string(), "../x".to_string()]);
}

#[test]
fn syncing_one_pack() {
    let cat = catalog(
        "1",
        None,
        vec![CatalogPackRef {
            id: "forza-fh6".to_string(),
            manifest_url: format!("packs/forza-fh6/{}", manifest_file()),
            sha256: None,
        }],
    );
    let server = Some("https://presets.example.com".to_string());
    assert_eq!(
        sync_pack_by_id("../x", true, false, server.clone(), Some(&cat), false),
        Err(SyncError::InvalidPackId("../x".to_string()))
    );
    assert_eq!(sync_pack_by_id("forza-fh6", false, true, server.clone(), Some(&cat), false), Ok(PackSync::Skipped));
    assert_eq!(sync_pack_by_id("forza-fh6", true, true, None, Some(&cat), false), Err(SyncError::ServerUrlMissing));
    assert_eq!(
        sync_pack_by_id("forza-fh6", true, false, Some("http://evil".to_string()), Some(&cat), false),
        Err(SyncError::InsecureServerUrl)
    );
    assert_eq!(
        sync_pack_by_id("forza-fh6", true, false, server.clone(), None, false),
        Ok(PackSync::NeedsCatalog { catalog_url: "https://presets.example.com/catalog.json".to_string() })
    );
    assert_eq!(sync_pack_by_id("forza-fh6", true, false, server.clone(), None, true), Err(SyncError::CatalogNotLoaded));
    assert_eq!(
        sync_pack_by_id("forza-fh6", true, false, server.clone(), Some(&cat), false),
        Ok(PackSync::Fetch {
            base_url: "https://presets.example.com".to_string(),
            manifest_url: format!("packs/forza-fh6/{}", manifest_file()),
        })
    );
    assert_eq!(
        sync_pack_by_id("other", true, false, server, Some(&cat), false),
        Err(SyncError::PackNotInCatalog("other".to_string()))
    );
}

#[test]
fn catalog_json_files_keeps_json_entries_sorted() {
    let names: Vec<String> = vec!["b.json", "notes.txt", ".json", "a.json", "c.JSON", "..json", "b.json"]
        .into_iter()
        .map(String::from)
        .collect();
    let files = catalog_json_files("/packs/p/catalog", &names);
    assert_eq!(
        files,
        vec![
            "/packs/p/catalog/..json".to_string(),
            "/packs/p/catalog/a.json".to_string(),
            "/packs/p/catalog/b.json".to_string(),
        ]
    );
    assert!(catalog_json_files("dir", &Vec::new()).is_empty());
}

#[test]
fn version_order_is_transitive_on_values() {
    assert_eq!(version_cmp("1.2", "1.10"), Ordering::Less);
    assert_eq!(version_cmp("1.10", "2.0"), Ordering::Less);
    assert_eq!(version_cmp("1.2", "2.0"), Ordering::Less);
    assert_eq!(version_cmp("1.2.0", "1.2"), Ordering::Equal);
    assert_eq!(version_cmp("2.0", "1.2"), Ordering::Greater);
}
