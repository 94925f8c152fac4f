use game_settings_master::models::{GameOverride, GameProfile};
use game_settings_master::profiles::{
    delete_override, ensure_known_game_id, ensure_trusted_ipc_profile, get_overrides_for_game,
    is_disposable_install_path, is_stale_saved_profile, normalize_install_dir,
    prune_stale_saved_profiles, remove_profile, resolve_trusted_profile, upsert_override,
    upsert_profile, validate_override_bounds, validate_override_payload, validate_profile_paths,
    OverrideError, ProfileError,
};

fn profile(id: &str, name: &str, install_dir: &str) -> GameProfile {
    GameProfile {
        id: id.to_string(),
        name: name.to_string(),
        source: "manual".to_string(),
        install_dir: install_dir.to_string(),
        config_dir: None,
        exe_name: None,
        is_ue: true,
        is_unity: false,
        is_author_curated: false,
        possible_unity: false,
        possible_ue: false,
        cover_url: None,
        custom_cover: None,
        build_id: None,
        engine_family: "ue5".to_string(),
        engine_version: None,
    }
}

fn one_value_override(game_id: &str, name: &str, file: &str, section: &str, key: &str, value: &str) -> GameOverride {
    GameOverride {
        game_id: game_id.to_string(),
        name: name.to_string(),
        files: vec![(
            file.to_string(),
            vec![(section.to_string(), vec![(key.to_string(), value.to_string())])],
        )],
        removals: vec![],
    }
}

#[test]
fn validate_profile_rejects_missing_install() {
    let profile = profile("test", "Test", r"C:\nonexistent-game-path-xyz");
    // The directory does not exist on this machine.
    assert!(validate_profile_paths(&profile, false, Err("not found"), Ok(())).is_err());
}

#[test]
fn resolve_trusted_profile_rejects_unknown_game() {
    let profile = profile("test", "Test", r"C:\nonexistent-game-path-xyz");
    let paths = validate_profile_paths(&profile, false, Err("not found"), Ok(()));
    assert!(resolve_trusted_profile(&profile, paths, None).is_err());
}

#[test]
fn ensure_known_game_id_rejects_unknown() {
    assert!(ensure_known_game_id("steam-999999999", &vec![]).is_err());
}

#[test]
fn ensure_known_game_id_rejects_oversized_id() {
    let long = "a".repeat(129);
    assert!(ensure_known_game_id(&long, &vec![long.clone()]).is_err());
}

#[test]
fn stale_saved_profile_flags_ipc_security_test_ids() {
    let profile = profile("ipc-security-deadbeef", "Trusted", r"C:\Games\Real");
    assert!(is_stale_saved_profile(&profile, true, Some(r"C:\Games\Real")));
}

#[test]
fn override_rejects_ini_injection_payload() {
    let o = one_value_override("steam-1962700", "bad", "Engine.ini", "SystemSettings", "r.Safe", "1\nInjected=True");
    assert!(validate_override_payload(&o, 200).is_err());
}

#[test]
fn resolve_trusted_profile_rejects_forged_install_dir() {
    let trusted = profile("ipc-security-1", "Trusted", r"C:\Games\Trusted");
    let forged = profile("ipc-security-1", "Forged", r"C:\Users\me\forged");
    let r = resolve_trusted_profile(&forged, Ok(()), Some(trusted.clone()));
    assert_eq!(r.unwrap_err(), ProfileError::InstallDirMismatch);
    let ok = resolve_trusted_profile(&trusted, Ok(()), Some(trusted.clone())).unwrap();
    assert_eq!(ok.name, "Trusted");
}

#[test]
fn ipc_profile_check_is_the_trust_check() {
    let trusted = profile("steam-1", "Game", r"C:\Games\Game\");
    let sent = profile("steam-1", "Renamed", r"c:/games/game");
    let r = ensure_trusted_ipc_profile(&sent, Ok(()), Some(trusted.clone())).unwrap();
    assert_eq!(r.name, "Game");
    let unknown = ensure_trusted_ipc_profile(&sent, Ok(()), None);
    assert_eq!(unknown.unwrap_err(), ProfileError::UnknownGame("steam-1".to_string()));
    let bad_paths = ensure_trusted_ipc_profile(&sent, Err(ProfileError::EmptyInstallDir), Some(trusted));
    assert_eq!(bad_paths.unwrap_err(), ProfileError::EmptyInstallDir);
}

#[test]
fn profile_paths_errors_in_order() {
    let empty = profile("g", "G", "   ");
    assert_eq!(validate_profile_paths(&empty, true, Ok("x"), Ok(())), Err(ProfileError::EmptyInstallDir));
    let missing = profile("g", "G", r"D:\Missing");
    assert_eq!(
        validate_profile_paths(&missing, false, Ok("x"), Ok(())),
        Err(ProfileError::InstallDirMissing(r"D:\Missing".to_string()))
    );
    let temp = profile("g", "G", r"C:\Users\me\AppData\Local\Temp\game");
    assert_eq!(
        validate_profile_paths(&temp, true, Ok(r"C:\Users\me\AppData\Local\Temp\game"), Ok(())),
        Err(ProfileError::TemporaryInstallDir)
    );
    let mut bad_exe = profile("g", "G", r"D:\Games\G");
    bad_exe.exe_name = Some(r"..\evil.exe".to_string());
    assert_eq!(
        validate_profile_paths(&bad_exe, true, Ok(r"D:\Games\G"), Ok(())),
        Err(ProfileError::InvalidExeName(r"..\evil.exe".to_string()))
    );
    let mut with_cfg = profile("g", "G", r"D:\Games\G");
    with_cfg.config_dir = Some(r"D:\Cfg".to_string());
    assert_eq!(
        validate_profile_paths(&with_cfg, true, Ok(r"D:\Games\G"), Err("bad config".to_string())),
        Err(ProfileError::InvalidConfigDir("bad config".to_string()))
    );
    let good = profile("g", "G", r"D:\Games\G");
    assert_eq!(validate_profile_paths(&good, true, Ok(r"D:\Games\G"), Ok(())), Ok(()));
    assert_eq!(
        validate_profile_paths(&good, true, Err("denied"), Ok(())),
        Err(ProfileError::InvalidInstallPath("denied".to_string()))
    );
}

#[test]
fn disposable_paths_are_temporary_directories() {
    assert!(is_disposable_install_path(Some("/tmp/x")));
    assert!(is_disposable_install_path(Some(r"C:\TEMP\x")));
    assert!(is_disposable_install_path(None));
    assert!(!is_disposable_install_path(Some(r"D:\Games\Template")));
}

#[test]
fn stale_profiles() {
    let mut unity = profile("u", "U", r"D:\Games\U");
    unity.engine_family = "Unity".to_string();
    assert!(is_stale_saved_profile(&unity, true, Some(r"D:\Games\U")));
    let gone = profile("g", "G", r"D:\Games\G");
    assert!(is_stale_saved_profile(&gone, false, None));
    assert!(!is_stale_saved_profile(&gone, true, Some(r"D:\Games\G")));
}

#[test]
fn install_dirs_are_compared_normalized() {
    assert_eq!(normalize_install_dir(r" C:/Games\X\ "), r"c:\games\x");
}

#[test]
fn override_bounds() {
    let mut o = one_value_override("g", "n", "Engine.ini", "SystemSettings", "r.A", "1");
    assert_eq!(validate_override_bounds(&o, 10), Ok(()));
    o.game_id = " ".to_string();
    assert_eq!(validate_override_bounds(&o, 10), Err(OverrideError::MissingGameId));
    o.game_id = "g".to_string();
    o.name = "x".repeat(121);
    assert_eq!(validate_override_bounds(&o, 10), Err(OverrideError::InvalidName));
    o.name = "n".to_string();
    assert_eq!(validate_override_bounds(&o, 524289), Err(OverrideError::TooLarge));
}

#[test]
fn override_payload_errors() {
    let bad_file = one_value_override("g", "n", "Evil.ini", "S", "k", "v");
    assert_eq!(
        validate_override_payload(&bad_file, 10),
        Err(OverrideError::InvalidIniFile("Evil.ini".to_string()))
    );
    let ok = one_value_override("g", "n", "Engine.ini", "SystemSettings", "r.A", "1");
    assert_eq!(validate_override_payload(&ok, 10), Ok(()));
}

#[test]
fn saved_override_is_listed_for_its_game() {
    let a = one_value_override("g1", "a", "Engine.ini", "S", "k", "1");
    let b = one_value_override("g2", "b", "Engine.ini", "S", "k", "2");
    let a2 = one_value_override("g1", "a", "Engine.ini", "S", "k", "3");
    let os = upsert_override(vec![], a);
    let os = upsert_override(os, b);
    let os = upsert_override(os, a2);
    assert_eq!(os.len(), 2);
    let g1 = get_overrides_for_game(os.clone(), "g1");
    assert_eq!(g1.len(), 1);
    assert_eq!(g1[0].files[0].1[0].1[0].1, "3");
    let left = delete_override(os, "g1", "a");
    assert_eq!(left.len(), 1);
    assert_eq!(left[0].game_id, "g2");
}

#[test]
fn saved_profile_is_found_and_removed() {
    let ps = upsert_profile(vec![], profile("a", "A", r"D:\A"));
    let ps = upsert_profile(ps, profile("b", "B", r"D:\B"));
    let ps = upsert_profile(ps, profile("a", "A2", r"D:\A2"));
    assert_eq!(ps.len(), 2);
    assert_eq!(ps[0].name, "A2");
    assert_eq!(ps[1].name, "B");
    let ps = remove_profile(ps, "a");
    assert_eq!(ps.len(), 1);
    assert_eq!(ps[0].id, "b");
}

#[test]
fn prune_drops_flagged_profiles() {
    let ps = vec![profile("a", "A", "x"), profile("b", "B", "y"), profile("c", "C", "z")];
    let (kept, dropped) = prune_stale_saved_profiles(ps, &vec![true, false, true]);
    assert_eq!(dropped, 2);
    assert_eq!(kept.len(), 1);
    assert_eq!(kept[0].id, "b");
}
