use game_settings_master::encoding::{decode_ini_bytes, ini_encoding, IniEncoding};
use game_settings_master::scalability::{
    detect_scalability_limits, is_scalability_quality_index, parse_scalability_ini,
    read_observed_max_from_gus, select_scalability_files, ScalabilityLimits, UE_DEFAULT_SCALABILITY_MAX,
};
use game_settings_master::unity::{
    apply_boot_config, apply_unity_preset, local_low_candidates, local_low_product_matches,
    parse_boot_config, presets_dir, preview_boot_config_diff, resolve_unity_config_dir,
    serialize_boot_config, unity_preset_as_definition, UnityPresetDefinition,
};

fn level(v: &[(String, u32)], k: &str) -> Option<u32> {
    v.iter().find(|(key, _)| key == k).map(|(_, x)| *x)
}

fn group(limits: &ScalabilityLimits, k: &str) -> Option<u32> {
    level(&limits.groups, k)
}

fn get<'a>(m: &'a [(String, String)], k: &str) -> Option<&'a String> {
    m.iter().find(|(key, _)| key == k).map(|(_, v)| v)
}

#[test]
fn parses_boot_config_lines() {
    let content = "gfx-enable-gfx-jobs=0\n# comment\nwait-for-native-debugger=0\n";
    let map = parse_boot_config(content);
    assert_eq!(get(&map, "gfx-enable-gfx-jobs"), Some(&"0".to_string()));
    assert_eq!(get(&map, "wait-for-native-debugger"), Some(&"0".to_string()));
}

#[test]
fn boot_config_later_line_wins_and_comments_are_skipped() {
    let map = parse_boot_config(" a = 1 \r\n; c=3\nb=2\na=5\nno-equals\n");
    assert_eq!(map.len(), 2);
    assert_eq!(get(&map, "a"), Some(&"5".to_string()));
    assert_eq!(get(&map, "b"), Some(&"2".to_string()));
    assert_eq!(get(&map, "c"), None);
}

#[test]
fn boot_config_is_written_in_key_order() {
    let map = vec![("b".to_string(), "2".to_string()), ("a".to_string(), "1".to_string())];
    assert_eq!(serialize_boot_config(&map), "a=1\nb=2\n");
}

#[test]
fn written_boot_config_reads_back() {
    let map = vec![
        ("gfx-enable-gfx-jobs".to_string(), "1".to_string()),
        ("scripting-runtime-version".to_string(), "latest".to_string()),
    ];
    let text = serialize_boot_config(&map);
    let back = parse_boot_config(&text);
    assert_eq!(back.len(), 2);
    assert_eq!(get(&back, "gfx-enable-gfx-jobs"), Some(&"1".to_string()));
    assert_eq!(get(&back, "scripting-runtime-version"), Some(&"latest".to_string()));
}

#[test]
fn applying_changes_reports_the_diff() {
    let old = "a=1\nb=2\n";
    let changes = vec![("b".to_string(), "3".to_string()), ("c".to_string(), "4".to_string())];
    let diff = preview_boot_config_diff(Some(old), &changes);
    assert_eq!(diff.len(), 2);
    assert_eq!(diff[0].key, "b");
    assert_eq!(diff[0].old_value.as_deref(), Some("2"));
    assert_eq!(diff[0].new_value, "3");
    assert_eq!(diff[1].key, "c");
    assert_eq!(diff[1].old_value, None);
    let (files, diff2, text) = apply_boot_config(Some(old), &changes);
    assert_eq!(files, vec!["boot.config".to_string()]);
    assert_eq!(diff2.len(), 2);
    assert_eq!(text, "a=1\nb=3\nc=4\n");
    let (_, _, fresh) = apply_boot_config(None, &changes);
    assert_eq!(fresh, "b=3\nc=4\n");
}

#[test]
fn unity_presets() {
    let preset = UnityPresetDefinition {
        id: "high".to_string(),
        name: "High".to_string(),
        description: "d".to_string(),
        boot_config: vec![("gfx-enable-gfx-jobs".to_string(), "1".to_string())],
    };
    let (_, diff, text) = apply_unity_preset(Some("gfx-enable-gfx-jobs=0\n"), &preset);
    assert_eq!(diff[0].old_value.as_deref(), Some("0"));
    assert_eq!(text, "gfx-enable-gfx-jobs=1\n");
    let def = unity_preset_as_definition(&preset);
    assert_eq!(def.files[0].0, "boot.config");
    assert_eq!(def.files[0].1[0].0, "");
    assert_eq!(presets_dir("/res"), "/res/presets/unity");
}

#[test]
fn unity_config_dir_preference() {
    let k = Some("known".to_string());
    let d = Some("data".to_string());
    let l = Some("locallow".to_string());
    assert_eq!(resolve_unity_config_dir(k.clone(), d.clone(), l.clone()), k);
    assert_eq!(resolve_unity_config_dir(None, d.clone(), l.clone()), d);
    assert_eq!(resolve_unity_config_dir(None, None, l.clone()), l);
    assert_eq!(resolve_unity_config_dir(None, None, None), None);
}

#[test]
fn local_low_names() {
    let c = local_low_candidates(Some("My-Game_x.exe"), Some("My Game"), None);
    assert_eq!(
        c,
        vec!["My-Game_x".to_string(), "MyGame".to_string(), "MyGamex".to_string(), "mygame".to_string()]
    );
    assert!(local_low_product_matches(&c, "MYGAME Deluxe"));
    assert!(!local_low_product_matches(&c, "Other"));
}

#[test]
fn parses_custom_quality_levels() {
    let content = "\n[ShadowQuality@0]\nr.ShadowQuality=0\n[ShadowQuality@3]\nr.ShadowQuality=3\n[ShadowQuality@6]\nr.ShadowQuality=5\n[ViewDistanceQuality@4]\nr.ViewDistanceScale=1.0\n";
    let parsed = parse_scalability_ini(content);
    assert_eq!(level(&parsed, "ShadowQuality"), Some(6));
    assert_eq!(level(&parsed, "ViewDistanceQuality"), Some(4));
}

#[test]
fn default_max_is_engine_standard() {
    let limits = detect_scalability_limits(&vec![], None);
    assert_eq!(limits.global_max, UE_DEFAULT_SCALABILITY_MAX);
    assert_eq!(group(&limits, "sg.ShadowQuality"), Some(UE_DEFAULT_SCALABILITY_MAX));
}

#[test]
fn resolution_quality_not_in_quality_index_limits() {
    let limits = detect_scalability_limits(&vec![], None);
    assert!(group(&limits, "sg.ResolutionQuality").is_none());
    assert!(!is_scalability_quality_index("sg.ResolutionQuality"));
    assert!(is_scalability_quality_index("sg.ShadowQuality"));
}

#[test]
fn gus_value_three_does_not_lower_limit() {
    let gus = "[ScalabilityGroups]\nsg.ShadowQuality=3\nsg.ViewDistanceQuality=2\n";
    let limits = detect_scalability_limits(&vec![], Some(gus));
    assert_eq!(limits.global_max, UE_DEFAULT_SCALABILITY_MAX);
}

#[test]
fn gus_custom_level_above_four_is_detected() {
    let gus = "[ScalabilityGroups]\nsg.ShadowQuality=6\n";
    let limits = detect_scalability_limits(&vec![], Some(gus));
    assert_eq!(group(&limits, "sg.ShadowQuality"), Some(6));
    assert_eq!(limits.global_max, 6);
}

#[test]
fn crlf_gus_custom_level_above_four_is_detected() {
    let gus = "[ScalabilityGroups]\r\nsg.ShadowQuality=6\r\n";
    let limits = detect_scalability_limits(&vec![], Some(gus));
    assert_eq!(group(&limits, "sg.ShadowQuality"), Some(6));
    assert_eq!(limits.global_max, 6);
}

#[test]
fn ini_levels_raise_group_limits() {
    let files = vec![(
        "/cfg/Scalability.ini".to_string(),
        "[ShadowQuality@5]\nr.ShadowQuality=5\n[EffectsQuality@2]\n".to_string(),
    )];
    let limits = detect_scalability_limits(&files, None);
    assert_eq!(group(&limits, "sg.ShadowQuality"), Some(5));
    assert_eq!(group(&limits, "sg.EffectsQuality"), Some(2));
    assert_eq!(group(&limits, "sg.TextureQuality"), Some(UE_DEFAULT_SCALABILITY_MAX));
    assert_eq!(limits.global_max, 5);
    assert_eq!(limits.max_for("sg.ShadowQuality"), 5);
    assert_eq!(limits.max_for("sg.Unknown"), 5);
    assert!(limits.groups.iter().all(|(_, m)| *m <= limits.global_max));
}

#[test]
fn observed_gus_levels() {
    let obs = read_observed_max_from_gus("[ScalabilityGroups]\nsg.ShadowQuality=6\nsg.Other=x\nfoo=9\n");
    assert_eq!(level(&obs, "ShadowQuality"), Some(6));
    assert_eq!(level(&obs, "Other"), None);
    assert_eq!(level(&obs, "foo"), None);
}

#[test]
fn select_scalability_files_picks_known_names_once() {
    let walked: Vec<String> = vec![
        "/g/Engine/Config/BaseScalability.ini",
        "/g/Game/Config/DefaultScalability.ini",
        "/g/Game/Config/DefaultEngine.ini",
        "/g/Game/Config/MyScalability.ini",
        "/g/Game/Config/DefaultScalability.ini",
        "C:\\Games\\X\\Scalability.ini",
    ]
    .into_iter()
    .map(String::from)
    .collect();
    let found = select_scalability_files(&walked);
    assert_eq!(
        found,
        vec![
            "/g/Engine/Config/BaseScalability.ini".to_string(),
            "/g/Game/Config/DefaultScalability.ini".to_string(),
            "C:\\Games\\X\\Scalability.ini".to_string(),
        ]
    );
}

#[test]
fn applied_boot_config_reads_back_on_values() {
    let old = "# comment\ngfx-enable-gfx-jobs=0\n  scripting-runtime-version = latest \nwait-for-native-debugger=0\n";
    let changes = vec![
        ("gfx-enable-gfx-jobs".to_string(), "1".to_string()),
        ("job-worker-count".to_string(), "4".to_string()),
        ("job-worker-count".to_string(), "6".to_string()),
    ];
    let (_, _, text) = apply_boot_config(Some(old), &changes);
    let mut back = parse_boot_config(&text);
    back.sort();
    assert_eq!(
        back,
        vec![
            ("gfx-enable-gfx-jobs".to_string(), "1".to_string()),
            ("job-worker-count".to_string(), "6".to_string()),
            ("scripting-runtime-version".to_string(), "latest".to_string()),
            ("wait-for-native-debugger".to_string(), "0".to_string()),
        ]
    );
}

#[test]
fn scalability_files_come_in_path_component_order() {
    let walked: Vec<String> = vec![
        "/g/a-b/Scalability.ini",
        "/g/a/Scalability.ini",
        "\\g\\a\\Scalability.ini",
        "/g/ab/Scalability.ini",
    ]
    .into_iter()
    .map(String::from)
    .collect();
    assert_eq!(
        select_scalability_files(&walked),
        vec![
            "/g/a/Scalability.ini".to_string(),
            "/g/a-b/Scalability.ini".to_string(),
            "/g/ab/Scalability.ini".to_string(),
        ]
    );
}

#[test]
fn ini_bytes_are_decoded_by_their_byte_order_mark() {
    use_decoding();
}

fn use_decoding() {
    let text = "[ScalabilityGroups]\r\nsg.ShadowQuality=6\r\n";
    let mut le = vec![0xFFu8, 0xFE];
    let mut be = vec![0xFEu8, 0xFF];
    for u in text.encode_utf16() {
        le.extend_from_slice(&u.to_le_bytes());
        be.extend_from_slice(&u.to_be_bytes());
    }
    assert_eq!(decode_ini_bytes(&le).as_deref(), Some(text));
    assert_eq!(decode_ini_bytes(&be).as_deref(), Some(text));
    let mut bom = vec![0xEFu8, 0xBB, 0xBF];
    bom.extend_from_slice(text.as_bytes());
    assert_eq!(decode_ini_bytes(&bom).as_deref(), Some(text));
    assert_eq!(decode_ini_bytes(&text.as_bytes().to_vec()).as_deref(), Some(text));
    assert_eq!(decode_ini_bytes(&vec![0xFFu8, 0xFE, 0x00, 0xD8]), None);
    assert_eq!(ini_encoding(&vec![0xEFu8, 0xBB, 0xBF]), IniEncoding::Utf8(true));
}

#[test]
fn utf16_gus_custom_level_above_four_is_detected() {
    let mut le = vec![0xFFu8, 0xFE];
    for u in "[ScalabilityGroups]\r\nsg.ShadowQuality=6\r\n".encode_utf16() {
        le.extend_from_slice(&u.to_le_bytes());
    }
    let gus = decode_ini_bytes(&le);
    let limits = detect_scalability_limits(&vec![], gus.as_deref());
    assert_eq!(group(&limits, "sg.ShadowQuality"), Some(6));
    assert_eq!(limits.global_max, 6);
}
