//! Preset catalogs and pack manifests, and which pack applies to a game.
use vstd::prelude::*;
use crate::known_games::{
    any_eq, known_app_id, known_app_id_for_game, list_has, opt_sv, overlay_for_game,
    overlay_preset_for_game, KnownGameEntry,
};
use crate::models::PresetInfo;
use crate::paths::{join_spec, join_vec};
use crate::safety::{path_within_root, safe_pack_id, within_root};
use crate::text::{append_str, chars_of, has_prefix, string_of, subvec};

verus! {

#[derive(Debug, Clone)]
pub struct PresetCatalog {
    pub schema_version: u32,
    pub catalog_id: String,
    pub version: String,
    pub updated_at: Option<String>,
    pub base_url: Option<String>,
    pub packs: Vec<CatalogPackRef>,
}

#[derive(Debug, Clone)]
pub struct CatalogPackRef {
    pub id: String,
    pub manifest_url: String,
    pub sha256: Option<String>,
}

/// Which games a pack is for.
#[derive(Debug, Clone)]
pub struct PackMatch {
    pub steam_app_ids: Vec<String>,
    pub game_ids: Vec<String>,
    pub engine_families: Vec<String>,
    pub overlay_ids: Vec<String>,
}

#[derive(Debug, Clone)]
pub struct PackBundle {
    pub file: String,
    pub sha256: Option<String>,
}

/// How a pack is applied.
#[derive(Debug, Clone)]
pub enum PackApply {
    Forza {
        presets_root: String,
        user_config_patch: String,
        media_dir: String,
        parameter_catalog: String,
    },
    UeOverlay { overlay_id: String, overlay_file: String },
    Unity { presets_root: String },
    UeJson { presets_root: String, engines_root: String },
    Catalog { catalog_root: String },
    ReShadeIni { presets_root: String },
}

#[derive(Debug, Clone)]
pub struct PackPolicy {
    pub preserve_settings: Vec<String>,
    pub preserve_selections: Vec<String>,
}

#[derive(Debug, Clone)]
pub struct ForzaPresetEntry {
    pub id: String,
    pub name: String,
    pub description: String,
    pub profile_folder: String,
}

#[derive(Debug, Clone)]
pub struct JsonPresetEntry {
    pub id: String,
    pub name: String,
    pub description: String,
    pub definition_file: String,
}

#[derive(Debug, Clone)]
pub struct ReShadeIniPresetEntry {
    pub id: String,
    pub name: String,
    pub description: String,
    pub ini_file: String,
}

#[derive(Debug, Clone)]
pub enum PackPresetEntry {
    Forza(ForzaPresetEntry),
    Json(JsonPresetEntry),
    ReShade(ReShadeIniPresetEntry),
}

#[derive(Debug, Clone)]
pub struct PackManifest {
    pub schema_version: u32,
    pub pack_id: String,
    pub title: Option<String>,
    pub revision: Option<String>,
    pub updated_at: Option<String>,
    pub match_rules: PackMatch,
    pub apply: PackApply,
    pub bundle: Option<PackBundle>,
    pub presets: Vec<PackPresetEntry>,
    pub policy: Option<PackPolicy>,
}

/// A cached pack: its manifest and the directory it was extracted to.
#[derive(Debug, Clone)]
pub struct ResolvedPack {
    pub manifest: PackManifest,
    pub root: String,
}

pub fn default_engines_root() -> (r: String)
    ensures
        r@ == "engines"@,
{
    crate::text::owned("engines")
}

pub fn default_parameter_catalog() -> (r: String)
    ensures
        r@ == "parameter-catalog.json"@,
{
    crate::text::owned("parameter-catalog.json")
}

// ---------------------------------------------------------------------------
// Matching specification
// ---------------------------------------------------------------------------
/// A rule game id equals the game id, or `steam-<app id>` of the game.
pub open spec fn game_id_alias_match(
    rule_ids: Seq<String>,
    known: Seq<KnownGameEntry>,
    gid: Seq<char>,
) -> bool {
    any_eq(rule_ids, gid) || match known_app_id(known, gid) {
        Some(a) => any_eq(rule_ids, "steam-"@ + a),
        None => false,
    }
}

/// A rule Steam app id equals the number of a `steam-<n>` game id or the
/// game's known app id.
pub open spec fn steam_id_match(
    rule_ids: Seq<String>,
    known: Seq<KnownGameEntry>,
    gid: Seq<char>,
) -> bool {
    (has_prefix(gid, "steam-"@) && any_eq(rule_ids, gid.skip(6))) || match known_app_id(
        known,
        gid,
    ) {
        Some(a) => any_eq(rule_ids, a),
        None => false,
    }
}

pub open spec fn game_identity_match(
    rules: PackMatch,
    known: Seq<KnownGameEntry>,
    gid: Seq<char>,
) -> bool {
    (rules.game_ids.len() > 0 && game_id_alias_match(rules.game_ids@, known, gid)) || (
    rules.steam_app_ids.len() > 0 && steam_id_match(rules.steam_app_ids@, known, gid))
}

pub open spec fn family_match(rules: PackMatch, family: Option<Seq<char>>) -> bool {
    match family {
        Some(f) => any_eq(rules.engine_families@, f),
        None => false,
    }
}

/// When a pack's match rules accept a game: with a game id and game-specific
/// rules, the game must match them and the engine family (if families are
/// listed); otherwise some listed kind of rule must match.
pub open spec fn pack_matches_spec(
    rules: PackMatch,
    known: Seq<KnownGameEntry>,
    game_id: Option<Seq<char>>,
    family: Option<Seq<char>>,
    overlay: Option<Seq<char>>,
) -> bool {
    let has_identity = rules.game_ids.len() > 0 || rules.steam_app_ids.len() > 0;
    if game_id is Some && has_identity {
        let gid = game_id->0;
        game_identity_match(rules, known, gid) && (rules.engine_families.len() == 0
            || family_match(rules, family))
    } else {
        let any_rule = rules.engine_families.len() > 0 || rules.game_ids.len() > 0
            || rules.steam_app_ids.len() > 0 || rules.overlay_ids.len() > 0;
        let by_family = rules.engine_families.len() > 0 && family_match(rules, family);
        let by_overlay = rules.overlay_ids.len() > 0 && ((overlay is Some && any_eq(
            rules.overlay_ids@,
            overlay->0,
        )) || (game_id is Some && overlay_for_game(known, game_id->0) is Some && any_eq(
            rules.overlay_ids@,
            overlay_for_game(known, game_id->0)->0,
        )));
        any_rule && (by_family || by_overlay)
    }
}

pub open spec fn opt_str(o: Option<&str>) -> Option<Seq<char>> {
    match o {
        Some(s) => Some(s@),
        None => None,
    }
}

// ---------------------------------------------------------------------------
// Executable code
// ---------------------------------------------------------------------------
/// `game_id` without its `steam-` prefix.
pub fn extract_steam_app_id(game_id: &str) -> (r: Option<String>)
    ensures
        r is Some <==> has_prefix(game_id@, "steam-"@),
        r matches Some(s) ==> s@ == game_id@.skip(6),
{
    let v = chars_of(game_id);
    let p = chars_of("steam-");
    proof {
        reveal_strlit("steam-");
    }
    match crate::text::strip_prefix_vec(&v, &p) {
        Some(t) => Some(string_of(&t)),
        None => None,
    }
}

fn list_has_str(xs: &Vec<String>, x: &str) -> (r: bool)
    ensures
        r == any_eq(xs@, x@),
{
    let v = chars_of(x);
    list_has(xs, &v)
}

/// Ids a game may be listed under: itself and `steam-<known app id>`.
pub fn pack_match_game_id_aliases(known: &Vec<KnownGameEntry>, game_id: &str) -> (r: Vec<String>)
    ensures
        forall|x: Seq<char>|
            any_eq(r@, x) <==> (x == game_id@ || (known_app_id(known@, game_id@) is Some && x
                == "steam-"@ + known_app_id(known@, game_id@)->0)),
{
    let mut out: Vec<String> = Vec::new();
    out.push(crate::text::owned(game_id));
    assert(any_eq(out@, game_id@)) by {
        assert(out@[0]@ == game_id@);
    }
    let ghost first = out@;
    match known_app_id_for_game(known, game_id) {
        Some(a) => {
            let mut s = chars_of("steam-");
            append_str(&mut s, a.as_str());
            let st = string_of(&s);
            proof {
                reveal_strlit("steam-");
            }
            if !list_has_str(&out, st.as_str()) {
                out.push(st);
                proof {
                    assert forall|x: Seq<char>| any_eq(out@, x) <==> (any_eq(first, x) || x == st@) by {
                        if any_eq(first, x) {
                            let k = choose|k: int| 0 <= k < first.len() && (#[trigger] first[k])@ == x;
                            assert(out@[k]@ == x);
                        }
                        if x == st@ {
                            assert(out@[1]@ == x);
                        }
                    }
                }
            }
        },
        None => {},
    }
    proof {
        assert forall|x: Seq<char>| any_eq(first, x) <==> x == game_id@ by {
            if any_eq(first, x) {
                let k = choose|k: int| 0 <= k < first.len() && (#[trigger] first[k])@ == x;
                assert(k == 0);
            }
        }
    }
    out
}

/// App ids a game may be listed under: the number of `steam-<n>` and the
/// known app id.
pub fn pack_match_steam_app_ids(known: &Vec<KnownGameEntry>, game_id: &str) -> (r: Vec<String>)
    ensures
        forall|x: Seq<char>|
            any_eq(r@, x) <==> ((has_prefix(game_id@, "steam-"@) && x == game_id@.skip(6)) || (
            known_app_id(known@, game_id@) is Some && x == known_app_id(known@, game_id@)->0)),
{
    let mut out: Vec<String> = Vec::new();
    match extract_steam_app_id(game_id) {
        Some(a) => out.push(a),
        None => {},
    }
    let ghost first = out@;
    match known_app_id_for_game(known, game_id) {
        Some(a) => {
            if !list_has_str(&out, a.as_str()) {
                out.push(a);
            }
        },
        None => {},
    }
    proof {
        assert forall|x: Seq<char>|
            any_eq(out@, x) <==> ((has_prefix(game_id@, "steam-"@) && x == game_id@.skip(6)) || (
            known_app_id(known@, game_id@) is Some && x == known_app_id(known@, game_id@)->0)) by {
            if has_prefix(game_id@, "steam-"@) && x == game_id@.skip(6) {
                assert(out@[0]@ == x);
            }
            if known_app_id(known@, game_id@) is Some && x == known_app_id(known@, game_id@)->0
                && !any_eq(first, x) {
                assert(out@[out@.len() - 1]@ == x);
            }
        }
    }
    out
}

fn any_in(rule_ids: &Vec<String>, candidates: &Vec<String>) -> (r: bool)
    ensures
        r == exists|x: Seq<char>| any_eq(rule_ids@, x) && any_eq(candidates@, x),
{
    let mut i: usize = 0;
    while i < candidates.len()
        invariant
            i <= candidates.len(),
            forall|j: int| 0 <= j < i ==> !any_eq(rule_ids@, (#[trigger] candidates@[j])@),
        decreases candidates.len() - i,
    {
        if list_has_str(rule_ids, candidates[i].as_str()) {
            assert(any_eq(candidates@, candidates@[i as int]@));
            return true;
        }
        i += 1;
    }
    false
}

/// Whether game-specific rules accept the game.
pub fn matches_game_identity(rules: &PackMatch, known: &Vec<KnownGameEntry>, game_id: &str) -> (r: bool)
    ensures
        r == game_identity_match(*rules, known@, game_id@),
{
    if rules.game_ids.len() > 0 {
        let aliases = pack_match_game_id_aliases(known, game_id);
        if any_in(&rules.game_ids, &aliases) {
            return true;
        }
        proof {
            if game_id_alias_match(rules.game_ids@, known@, game_id@) {
                if any_eq(rules.game_ids@, game_id@) {
                    assert(any_eq(aliases@, game_id@));
                } else {
                    let x = "steam-"@ + known_app_id(known@, game_id@)->0;
                    assert(any_eq(aliases@, x));
                }
            }
        }
    }
    if rules.steam_app_ids.len() > 0 {
        let ids = pack_match_steam_app_ids(known, game_id);
        if any_in(&rules.steam_app_ids, &ids) {
            return true;
        }
        proof {
            if steam_id_match(rules.steam_app_ids@, known@, game_id@) {
                if has_prefix(game_id@, "steam-"@) && any_eq(rules.steam_app_ids@, game_id@.skip(6)) {
                    assert(any_eq(ids@, game_id@.skip(6)));
                } else {
                    let x = known_app_id(known@, game_id@)->0;
                    assert(any_eq(ids@, x));
                }
            }
        }
    }
    false
}

fn family_match_exec(rules: &PackMatch, family: Option<&str>) -> (r: bool)
    ensures
        r == family_match(*rules, opt_str(family)),
{
    match family {
        Some(f) => list_has_str(&rules.engine_families, f),
        None => false,
    }
}

/// Whether a pack's match rules accept a game (see `pack_matches_spec`).
pub fn pack_matches(
    rules: &PackMatch,
    known: &Vec<KnownGameEntry>,
    game_id: Option<&str>,
    engine_family: Option<&str>,
    overlay_id: Option<&str>,
) -> (r: bool)
    ensures
        r == pack_matches_spec(
            *rules,
            known@,
            opt_str(game_id),
            opt_str(engine_family),
            opt_str(overlay_id),
        ),
{
    let has_identity = rules.game_ids.len() > 0 || rules.steam_app_ids.len() > 0;
    match game_id {
        Some(gid) => {
            if has_identity {
                if !matches_game_identity(rules, known, gid) {
                    return false;
                }
                if rules.engine_families.len() > 0 {
                    return family_match_exec(rules, engine_family);
                }
                return true;
            }
        },
        None => {},
    }
    let any_rule = rules.engine_families.len() > 0 || rules.game_ids.len() > 0
        || rules.steam_app_ids.len() > 0 || rules.overlay_ids.len() > 0;
    let mut matched = false;
    if rules.engine_families.len() > 0 && family_match_exec(rules, engine_family) {
        matched = true;
    }
    if rules.overlay_ids.len() > 0 {
        match overlay_id {
            Some(oid) => {
                if list_has_str(&rules.overlay_ids, oid) {
                    matched = true;
                }
            },
            None => {},
        }
        match game_id {
            Some(gid) => {
                match overlay_preset_for_game(known, gid) {
                    Some(o) => {
                        if list_has_str(&rules.overlay_ids, o.as_str()) {
                            matched = true;
                        }
                    },
                    None => {},
                }
            },
            None => {},
        }
    }
    any_rule && matched
}

pub open spec fn entry_info(e: PackPresetEntry) -> (Seq<char>, Seq<char>, Seq<char>) {
    match e {
        PackPresetEntry::Forza(p) => (p.id@, p.name@, p.description@),
        PackPresetEntry::Json(p) => (p.id@, p.name@, p.description@),
        PackPresetEntry::ReShade(p) => (p.id@, p.name@, p.description@),
    }
}

pub open spec fn info_view(p: PresetInfo) -> (Seq<char>, Seq<char>, Seq<char>) {
    (p.id@, p.name@, p.description@)
}

impl PackManifest {
    /// Id, name and description of every preset, in manifest order.
    pub fn presets_info(&self) -> (r: Vec<PresetInfo>)
        ensures
            r@.len() == self.presets@.len(),
            forall|i: int|
                0 <= i < r@.len() ==> info_view(#[trigger] r@[i]) == entry_info(self.presets@[i]),
    {
        let mut out: Vec<PresetInfo> = Vec::new();
        let mut i: usize = 0;
        while i < self.presets.len()
            invariant
                i <= self.presets.len(),
                out@.len() == i,
                forall|j: int|
                    0 <= j < i ==> info_view(#[trigger] out@[j]) == entry_info(self.presets@[j]),
            decreases self.presets.len() - i,
        {
            let info = match &self.presets[i] {
                PackPresetEntry::Forza(p) => PresetInfo {
                    id: p.id.clone(),
                    name: p.name.clone(),
                    description: p.description.clone(),
                },
                PackPresetEntry::Json(p) => PresetInfo {
                    id: p.id.clone(),
                    name: p.name.clone(),
                    description: p.description.clone(),
                },
                PackPresetEntry::ReShade(p) => PresetInfo {
                    id: p.id.clone(),
                    name: p.name.clone(),
                    description: p.description.clone(),
                },
            };
            out.push(info);
            i += 1;
        }
        out
    }
}

pub open spec fn forza_media_spec(apply: PackApply, root: Seq<char>, profile_dir: Seq<char>) -> Option<
    Seq<char>,
> {
    match apply {
        PackApply::Forza { media_dir, .. } => {
            let media = join_spec(profile_dir, media_dir@);
            if crate::paths::is_safe_relative(media_dir@) && within_root(root, profile_dir)
                && within_root(root, media) {
                Some(media)
            } else {
                None
            }
        },
        _ => None,
    }
}

/// The candidate directory of a Forza preset and the patch file in it, when
/// the manifest's relative paths are safe and stay in the pack.
pub open spec fn forza_profile_paths_spec(m: PackManifest, root: Seq<char>, preset_id: Seq<char>) -> Option<
    (Seq<char>, Seq<char>),
> {
    match m.apply {
        PackApply::Forza { presets_root, user_config_patch, .. } => {
            let idx = forza_entry_index(m.presets@, preset_id);
            if idx < 0 {
                None
            } else {
                let folder = forza_folder(m.presets@[idx]);
                let dir = join_spec(join_spec(root, presets_root@), folder);
                let patch = join_spec(dir, user_config_patch@);
                if crate::paths::is_safe_relative(folder) && crate::paths::is_safe_relative(
                    presets_root@,
                ) && crate::paths::is_safe_relative(user_config_patch@) && within_root(root, dir)
                    && within_root(root, patch) {
                    Some((dir, patch))
                } else {
                    None
                }
            }
        },
        _ => None,
    }
}

pub open spec fn forza_folder(e: PackPresetEntry) -> Seq<char> {
    match e {
        PackPresetEntry::Forza(f) => f.profile_folder@,
        _ => seq![],
    }
}

/// Index of the first Forza entry with this id, or -1.
pub open spec fn forza_entry_index(es: Seq<PackPresetEntry>, id: Seq<char>) -> int
    decreases es.len(),
{
    if es.len() == 0 {
        -1
    } else if (es[0] matches PackPresetEntry::Forza(f) && f.id@ == id) {
        0
    } else {
        let r = forza_entry_index(es.drop_first(), id);
        if r < 0 {
            -1
        } else {
            r + 1
        }
    }
}

fn forza_entry_index_exec(es: &Vec<PackPresetEntry>, id: &str) -> (r: Option<usize>)
    ensures
        match r {
            Some(i) => i < es.len() && forza_entry_index(es@, id@) == i,
            None => forza_entry_index(es@, id@) == -1,
        },
{
    let mut i: usize = 0;
    assert(es@.skip(0) =~= es@);
    while i < es.len()
        invariant
            i <= es.len(),
            forza_entry_index(es@, id@) == (if forza_entry_index(es@.skip(i as int), id@) < 0 {
                -1
            } else {
                forza_entry_index(es@.skip(i as int), id@) + i
            }),
        decreases es.len() - i,
    {
        let ghost rest = es@.skip(i as int);
        assert(rest[0] == es@[i as int]);
        assert(rest.drop_first() =~= es@.skip(i + 1));
        match &es[i] {
            PackPresetEntry::Forza(f) => {
                if crate::text::str_eq(f.id.as_str(), id) {
                    return Some(i);
                }
            },
            _ => {},
        }
        i += 1;
    }
    assert(es@.skip(es.len() as int) =~= Seq::<PackPresetEntry>::empty());
    None
}

fn join_str(a: &str, b: &str) -> (r: String)
    ensures
        r@ == join_spec(a@, b@),
{
    crate::paths::join(a, b)
}


/// A parsed manifest is accepted only when its `pack_id` is safe.
pub fn accept_manifest(m: PackManifest) -> (r: Result<PackManifest, String>)
    ensures
        r is Ok <==> safe_pack_id(m.pack_id@),
        r matches Ok(x) ==> x == m,
        r matches Err(e) ==> e@ == "Недопустимый pack_id: "@ + m.pack_id@,
{
    if crate::safety::is_safe_pack_id(m.pack_id.as_str()) {
        Ok(m)
    } else {
        let mut v = chars_of("Недопустимый pack_id: ");
        append_str(&mut v, m.pack_id.as_str());
        Err(string_of(&v))
    }
}

/// Why a path named by a manifest is refused.
#[derive(Debug, Clone, PartialEq, Eq)]
pub enum PackPathError {
    InvalidPresetId(String),
    UnsafePath(String),
    OutsidePack(String),
}

/// Which of the two checked parts of a pack path is refused, or where the
/// path is.
pub open spec fn pack_relative_spec(root: Seq<char>, seg: Seq<char>, rel: Seq<char>) -> Result<
    Seq<char>,
    (u8, Seq<char>),
> {
    let path = join_spec(join_spec(root, seg), rel);
    if !crate::paths::is_safe_relative(seg) {
        Err((0u8, seg))
    } else if !crate::paths::is_safe_relative(rel) {
        Err((0u8, rel))
    } else if !within_root(root, path) {
        Err((1u8, rel))
    } else {
        Ok(path)
    }
}

pub open spec fn pack_file_spec(root: Seq<char>, rel: Seq<char>) -> Result<Seq<char>, (u8, Seq<char>)> {
    let path = join_spec(root, rel);
    if !crate::paths::is_safe_relative(rel) {
        Err((0u8, rel))
    } else if !within_root(root, path) {
        Err((1u8, rel))
    } else {
        Ok(path)
    }
}

pub open spec fn pack_res_view(r: Result<String, PackPathError>) -> Result<Seq<char>, (u8, Seq<char>)> {
    match r {
        Ok(p) => Ok(p@),
        Err(PackPathError::UnsafePath(x)) => Err((0u8, x@)),
        Err(PackPathError::OutsidePack(x)) => Err((1u8, x@)),
        Err(PackPathError::InvalidPresetId(x)) => Err((2u8, x@)),
    }
}

/// The path of `rel` under `seg` in a pack, when both are safe relative
/// paths and the result stays in the pack.
pub fn resolve_pack_relative_file(root: &str, seg: &str, rel: &str) -> (r: Result<String, PackPathError>)
    ensures
        pack_res_view(r) == pack_relative_spec(root@, seg@, rel@),
{
    if !crate::paths::is_safe_relative_path(seg) {
        return Err(PackPathError::UnsafePath(crate::text::owned(seg)));
    }
    if !crate::paths::is_safe_relative_path(rel) {
        return Err(PackPathError::UnsafePath(crate::text::owned(rel)));
    }
    let base = join_str(root, seg);
    let path = join_str(base.as_str(), rel);
    if !path_within_root(root, path.as_str()) {
        return Err(PackPathError::OutsidePack(crate::text::owned(rel)));
    }
    Ok(path)
}

/// The path of `rel` in a pack, when it is a safe relative path and stays
/// in the pack.
pub fn resolve_pack_file_under_root(root: &str, rel: &str) -> (r: Result<String, PackPathError>)
    ensures
        pack_res_view(r) == pack_file_spec(root@, rel@),
{
    if !crate::paths::is_safe_relative_path(rel) {
        return Err(PackPathError::UnsafePath(crate::text::owned(rel)));
    }
    let path = join_str(root, rel);
    if !path_within_root(root, path.as_str()) {
        return Err(PackPathError::OutsidePack(crate::text::owned(rel)));
    }
    Ok(path)
}

/// Definition file of the first JSON preset entry with this id.
pub open spec fn json_definition(es: Seq<PackPresetEntry>, id: Seq<char>) -> Option<Seq<char>>
    decreases es.len(),
{
    if es.len() == 0 {
        None
    } else if (es[0] matches PackPresetEntry::Json(j) && j.id@ == id) {
        Some(es[0]->Json_0.definition_file@)
    } else {
        json_definition(es.drop_first(), id)
    }
}

/// INI file of the first ReShade preset entry with this id.
pub open spec fn ini_file_of(es: Seq<PackPresetEntry>, id: Seq<char>) -> Option<Seq<char>>
    decreases es.len(),
{
    if es.len() == 0 {
        None
    } else if (es[0] matches PackPresetEntry::ReShade(j) && j.id@ == id) {
        Some(es[0]->ReShade_0.ini_file@)
    } else {
        ini_file_of(es.drop_first(), id)
    }
}

fn json_definition_exec(es: &Vec<PackPresetEntry>, id: &str) -> (r: Option<String>)
    ensures
        crate::known_games::opt_sv(r) == json_definition(es@, id@),
{
    let mut i: usize = 0;
    assert(es@.skip(0) =~= es@);
    while i < es.len()
        invariant
            i <= es.len(),
            json_definition(es@, id@) == json_definition(es@.skip(i as int), id@),
        decreases es.len() - i,
    {
        let ghost rest = es@.skip(i as int);
        assert(rest[0] == es@[i as int]);
        assert(rest.drop_first() =~= es@.skip(i + 1));
        match &es[i] {
            PackPresetEntry::Json(j) => {
                if crate::text::str_eq(j.id.as_str(), id) {
                    return Some(crate::text::owned(j.definition_file.as_str()));
                }
            },
            _ => {},
        }
        i += 1;
    }
    assert(es@.skip(i as int) =~= Seq::<PackPresetEntry>::empty());
    None
}

fn ini_file_exec(es: &Vec<PackPresetEntry>, id: &str) -> (r: Option<String>)
    ensures
        crate::known_games::opt_sv(r) == ini_file_of(es@, id@),
{
    let mut i: usize = 0;
    assert(es@.skip(0) =~= es@);
    while i < es.len()
        invariant
            i <= es.len(),
            ini_file_of(es@, id@) == ini_file_of(es@.skip(i as int), id@),
        decreases es.len() - i,
    {
        let ghost rest = es@.skip(i as int);
        assert(rest[0] == es@[i as int]);
        assert(rest.drop_first() =~= es@.skip(i + 1));
        match &es[i] {
            PackPresetEntry::ReShade(j) => {
                if crate::text::str_eq(j.id.as_str(), id) {
                    return Some(crate::text::owned(j.ini_file.as_str()));
                }
            },
            _ => {},
        }
        i += 1;
    }
    assert(es@.skip(i as int) =~= Seq::<PackPresetEntry>::empty());
    None
}

impl ResolvedPack {
    /// Whether this pack's rules accept the game.
    pub fn matches(
        &self,
        known: &Vec<KnownGameEntry>,
        game_id: Option<&str>,
        engine_family: Option<&str>,
        overlay_id: Option<&str>,
    ) -> (r: bool)
        ensures
            r == pack_matches_spec(
                self.manifest.match_rules,
                known@,
                opt_str(game_id),
                opt_str(engine_family),
                opt_str(overlay_id),
            ),
    {
        pack_matches(&self.manifest.match_rules, known, game_id, engine_family, overlay_id)
    }

    /// The directory of a Forza preset and its patch file, when the
    /// manifest's paths are safe; the preset is usable if the patch exists.
    pub fn forza_profile_paths(&self, preset_id: &str) -> (r: Option<(String, String)>)
        ensures
            match r {
                Some((d, p)) => forza_profile_paths_spec(self.manifest, self.root@, preset_id@)
                    == Some((d@, p@)),
                None => forza_profile_paths_spec(self.manifest, self.root@, preset_id@) is None,
            },
    {
        match &self.manifest.apply {
            PackApply::Forza { presets_root, user_config_patch, .. } => {
                let idx = match forza_entry_index_exec(&self.manifest.presets, preset_id) {
                    Some(i) => i,
                    None => {
                        return None;
                    },
                };
                let folder = match &self.manifest.presets[idx] {
                    PackPresetEntry::Forza(f) => f.profile_folder.clone(),
                    _ => String::new(),
                };
                assert(folder@ == forza_folder(self.manifest.presets@[idx as int]));
                let base = join_str(self.root.as_str(), presets_root.as_str());
                let dir = join_str(base.as_str(), folder.as_str());
                let patch = join_str(dir.as_str(), user_config_patch.as_str());
                if crate::paths::is_safe_relative_path(folder.as_str())
                    && crate::paths::is_safe_relative_path(presets_root.as_str())
                    && crate::paths::is_safe_relative_path(user_config_patch.as_str())
                    && path_within_root(self.root.as_str(), dir.as_str()) && path_within_root(
                    self.root.as_str(),
                    patch.as_str(),
                ) {
                    Some((dir, patch))
                } else {
                    None
                }
            },
            _ => None,
        }
    }

    /// The profile directory of a Forza preset, given which candidate patch
    /// files exist.
    pub fn forza_profile_dir(&self, preset_id: &str, existing_files: &Vec<String>) -> (r: Option<
        String,
    >)
        ensures
            match forza_profile_paths_spec(self.manifest, self.root@, preset_id@) {
                Some((d, p)) => if any_eq(existing_files@, p) {
                    r is Some && r->0@ == d
                } else {
                    r is None
                },
                None => r is None,
            },
    {
        match self.forza_profile_paths(preset_id) {
            Some((d, p)) => {
                if list_has_str(existing_files, p.as_str()) {
                    Some(d)
                } else {
                    None
                }
            },
            None => None,
        }
    }

    /// Whether a Forza pack has at least one preset whose patch file exists.
    pub fn forza_pack_has_profiles(&self, existing_files: &Vec<String>) -> (r: bool)
        ensures
            r == (self.manifest.apply is Forza && exists|i: int|
                0 <= i < self.manifest.presets@.len() && (#[trigger] self.manifest.presets@[i]) is Forza
                    && (match forza_profile_paths_spec(
                    self.manifest,
                    self.root@,
                    self.manifest.presets@[i]->Forza_0.id@,
                ) {
                    Some((d, p)) => any_eq(existing_files@, p),
                    None => false,
                })),
    {
        match &self.manifest.apply {
            PackApply::Forza { .. } => {},
            _ => {
                return false;
            },
        }
        let mut i: usize = 0;
        while i < self.manifest.presets.len()
            invariant
                i <= self.manifest.presets.len(),
                self.manifest.apply is Forza,
                forall|j: int|
                    0 <= j < i ==> !((#[trigger] self.manifest.presets@[j]) is Forza && (
                    match forza_profile_paths_spec(
                        self.manifest,
                        self.root@,
                        self.manifest.presets@[j]->Forza_0.id@,
                    ) {
                        Some((d, p)) => any_eq(existing_files@, p),
                        None => false,
                    })),
            decreases self.manifest.presets.len() - i,
        {
            match &self.manifest.presets[i] {
                PackPresetEntry::Forza(f) => {
                    if self.forza_profile_dir(f.id.as_str(), existing_files).is_some() {
                        return true;
                    }
                },
                _ => {},
            }
            i += 1;
        }
        false
    }

    /// Media directory of a Forza profile directory, when it stays inside
    /// the pack.
    pub fn forza_media_src(&self, profile_dir: &str) -> (r: Option<String>)
        ensures
            opt_sv(r) == forza_media_spec(self.manifest.apply, self.root@, profile_dir@),
    {
        match &self.manifest.apply {
            PackApply::Forza { media_dir, .. } => {
                if !crate::paths::is_safe_relative_path(media_dir.as_str()) {
                    return None;
                }
                if !path_within_root(self.root.as_str(), profile_dir) {
                    return None;
                }
                let media = join_str(profile_dir, media_dir.as_str());
                if !path_within_root(self.root.as_str(), media.as_str()) {
                    return None;
                }
                Some(media)
            },
            _ => None,
        }
    }

    /// `policy.json` in the pack directory.
    pub fn policy_path(&self) -> (r: String)
        ensures
            r@ == join_spec(self.root@, "policy.json"@),
    {
        join_str(self.root.as_str(), "policy.json")
    }

    /// Where a Forza pack's parameter catalog would be, when its path is
    /// safe and stays in the pack (the file itself is looked for by the
    /// caller).
    pub fn forza_parameter_catalog_path(&self) -> (r: Option<String>)
        ensures
            match self.manifest.apply {
                PackApply::Forza { parameter_catalog, .. } => match pack_file_spec(
                    self.root@,
                    parameter_catalog@,
                ) {
                    Ok(p) => r matches Some(x) && x@ == p,
                    Err(_) => r is None,
                },
                _ => r is None,
            },
    {
        match &self.manifest.apply {
            PackApply::Forza { parameter_catalog, .. } => {
                match resolve_pack_file_under_root(self.root.as_str(), parameter_catalog.as_str()) {
                    Ok(p) => Some(p),
                    Err(_) => None,
                }
            },
            _ => None,
        }
    }

    /// The name of the patch file in each Forza profile directory.
    pub fn forza_user_config_patch_file(&self) -> (r: Option<String>)
        ensures
            match self.manifest.apply {
                PackApply::Forza { user_config_patch, .. } => r matches Some(x) && x@
                    == user_config_patch@,
                _ => r is None,
            },
    {
        match &self.manifest.apply {
            PackApply::Forza { user_config_patch, .. } => Some(
                crate::text::owned(user_config_patch.as_str()),
            ),
            _ => None,
        }
    }

    /// Where a Unity preset's JSON would be: `None` for other packs, an
    /// error for an unsafe preset id or an unsafe path, else the path of the
    /// listed definition file (or `<id>.json`) under the presets root.
    pub fn unity_preset_path(&self, preset_id: &str) -> (r: Option<Result<String, PackPathError>>)
        ensures
            !safe_pack_id(preset_id@) ==> (r matches Some(Err(PackPathError::InvalidPresetId(x)))
                && x@ == preset_id@),
            safe_pack_id(preset_id@) ==> match self.manifest.apply {
                PackApply::Unity { presets_root } => r matches Some(res) && pack_res_view(res)
                    == pack_relative_spec(
                    self.root@,
                    presets_root@,
                    match json_definition(self.manifest.presets@, preset_id@) {
                        Some(d) => d,
                        None => preset_id@ + ".json"@,
                    },
                ),
                _ => r is None,
            },
    {
        if !crate::safety::is_safe_pack_id(preset_id) {
            return Some(Err(PackPathError::InvalidPresetId(crate::text::owned(preset_id))));
        }
        match &self.manifest.apply {
            PackApply::Unity { presets_root } => {
                let rel = match json_definition_exec(&self.manifest.presets, preset_id) {
                    Some(d) => d,
                    None => {
                        let mut v = chars_of(preset_id);
                        append_str(&mut v, ".json");
                        string_of(&v)
                    },
                };
                Some(resolve_pack_relative_file(self.root.as_str(), presets_root.as_str(), rel.as_str()))
            },
            _ => None,
        }
    }

    /// The directory holding a catalog pack's JSON files, when its path is
    /// safe and stays in the pack; `None` for other packs.
    pub fn catalog_dir(&self) -> (r: Option<Option<String>>)
        ensures
            match self.manifest.apply {
                PackApply::Catalog { catalog_root } => r matches Some(d) && ({
                    let dir = join_spec(self.root@, catalog_root@);
                    if crate::paths::is_safe_relative(catalog_root@) && within_root(self.root@, dir) {
                        d matches Some(x) && x@ == dir
                    } else {
                        d is None
                    }
                }),
                _ => r is None,
            },
    {
        match &self.manifest.apply {
            PackApply::Catalog { catalog_root } => {
                if !crate::paths::is_safe_relative_path(catalog_root.as_str()) {
                    return Some(None);
                }
                let dir = join_str(self.root.as_str(), catalog_root.as_str());
                if !path_within_root(self.root.as_str(), dir.as_str()) {
                    return Some(None);
                }
                Some(Some(dir))
            },
            _ => None,
        }
    }

    /// Where a ReShade preset of this pack would be, when the pack lists it
    /// and its path is safe and stays in the pack.
    pub fn load_reshade_ini_path(&self, preset_id: &str) -> (r: Option<String>)
        ensures
            match self.manifest.apply {
                PackApply::ReShadeIni { presets_root } => match ini_file_of(
                    self.manifest.presets@,
                    preset_id@,
                ) {
                    Some(f) => match pack_relative_spec(self.root@, presets_root@, f) {
                        Ok(p) => r matches Some(x) && x@ == p,
                        Err(_) => r is None,
                    },
                    None => r is None,
                },
                _ => r is None,
            },
    {
        match &self.manifest.apply {
            PackApply::ReShadeIni { presets_root } => {
                let rel = match ini_file_exec(&self.manifest.presets, preset_id) {
                    Some(f) => f,
                    None => {
                        return None;
                    },
                };
                match resolve_pack_relative_file(self.root.as_str(), presets_root.as_str(), rel.as_str()) {
                    Ok(p) => Some(p),
                    Err(_) => None,
                }
            },
            _ => None,
        }
    }
}


/// A file name whose extension, as `Path::extension` reads it, is `json`:
/// it ends in `.json` with something before that dot.
pub open spec fn has_json_extension(name: Seq<char>) -> bool {
    name.len() > 5 && crate::text::has_suffix(name, ".json"@)
}

/// Some entry name has a `json` extension and gives `x` under `dir`.
pub open spec fn is_catalog_json(dir: Seq<char>, names: Seq<String>, x: Seq<char>) -> bool {
    exists|i: int|
        0 <= i < names.len() && has_json_extension((#[trigger] names[i])@) && x == join_spec(
            dir,
            names[i]@,
        )
}

/// The JSON files of a catalog directory, from the names of its entries:
/// their paths under `dir`, in order, each once.
pub fn catalog_json_files(dir: &str, entry_names: &Vec<String>) -> (r: Vec<String>)
    ensures
        crate::unity::sorted_strs(r@),
        forall|x: Seq<char>| any_eq(r@, x) <==> is_catalog_json(dir@, entry_names@, x),
{
    let mut out: Vec<String> = Vec::new();
    let mut i: usize = 0;
    while i < entry_names.len()
        invariant
            i <= entry_names.len(),
            crate::unity::sorted_strs(out@),
            forall|x: Seq<char>|
                any_eq(out@, x) <==> is_catalog_json(dir@, entry_names@.take(i as int), x),
        decreases entry_names.len() - i,
    {
        let ghost before = out@;
        let name = chars_of(entry_names[i].as_str());
        let json = name.len() > 5 && crate::text::ends_with_str(&name, ".json");
        if json {
            let path = crate::paths::join(dir, entry_names[i].as_str());
            crate::unity::insert_sorted(&mut out, path);
        }
        proof {
            let t0 = entry_names@.take(i as int);
            let t1 = entry_names@.take(i + 1);
            assert(t1 =~= t0.push(entry_names@[i as int]));
            assert forall|x: Seq<char>| any_eq(out@, x) <==> is_catalog_json(dir@, t1, x) by {
                if is_catalog_json(dir@, t1, x) {
                    let k = choose|k: int|
                        0 <= k < t1.len() && has_json_extension((#[trigger] t1[k])@) && x
                            == join_spec(dir@, t1[k]@);
                    if k < i {
                        assert(t0[k] == t1[k]);
                    }
                }
                if is_catalog_json(dir@, t0, x) {
                    let k = choose|k: int|
                        0 <= k < t0.len() && has_json_extension((#[trigger] t0[k])@) && x
                            == join_spec(dir@, t0[k]@);
                    assert(t1[k] == t0[k]);
                }
                if json && x == join_spec(dir@, entry_names@[i as int]@) {
                    assert(t1[i as int] == entry_names@[i as int]);
                }
            }
        }
        i += 1;
    }
    assert(entry_names@.take(i as int) =~= entry_names@);
    out
}

} // verus!
