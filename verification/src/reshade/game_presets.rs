//! Author presets shipped for particular games, merged with the built-in
//! ones, and the API suggested for a game.
use vstd::prelude::*;
use crate::known_games::{
    any_eq, entry_for_game, entry_for_game_exec, opt_sv, KnownGameEntry,
};
use crate::paths::join_spec;
use crate::remote_presets::manifest::{opt_str, PackPresetEntry, ResolvedPack};
use crate::remote_presets::select::{find_reshade_ini_pack_cached, first_pack, is_reshade_ini, opt_ref};
use crate::remote_presets::manifest::pack_matches_spec;
use crate::reshade::presets::{
    builtin_infos, builtin_preset_ids, list_presets, pinfo_view, pinfo_views, preset_exists,
    ReShadePresetInfo,
};
use crate::safety::{is_safe_pack_id, safe_pack_id};
use crate::text::{chars_of, last_idx_of, last_index_of, string_of, subvec};

verus! {

pub type PView = (Seq<char>, Seq<char>, Seq<char>, bool);

pub open spec fn ids_of(ps: Seq<PView>) -> Seq<Seq<char>> {
    ps.map_values(|p: PView| p.0)
}

/// `base` followed by the presets of `extra` whose id is not taken yet (by
/// `base` or an earlier one of `extra`).
pub open spec fn merged(base: Seq<PView>, extra: Seq<PView>) -> Seq<PView>
    decreases extra.len(),
{
    if extra.len() == 0 {
        base
    } else {
        let m = merged(base, extra.drop_last());
        if ids_of(m).contains(extra.last().0) {
            m
        } else {
            m.push(extra.last())
        }
    }
}

fn has_id(ps: &Vec<ReShadePresetInfo>, id: &str) -> (r: bool)
    ensures
        r == ids_of(pinfo_views(ps@)).contains(id@),
{
    let mut i: usize = 0;
    while i < ps.len()
        invariant
            i <= ps.len(),
            forall|j: int| 0 <= j < i ==> ids_of(pinfo_views(ps@))[j] != id@,
        decreases ps.len() - i,
    {
        if crate::text::str_eq(ps[i].id.as_str(), id) {
            assert(ids_of(pinfo_views(ps@))[i as int] == id@);
            return true;
        }
        i += 1;
    }
    false
}

/// A field-by-field copy.
pub fn clone_info(p: &ReShadePresetInfo) -> (r: ReShadePresetInfo)
    ensures
        r == *p,
{
    ReShadePresetInfo {
        id: p.id.clone(),
        name: p.name.clone(),
        description: p.description.clone(),
        author: p.author,
    }
}

/// Adds the presets of `extra` whose id is not present yet, in order.
pub fn merge_author_presets(base: Vec<ReShadePresetInfo>, extra: Vec<ReShadePresetInfo>) -> (r: Vec<
    ReShadePresetInfo,
>)
    ensures
        pinfo_views(r@) == merged(pinfo_views(base@), pinfo_views(extra@)),
{
    let ghost b = pinfo_views(base@);
    let mut out = base;
    let mut i: usize = 0;
    assert(pinfo_views(extra@).take(0) =~= Seq::<PView>::empty());
    while i < extra.len()
        invariant
            i <= extra.len(),
            pinfo_views(out@) == merged(b, pinfo_views(extra@).take(i as int)),
        decreases extra.len() - i,
    {
        let ghost ev = pinfo_views(extra@);
        assert(ev.take(i + 1).drop_last() =~= ev.take(i as int));
        assert(ev.take(i + 1).last() == pinfo_view(extra@[i as int]));
        if !has_id(&out, extra[i].id.as_str()) {
            let c = clone_info(&extra[i]);
            out.push(c);
            assert(pinfo_views(out@) =~= pinfo_views(out@.drop_last()).push(pinfo_view(c)));
        }
        i += 1;
    }
    assert(pinfo_views(extra@).take(i as int) =~= pinfo_views(extra@));
    out
}

/// Ids of the presets that are distinct after merging, when they were in
/// `base`.
pub proof fn merged_ids_distinct(base: Seq<PView>, extra: Seq<PView>)
    requires
        ids_of(base).no_duplicates(),
    ensures
        ids_of(merged(base, extra)).no_duplicates(),
        merged(base, extra).len() >= base.len(),
        merged(base, extra).take(base.len() as int) == base,
    decreases extra.len(),
{
    if extra.len() > 0 {
        merged_ids_distinct(base, extra.drop_last());
    } else {
        assert(base.take(base.len() as int) =~= base);
    }
    if extra.len() > 0 {
        let m = merged(base, extra.drop_last());
        if !ids_of(m).contains(extra.last().0) {
            assert(ids_of(m.push(extra.last())) =~= ids_of(m).push(extra.last().0));
            assert(m.push(extra.last()).take(base.len() as int) =~= m.take(base.len() as int));
        }
    }
}

/// The built-in presets after the game's author presets (author presets
/// win on equal ids).
pub fn list_presets_for_game(author_presets: Vec<ReShadePresetInfo>) -> (r: Vec<ReShadePresetInfo>)
    ensures
        pinfo_views(r@) == merged(pinfo_views(author_presets@), builtin_infos()),
{
    let generic = list_presets();
    merge_author_presets(author_presets, generic)
}

/// The game's author presets: the local ones, then the pack's ones whose
/// ids are new.
pub fn load_author_presets(local: Vec<ReShadePresetInfo>, remote: Vec<ReShadePresetInfo>) -> (r: Vec<
    ReShadePresetInfo,
>)
    ensures
        pinfo_views(r@) == merged(pinfo_views(local@), pinfo_views(remote@)),
{
    merge_author_presets(local, remote)
}

/// The engine family the known-games data gives a game.
pub open spec fn known_family(known: Seq<KnownGameEntry>, gid: Seq<char>) -> Option<Seq<char>> {
    match entry_for_game(known, gid) {
        Some(e) => opt_sv(e.engine_family),
        None => None,
    }
}

pub fn engine_family_for_known_game(known: &Vec<KnownGameEntry>, game_id: &str) -> (r: Option<String>)
    ensures
        opt_sv(r) == known_family(known@, game_id@),
{
    match entry_for_game_exec(known, game_id) {
        Some(e) => match &e.engine_family {
            Some(f) => Some(crate::text::owned(f.as_str())),
            None => None,
        },
        None => None,
    }
}

/// The ReShade preset entries of a pack, as author presets.
pub open spec fn pack_author_presets(es: Seq<PackPresetEntry>) -> Seq<PView>
    decreases es.len(),
{
    if es.len() == 0 {
        seq![]
    } else {
        let rest = pack_author_presets(es.drop_last());
        match es.last() {
            PackPresetEntry::ReShade(p) => rest.push((p.id@, p.name@, p.description@, true)),
            _ => rest,
        }
    }
}

/// The pack that serves ReShade presets for a game: the first cached
/// ReShade pack whose rules accept the game and its known engine family.
pub open spec fn reshade_pack_for(
    packs: Seq<ResolvedPack>,
    known: Seq<KnownGameEntry>,
    gid: Seq<char>,
) -> Option<ResolvedPack> {
    first_pack(
        packs,
        |p: ResolvedPack|
            is_reshade_ini(p) && pack_matches_spec(
                p.manifest.match_rules,
                known,
                Some(gid),
                known_family(known, gid),
                None,
            ),
    )
}

/// Author presets of the game's cached ReShade pack.
pub fn load_remote_author_presets(
    packs: &Vec<ResolvedPack>,
    known: &Vec<KnownGameEntry>,
    game_id: &str,
) -> (r: Vec<ReShadePresetInfo>)
    ensures
        pinfo_views(r@) == match reshade_pack_for(packs@, known@, game_id@) {
            Some(p) => pack_author_presets(p.manifest.presets@),
            None => seq![],
        },
{
    let fam = engine_family_for_known_game(known, game_id);
    let fam_ref: Option<&str> = match &fam {
        Some(f) => Some(f.as_str()),
        None => None,
    };
    assert(opt_str(fam_ref) == known_family(known@, game_id@));
    assert(opt_str(Some(game_id)) == Some(game_id@));
    let pack = match find_reshade_ini_pack_cached(packs, known, Some(game_id), fam_ref) {
        Some(p) => p,
        None => {
            return Vec::new();
        },
    };
    let es = &pack.manifest.presets;
    let mut out: Vec<ReShadePresetInfo> = Vec::new();
    let mut i: usize = 0;
    while i < es.len()
        invariant
            i <= es.len(),
            pinfo_views(out@) == pack_author_presets(es@.take(i as int)),
        decreases es.len() - i,
    {
        assert(es@.take(i + 1).drop_last() =~= es@.take(i as int));
        assert(es@.take(i + 1).last() == es@[i as int]);
        match &es[i] {
            PackPresetEntry::ReShade(p) => {
                let info = ReShadePresetInfo {
                    id: p.id.clone(),
                    name: p.name.clone(),
                    description: p.description.clone(),
                    author: true,
                };
                out.push(info);
                assert(pinfo_views(out@) =~= pinfo_views(out@.drop_last()).push(pinfo_view(info)));
            },
            _ => {},
        }
        i += 1;
    }
    assert(es@.take(i as int) =~= es@);
    out
}

/// The stem of an `.ini` file name (`Path::extension` is `ini`, so the
/// last dot is not the first character).
pub open spec fn ini_stem(name: Seq<char>) -> Option<Seq<char>> {
    let i = last_idx_of(name, '.');
    if i > 0 && name.skip(i + 1) == "ini"@ {
        Some(name.take(i))
    } else {
        None
    }
}

pub open spec fn dashes_to_spaces(s: Seq<char>) -> Seq<char> {
    s.map_values(|c: char| if c == '-' { ' ' } else { c })
}

/// Author presets found as `<id>.ini` files, for the file names of a game
/// pack directory in listing order.
pub open spec fn scanned_presets(names: Seq<Seq<char>>) -> Seq<PView>
    decreases names.len(),
{
    if names.len() == 0 {
        seq![]
    } else {
        let rest = scanned_presets(names.drop_last());
        match ini_stem(names.last()) {
            Some(id) => if safe_pack_id(id) {
                rest.push((id, dashes_to_spaces(id), "Авторский пресет для игры."@, true))
            } else {
                rest
            },
            None => rest,
        }
    }
}

fn ini_stem_exec(name: &str) -> (r: Option<Vec<char>>)
    ensures
        crate::text::opt_view(r) == ini_stem(name@),
{
    proof {
        reveal_strlit("ini");
    }
    let v = chars_of(name);
    match last_index_of(&v, '.') {
        Some(i) => {
            if i > 0 {
                let ext = subvec(&v, i + 1, v.len());
                assert(ext@ == v@.skip(i + 1));
                if crate::text::seq_eq(&ext, &chars_of("ini")) {
                    return Some(subvec(&v, 0, i));
                }
            }
            None
        },
        None => None,
    }
}

fn dashes_to_spaces_exec(v: &Vec<char>) -> (r: Vec<char>)
    ensures
        r@ == dashes_to_spaces(v@),
{
    let mut out: Vec<char> = Vec::new();
    let mut i: usize = 0;
    while i < v.len()
        invariant
            i <= v.len(),
            out@ == dashes_to_spaces(v@.take(i as int)),
        decreases v.len() - i,
    {
        let c = v[i];
        out.push(
            if c == '-' {
                ' '
            } else {
                c
            },
        );
        assert(dashes_to_spaces(v@.take(i + 1)) =~= dashes_to_spaces(v@.take(i as int)).push(
            if c == '-' {
                ' '
            } else {
                c
            },
        ));
        i += 1;
    }
    assert(v@.take(i as int) =~= v@);
    out
}

/// Author presets from the `.ini` files of a game pack directory.
pub fn scan_ini_presets(file_names: &Vec<String>) -> (r: Vec<ReShadePresetInfo>)
    ensures
        pinfo_views(r@) == scanned_presets(crate::text::str_views(file_names@)),
{
    let ghost names = crate::text::str_views(file_names@);
    let mut out: Vec<ReShadePresetInfo> = Vec::new();
    let mut i: usize = 0;
    while i < file_names.len()
        invariant
            i <= file_names.len(),
            names == crate::text::str_views(file_names@),
            pinfo_views(out@) == scanned_presets(names.take(i as int)),
        decreases file_names.len() - i,
    {
        assert(names.take(i + 1).drop_last() =~= names.take(i as int));
        assert(names.take(i + 1).last() == file_names@[i as int]@);
        match ini_stem_exec(file_names[i].as_str()) {
            Some(id) => {
                let ids = string_of(&id);
                if is_safe_pack_id(ids.as_str()) {
                    let info = ReShadePresetInfo {
                        id: ids,
                        name: string_of(&dashes_to_spaces_exec(&id)),
                        description: crate::text::owned("Авторский пресет для игры."),
                        author: true,
                    };
                    out.push(info);
                    assert(pinfo_views(out@) =~= pinfo_views(out@.drop_last()).push(
                        pinfo_view(info),
                    ));
                }
            },
            None => {},
        }
        i += 1;
    }
    assert(names.take(i as int) =~= names);
    out
}

/// Where a game's own pack of presets would be: `<presets_dir>/games/<pack>`
/// for the pack the known-games data names.
pub open spec fn game_pack_dir_spec(
    known: Seq<KnownGameEntry>,
    gid: Seq<char>,
    presets_dir: Seq<char>,
) -> Option<Seq<char>> {
    match entry_for_game(known, gid) {
        Some(e) => match e.reshade_pack {
            Some(p) => Some(join_spec(join_spec(presets_dir, "games"@), p@)),
            None => None,
        },
        None => None,
    }
}

pub fn game_pack_dir(known: &Vec<KnownGameEntry>, game_id: &str, presets_dir: &str) -> (r: Option<
    String,
>)
    ensures
        opt_sv(r) == game_pack_dir_spec(known@, game_id@, presets_dir@),
{
    match entry_for_game_exec(known, game_id) {
        Some(e) => match &e.reshade_pack {
            Some(p) => {
                let g = crate::paths::join(presets_dir, "games");
                Some(crate::paths::join(g.as_str(), p.as_str()))
            },
            None => None,
        },
        None => None,
    }
}

/// A file named by a relative path inside a directory, when the path is
/// safe, stays inside, and the file exists.
pub open spec fn file_within_root(root: Seq<char>, rel: Seq<char>, existing: Seq<String>) -> Option<
    Seq<char>,
> {
    let p = join_spec(root, rel);
    if crate::paths::is_safe_relative(rel) && crate::safety::within_root(root, p) && any_eq(
        existing,
        p,
    ) {
        Some(p)
    } else {
        None
    }
}

fn file_within_root_exec(root: &str, rel: &str, existing: &Vec<String>) -> (r: Option<String>)
    ensures
        opt_sv(r) == file_within_root(root@, rel@, existing@),
{
    if !crate::paths::is_safe_relative_path(rel) {
        return None;
    }
    let p = crate::paths::join(root, rel);
    if !crate::safety::path_within_root(root, p.as_str()) {
        return None;
    }
    let pv = chars_of(p.as_str());
    if crate::known_games::list_has(existing, &pv) {
        Some(p)
    } else {
        None
    }
}

/// The INI of a preset in a game pack directory: the file its manifest
/// entry names, else `<id>.ini`; only for a safe id.
pub open spec fn pack_ini_spec(
    pack_dir: Seq<char>,
    preset_id: Seq<char>,
    manifest_ini: Option<Seq<char>>,
    existing: Seq<String>,
) -> Option<Seq<char>> {
    if !safe_pack_id(preset_id) {
        None
    } else {
        let from_manifest = match manifest_ini {
            Some(f) => file_within_root(pack_dir, f, existing),
            None => None,
        };
        if from_manifest is Some {
            from_manifest
        } else {
            file_within_root(pack_dir, preset_id + ".ini"@, existing)
        }
    }
}

/// Resolves a preset's INI in a game pack directory; `manifest_ini` is the
/// file the pack manifest lists for the id, `existing` the files present.
pub fn resolve_pack_ini(
    pack_dir: &str,
    preset_id: &str,
    manifest_ini: Option<&str>,
    existing: &Vec<String>,
) -> (r: Option<String>)
    ensures
        opt_sv(r) == pack_ini_spec(
            pack_dir@,
            preset_id@,
            match manifest_ini {
                Some(f) => Some(f@),
                None => None,
            },
            existing@,
        ),
{
    if !is_safe_pack_id(preset_id) {
        return None;
    }
    match manifest_ini {
        Some(f) => match file_within_root_exec(pack_dir, f, existing) {
            Some(p) => {
                return Some(p);
            },
            None => {},
        },
        None => {},
    }
    let mut name = chars_of(preset_id);
    crate::text::append_str(&mut name, ".ini");
    let ns = string_of(&name);
    file_within_root_exec(pack_dir, ns.as_str(), existing)
}

/// Where a preset's INI is for a game: in the game's own pack (`local`, what
/// `resolve_pack_ini` found there), else in the cached remote pack for it
/// (`remote`), else in the bundle.
pub fn preset_ini_path_for(
    bundle_dir: &str,
    preset_id: &str,
    game_id: Option<&str>,
    local: Option<String>,
    remote: Option<String>,
) -> (r: Result<String, String>)
    ensures
        game_id is Some && local is Some ==> r == Ok::<String, String>(local->0),
        game_id is Some && local is None && remote is Some ==> r == Ok::<String, String>(
            remote->0,
        ),
        (game_id is None || (local is None && remote is None)) ==> {
            &&& builtin_preset_ids().contains(preset_id@) ==> (r matches Ok(p) && p@ == join_spec(
                join_spec(join_spec(bundle_dir@, "presets"@), preset_id@),
                "ReShade.ini"@,
            ))
            &&& !builtin_preset_ids().contains(preset_id@) ==> (r matches Err(m) && m@
                == "Неизвестный пресет ReShade: "@ + preset_id@)
        },
{
    if game_id.is_some() {
        match local {
            Some(p) => {
                return Ok(p);
            },
            None => {},
        }
        match remote {
            Some(p) => {
                return Ok(p);
            },
            None => {},
        }
    }
    crate::reshade::presets::preset_ini_path(bundle_dir, preset_id)
}

/// Whether a preset is one of the game's author presets.
pub fn is_author_preset(preset_id: &str, game_id: Option<&str>, author_presets: &Vec<ReShadePresetInfo>) -> (r:
    bool)
    ensures
        r == (game_id is Some && ids_of(pinfo_views(author_presets@)).contains(preset_id@)),
{
    match game_id {
        None => false,
        Some(_) => has_id(author_presets, preset_id),
    }
}

/// Whether a preset exists for a game: an author preset or a built-in one.
pub fn preset_exists_for(preset_id: &str, game_id: Option<&str>, author_presets: &Vec<ReShadePresetInfo>) -> (r:
    bool)
    ensures
        r == ((game_id is Some && ids_of(pinfo_views(author_presets@)).contains(preset_id@))
            || builtin_preset_ids().contains(preset_id@)),
{
    if is_author_preset(preset_id, game_id, author_presets) {
        return true;
    }
    preset_exists(preset_id)
}

#[derive(Debug, Clone, PartialEq, Eq)]
pub enum PresetError {
    InvalidPresetId(String),
    UnknownPreset(String),
}

/// A preset request is refused for an unsafe id or an unknown preset.
pub fn check_preset_request(preset_id: &str, exists: bool) -> (r: Result<(), PresetError>)
    ensures
        !safe_pack_id(preset_id@) ==> (r matches Err(PresetError::InvalidPresetId(p)) && p@
            == preset_id@),
        safe_pack_id(preset_id@) && !exists ==> (r matches Err(PresetError::UnknownPreset(p)) && p@
            == preset_id@),
        safe_pack_id(preset_id@) && exists ==> r is Ok,
{
    if !is_safe_pack_id(preset_id) {
        return Err(PresetError::InvalidPresetId(crate::text::owned(preset_id)));
    }
    if !exists {
        return Err(PresetError::UnknownPreset(crate::text::owned(preset_id)));
    }
    Ok(())
}

/// The API suggested for a game: from the known-games data, else by
/// engine (UE5: dx12; UE4 and Unity: dx11).
pub open spec fn suggested_api_spec(
    known: Seq<KnownGameEntry>,
    gid: Seq<char>,
    family: Option<Seq<char>>,
) -> Option<Seq<char>> {
    let from_known = match entry_for_game(known, gid) {
        Some(e) => opt_sv(e.suggested_reshade_api),
        None => None,
    };
    if from_known is Some {
        from_known
    } else {
        match family {
            Some(f) => if f == "ue5"@ {
                Some("dx12"@)
            } else if f == "ue4"@ || f == "unity"@ {
                Some("dx11"@)
            } else {
                None
            },
            None => None,
        }
    }
}

pub fn suggested_reshade_api_for_game(
    known: &Vec<KnownGameEntry>,
    game_id: &str,
    engine_family: Option<&str>,
) -> (r: Option<String>)
    ensures
        opt_sv(r) == suggested_api_spec(known@, game_id@, opt_str(engine_family)),
{
    match entry_for_game_exec(known, game_id) {
        Some(e) => match &e.suggested_reshade_api {
            Some(a) => {
                return Some(crate::text::owned(a.as_str()));
            },
            None => {},
        },
        None => {},
    }
    match engine_family {
        Some(f) => {
            if crate::text::str_eq(f, "ue5") {
                Some(crate::text::owned("dx12"))
            } else if crate::text::str_eq(f, "ue4") || crate::text::str_eq(f, "unity") {
                Some(crate::text::owned("dx11"))
            } else {
                None
            }
        },
        None => None,
    }
}

} // verus!
