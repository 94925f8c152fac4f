//! Choosing among the cached packs, reporting the sync state, and deciding
//! when an automatic sync is due.
use vstd::prelude::*;
use crate::known_games::KnownGameEntry;
use crate::models::PresetInfo;
use crate::remote_presets::config::PresetServerConfig;
use crate::remote_presets::manifest::{
    entry_info, forza_profile_paths_spec, info_view, opt_str, pack_matches_spec, PackApply,
    PackPresetEntry, ResolvedPack,
};
use crate::known_games::any_eq;

verus! {

/// Minimum time between two automatic sync attempts, in milliseconds.
pub const SYNC_COOLDOWN_MS: u64 = 60000;

/// Id of the pack that carries the Forza presets.
pub fn forza_pack_id() -> (r: String)
    ensures
        r@ == "forza-fh6"@,
{
    crate::text::owned("forza-fh6")
}

/// Index of the first pack satisfying `p`, or -1.
pub open spec fn first_index(packs: Seq<ResolvedPack>, p: spec_fn(ResolvedPack) -> bool) -> int
    decreases packs.len(),
{
    if packs.len() == 0 {
        -1
    } else if p(packs[0]) {
        0
    } else {
        let r = first_index(packs.drop_first(), p);
        if r < 0 {
            -1
        } else {
            r + 1
        }
    }
}

/// The pack at the first index satisfying `p`, if any.
pub open spec fn first_pack(packs: Seq<ResolvedPack>, p: spec_fn(ResolvedPack) -> bool) -> Option<
    ResolvedPack,
> {
    let i = first_index(packs, p);
    if i < 0 {
        None
    } else {
        Some(packs[i])
    }
}

pub open spec fn matching(
    known: Seq<KnownGameEntry>,
    game_id: Option<Seq<char>>,
    family: Option<Seq<char>>,
    overlay: Option<Seq<char>>,
) -> spec_fn(ResolvedPack) -> bool {
    |p: ResolvedPack| pack_matches_spec(p.manifest.match_rules, known, game_id, family, overlay)
}

pub open spec fn is_unity(p: ResolvedPack) -> bool {
    p.manifest.apply is Unity
}

pub open spec fn is_reshade_ini(p: ResolvedPack) -> bool {
    p.manifest.apply is ReShadeIni
}

pub open spec fn is_catalog(p: ResolvedPack) -> bool {
    p.manifest.apply is Catalog
}

pub open spec fn opt_ref(r: Option<&ResolvedPack>) -> Option<ResolvedPack> {
    match r {
        Some(p) => Some(*p),
        None => None,
    }
}

/// Loop over the packs for the first one `test` accepts; `test` must agree
/// with `p`.
fn find_first<'a>(
    packs: &'a Vec<ResolvedPack>,
    Ghost(p): Ghost<spec_fn(ResolvedPack) -> bool>,
    known: &Vec<KnownGameEntry>,
    game_id: Option<&str>,
    engine_family: Option<&str>,
    overlay_id: Option<&str>,
    kind: u8,
) -> (r: Option<&'a ResolvedPack>)
    requires
        kind <= 3,
        forall|q: ResolvedPack|
            #![trigger p(q)]
            p(q) == match kind {
                0 => pack_matches_spec(
                    q.manifest.match_rules,
                    known@,
                    opt_str(game_id),
                    opt_str(engine_family),
                    opt_str(overlay_id),
                ),
                1 => is_unity(q),
                2 => is_reshade_ini(q) && pack_matches_spec(
                    q.manifest.match_rules,
                    known@,
                    opt_str(game_id),
                    opt_str(engine_family),
                    None,
                ),
                _ => is_catalog(q),
            },
    ensures
        opt_ref(r) == first_pack(packs@, p),
{
    let mut i: usize = 0;
    assert(packs@.skip(0) =~= packs@);
    while i < packs.len()
        invariant
            i <= packs.len(),
            kind <= 3,
            forall|q: ResolvedPack|
                #![trigger p(q)]
                p(q) == match kind {
                    0 => pack_matches_spec(
                        q.manifest.match_rules,
                        known@,
                        opt_str(game_id),
                        opt_str(engine_family),
                        opt_str(overlay_id),
                    ),
                    1 => is_unity(q),
                    2 => is_reshade_ini(q) && pack_matches_spec(
                        q.manifest.match_rules,
                        known@,
                        opt_str(game_id),
                        opt_str(engine_family),
                        None,
                    ),
                    _ => is_catalog(q),
                },
            first_index(packs@, p) == (if first_index(packs@.skip(i as int), p) < 0 {
                -1
            } else {
                first_index(packs@.skip(i as int), p) + i
            }),
        decreases packs.len() - i,
    {
        let ghost rest = packs@.skip(i as int);
        assert(rest[0] == packs@[i as int]);
        assert(rest.drop_first() =~= packs@.skip(i + 1));
        let pk = &packs[i];
        let ok = if kind == 0 {
            pk.matches(known, game_id, engine_family, overlay_id)
        } else if kind == 1 {
            match &pk.manifest.apply {
                PackApply::Unity { .. } => true,
                _ => false,
            }
        } else if kind == 2 {
            match &pk.manifest.apply {
                PackApply::ReShadeIni { .. } => pk.matches(known, game_id, engine_family, None),
                _ => false,
            }
        } else {
            match &pk.manifest.apply {
                PackApply::Catalog { .. } => true,
                _ => false,
            }
        };
        assert(ok == p(packs@[i as int]));
        if ok {
            return Some(pk);
        }
        i += 1;
    }
    assert(packs@.skip(i as int) =~= Seq::<ResolvedPack>::empty());
    None
}

/// The first cached pack whose rules accept the game.
pub fn find_pack_cached<'a>(
    packs: &'a Vec<ResolvedPack>,
    known: &Vec<KnownGameEntry>,
    game_id: Option<&str>,
    engine_family: Option<&str>,
    overlay_id: Option<&str>,
) -> (r: Option<&'a ResolvedPack>)
    ensures
        opt_ref(r) == first_pack(
            packs@,
            matching(known@, opt_str(game_id), opt_str(engine_family), opt_str(overlay_id)),
        ),
{
    let ghost p = matching(known@, opt_str(game_id), opt_str(engine_family), opt_str(overlay_id));
    find_first(packs, Ghost(p), known, game_id, engine_family, overlay_id, 0)
}

/// The first cached Unity pack.
pub fn find_unity_pack_cached<'a>(packs: &'a Vec<ResolvedPack>, known: &Vec<KnownGameEntry>) -> (r:
    Option<&'a ResolvedPack>)
    ensures
        opt_ref(r) == first_pack(packs@, |p: ResolvedPack| is_unity(p)),
{
    let ghost p = |p: ResolvedPack| is_unity(p);
    find_first(packs, Ghost(p), known, None, None, None, 1)
}

/// The first cached ReShade-preset pack whose rules accept the game.
pub fn find_reshade_ini_pack_cached<'a>(
    packs: &'a Vec<ResolvedPack>,
    known: &Vec<KnownGameEntry>,
    game_id: Option<&str>,
    engine_family: Option<&str>,
) -> (r: Option<&'a ResolvedPack>)
    ensures
        opt_ref(r) == first_pack(
            packs@,
            |p: ResolvedPack|
                is_reshade_ini(p) && pack_matches_spec(
                    p.manifest.match_rules,
                    known@,
                    opt_str(game_id),
                    opt_str(engine_family),
                    None,
                ),
        ),
{
    let ghost p = |p: ResolvedPack|
        is_reshade_ini(p) && pack_matches_spec(
            p.manifest.match_rules,
            known@,
            opt_str(game_id),
            opt_str(engine_family),
            None,
        );
    find_first(packs, Ghost(p), known, game_id, engine_family, None, 2)
}

/// Indices of the catalog packs, in order.
pub fn find_catalog_packs(packs: &Vec<ResolvedPack>) -> (r: Vec<usize>)
    ensures
        forall|k: int| 0 <= k < r@.len() ==> r@[k] < packs@.len() && is_catalog(packs@[r@[k] as int]),
        forall|k: int, l: int| 0 <= k < l < r@.len() ==> r@[k] < r@[l],
        forall|j: int|
            0 <= j < packs@.len() && is_catalog(#[trigger] packs@[j]) ==> exists|k: int|
                0 <= k < r@.len() && r@[k] == j,
{
    let mut out: Vec<usize> = Vec::new();
    let mut i: usize = 0;
    while i < packs.len()
        invariant
            i <= packs.len(),
            forall|k: int| 0 <= k < out@.len() ==> out@[k] < i && is_catalog(packs@[out@[k] as int]),
            forall|k: int, l: int| 0 <= k < l < out@.len() ==> out@[k] < out@[l],
            forall|j: int|
                0 <= j < i && is_catalog(#[trigger] packs@[j]) ==> exists|k: int|
                    0 <= k < out@.len() && out@[k] == j,
        decreases packs.len() - i,
    {
        let is_cat = match &packs[i].manifest.apply {
            PackApply::Catalog { .. } => true,
            _ => false,
        };
        let ghost before = out@;
        if is_cat {
            out.push(i);
        }
        proof {
            assert forall|j: int|
                0 <= j < i + 1 && is_catalog(#[trigger] packs@[j]) implies exists|k: int|
                    0 <= k < out@.len() && out@[k] == j by {
                if j < i {
                    let k = choose|k: int| 0 <= k < before.len() && before[k] == j;
                    assert(out@[k] == before[k]);
                } else {
                    assert(out@[out@.len() - 1] == j);
                }
            }
        }
        i += 1;
    }
    out
}

pub open spec fn infos_of(es: Seq<PackPresetEntry>) -> Seq<(Seq<char>, Seq<char>, Seq<char>)> {
    es.map_values(|e: PackPresetEntry| entry_info(e))
}

/// The Forza presets of the cached pack for the game (engine family
/// `forza`), when it is a Forza pack with presets.
pub open spec fn forza_presets_spec(
    packs: Seq<ResolvedPack>,
    known: Seq<KnownGameEntry>,
    game_id: Option<Seq<char>>,
) -> Option<Seq<(Seq<char>, Seq<char>, Seq<char>)>> {
    match first_pack(packs, matching(known, game_id, Some("forza"@), None)) {
        Some(p) => if p.manifest.apply is Forza && p.manifest.presets@.len() > 0 {
            Some(infos_of(p.manifest.presets@))
        } else {
            None
        },
        None => None,
    }
}

pub open spec fn infos_view(v: Seq<PresetInfo>) -> Seq<(Seq<char>, Seq<char>, Seq<char>)> {
    v.map_values(|p: PresetInfo| info_view(p))
}

pub fn forza_presets_from_cache(
    packs: &Vec<ResolvedPack>,
    known: &Vec<KnownGameEntry>,
    game_id: Option<&str>,
) -> (r: Option<Vec<PresetInfo>>)
    ensures
        match forza_presets_spec(packs@, known@, opt_str(game_id)) {
            Some(v) => r matches Some(x) && infos_view(x@) == v,
            None => r is None,
        },
{
    proof {
        reveal_strlit("forza");
    }
    let fam = "forza";
    let pack = match find_pack_cached(packs, known, game_id, Some(fam), None) {
        Some(p) => p,
        None => {
            return None;
        },
    };
    assert(opt_str(Some(fam)) == Some("forza"@));
    match &pack.manifest.apply {
        PackApply::Forza { .. } => {},
        _ => {
            return None;
        },
    }
    if pack.manifest.presets.len() == 0 {
        return None;
    }
    let infos = pack.manifest.presets_info();
    assert(infos_view(infos@) =~= infos_of(pack.manifest.presets@));
    Some(infos)
}

/// Whether some Forza preset of a pack has its patch file among `existing`.
pub open spec fn forza_ready_spec(p: ResolvedPack, existing: Seq<String>) -> bool {
    p.manifest.apply is Forza && exists|i: int|
        0 <= i < p.manifest.presets@.len() && (#[trigger] p.manifest.presets@[i]) is Forza && (
        match forza_profile_paths_spec(p.manifest, p.root@, p.manifest.presets@[i]->Forza_0.id@) {
            Some((d, f)) => any_eq(existing, f),
            None => false,
        })
}

/// Whether the cached Forza pack for the game has a usable profile, given
/// which files exist.
pub fn forza_pack_ready(
    packs: &Vec<ResolvedPack>,
    known: &Vec<KnownGameEntry>,
    game_id: Option<&str>,
    existing_files: &Vec<String>,
) -> (r: bool)
    ensures
        r == match first_pack(packs@, matching(known@, opt_str(game_id), Some("forza"@), None)) {
            Some(p) => forza_ready_spec(p, existing_files@),
            None => false,
        },
{
    proof {
        reveal_strlit("forza");
    }
    let fam = "forza";
    assert(opt_str(Some(fam)) == Some("forza"@));
    match find_pack_cached(packs, known, game_id, Some(fam), None) {
        Some(p) => p.forza_pack_has_profiles(existing_files),
        None => false,
    }
}

/// What fetching the Forza pack comes to.
#[derive(Debug, Clone, Copy, PartialEq, Eq)]
pub enum ForzaSync {
    /// A usable Forza pack is cached already.
    Ready,
    /// Sync the pack named by `forza_pack_id`.
    Fetch,
    /// No server is configured, so the presets cannot be loaded.
    Unavailable,
}

/// Decides whether the Forza pack has to be synced.
pub fn plan_forza_sync(
    packs: &Vec<ResolvedPack>,
    known: &Vec<KnownGameEntry>,
    existing_files: &Vec<String>,
    server_configured: bool,
) -> (r: ForzaSync)
    ensures
        ({
            let ready = match first_pack(packs@, matching(known@, None, Some("forza"@), None)) {
                Some(p) => forza_ready_spec(p, existing_files@),
                None => false,
            };
            r == if ready {
                ForzaSync::Ready
            } else if !server_configured {
                ForzaSync::Unavailable
            } else {
                ForzaSync::Fetch
            }
        }),
{
    if forza_pack_ready(packs, known, None, existing_files) {
        ForzaSync::Ready
    } else if !server_configured {
        ForzaSync::Unavailable
    } else {
        ForzaSync::Fetch
    }
}

/// What the settings screen shows of preset syncing.
#[derive(Debug, Clone)]
pub struct RemotePresetStatus {
    pub configured: bool,
    pub base_url: Option<String>,
    pub auto_sync: bool,
    pub last_sync_at: Option<String>,
    pub last_sync_ok: bool,
    pub last_sync_error: Option<String>,
    pub catalog_version: Option<String>,
    pub cached_packs: Vec<String>,
}

/// The status from the configuration, the server in effect and the cached
/// pack ids.
pub fn get_status(
    cfg: PresetServerConfig,
    base_url: Option<String>,
    cached_packs: Vec<String>,
) -> (r: RemotePresetStatus)
    ensures
        r.configured == base_url is Some,
        r.base_url == base_url,
        r.auto_sync == cfg.auto_sync,
        r.last_sync_at == cfg.last_sync_at,
        r.last_sync_ok == cfg.last_sync_ok,
        r.last_sync_error == cfg.last_sync_error,
        r.catalog_version == cfg.catalog_version,
        r.cached_packs@ == cached_packs@,
{
    RemotePresetStatus {
        configured: base_url.is_some(),
        base_url,
        auto_sync: cfg.auto_sync,
        last_sync_at: cfg.last_sync_at,
        last_sync_ok: cfg.last_sync_ok,
        last_sync_error: cfg.last_sync_error,
        catalog_version: cfg.catalog_version,
        cached_packs,
    }
}

/// An automatic sync runs only in the foreground, with a server and
/// automatic sync configured, and at least the cooldown after the previous
/// attempt (`None` when there was none).
pub fn should_auto_sync(
    in_background: bool,
    server_configured: bool,
    cfg: Option<&PresetServerConfig>,
    ms_since_last_attempt: Option<u64>,
) -> (r: bool)
    ensures
        r == (!in_background && server_configured && cfg is Some && cfg->0.auto_sync && match ms_since_last_attempt {
            Some(ms) => ms >= SYNC_COOLDOWN_MS,
            None => true,
        }),
{
    if in_background || !server_configured {
        return false;
    }
    match cfg {
        Some(c) => {
            if !c.auto_sync {
                return false;
            }
        },
        None => {
            return false;
        },
    }
    match ms_since_last_attempt {
        Some(ms) => ms >= SYNC_COOLDOWN_MS,
        None => true,
    }
}


/// One automatic-sync check as a state step: whether to attempt a sync at
/// `now`, and the time of the last attempt afterwards (milliseconds on a
/// monotonic clock; `None` before any attempt). An attempt needs the
/// foreground, a server, automatic sync on, and the cooldown passed since
/// the last attempt; it records `now`.
pub open spec fn auto_sync_spec(
    in_background: bool,
    server_configured: bool,
    cfg: Option<PresetServerConfig>,
    last_attempt: Option<u64>,
    now: u64,
) -> (bool, Option<u64>) {
    let attempt = !in_background && server_configured && cfg is Some && cfg->0.auto_sync
        && match last_attempt {
        Some(t) => now >= t && now - t >= SYNC_COOLDOWN_MS,
        None => true,
    };
    (attempt, if attempt { Some(now) } else { last_attempt })
}

pub fn auto_sync_step(
    in_background: bool,
    server_configured: bool,
    cfg: Option<&PresetServerConfig>,
    last_attempt: Option<u64>,
    now: u64,
) -> (r: (bool, Option<u64>))
    ensures
        r == auto_sync_spec(
            in_background,
            server_configured,
            match cfg {
                Some(c) => Some(*c),
                None => None,
            },
            last_attempt,
            now,
        ),
{
    let elapsed = match last_attempt {
        Some(t) => if now >= t {
            Some(now - t)
        } else {
            Some(0)
        },
        None => None,
    };
    let attempt = should_auto_sync(in_background, server_configured, cfg, elapsed);
    if attempt {
        (true, Some(now))
    } else {
        (false, last_attempt)
    }
}

/// Law: at most one automatic sync per cooldown. After a check that
/// attempted a sync at `t0`, no check before `t0` plus the cooldown
/// attempts one, whatever else holds then.
pub proof fn auto_sync_at_most_once_per_cooldown(
    bg: bool,
    server: bool,
    cfg: Option<PresetServerConfig>,
    last: Option<u64>,
    t0: u64,
    bg2: bool,
    server2: bool,
    cfg2: Option<PresetServerConfig>,
    now: u64,
)
    requires
        auto_sync_spec(bg, server, cfg, last, t0).0,
        now < t0 + SYNC_COOLDOWN_MS,
    ensures
        auto_sync_spec(bg, server, cfg, last, t0).1 == Some(t0),
        !auto_sync_spec(bg2, server2, cfg2, Some(t0), now).0,
        auto_sync_spec(bg2, server2, cfg2, Some(t0), now).1 == Some(t0),
{
}

} // verus!
