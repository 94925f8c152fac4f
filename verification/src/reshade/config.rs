//! ReShade settings: the global switch, the default preset, and per-game
//! choices of API, preset and overrides.
use vstd::prelude::*;
use crate::models::GpuCapabilities;
use crate::reshade::api::{parse_api, GraphicsApi};
use crate::reshade::gpu_adapt::{adapt_preset_with_gpu, adapted_preset, weak_gpu_lower};
use crate::text::lowercase_of;
use crate::reshade::ini_edit::{
    byte_len, overrides_error, validate_preset_overrides, OverridesError, PresetOverrides,
};
use crate::reshade::presets::{builtin_preset_ids, preset_exists};
use crate::safety::{is_safe_pack_id, safe_pack_id};
use crate::profiles::{known_game_ok, known_game_result};

verus! {

pub const MAX_SETTINGS_JSON_BYTES: usize = 262144;

pub const MAX_PER_GAME_ENTRIES: usize = 256;

pub const MAX_GAME_ID_LEN: usize = 128;

#[derive(Debug, Clone)]
pub struct ReShadePerGameSettings {
    pub enabled: bool,
    pub api: Option<String>,
    pub api_remembered: bool,
    pub preset: Option<String>,
    pub preset_overrides: Option<PresetOverrides>,
}

/// Settings of all games; `per_game` maps a game id to its settings (the
/// first entry for an id is the one that counts).
#[derive(Debug, Clone)]
pub struct ReShadeSettings {
    pub global_enabled: bool,
    pub default_preset: String,
    pub warnings_acknowledged: bool,
    pub install_warning_acknowledged: bool,
    pub launch_warning_acknowledged: bool,
    pub per_game: Vec<(String, ReShadePerGameSettings)>,
}

/// Why settings were refused.
#[derive(Debug, Clone, PartialEq, Eq)]
pub enum SettingsError {
    TooManyEntries(usize),
    InvalidDefaultPreset(String),
    GameIdTooLong(usize),
    InvalidPreset(String, String),
    InvalidApi(String, String),
    TooLarge(usize),
    Game(crate::profiles::ProfileError),
    /// Two entries for one game (the settings hold one per game).
    DuplicateGame(String),
    Overrides(OverridesError),
}

/// Index of the first entry for `gid`, or -1.
pub open spec fn entry_index(pg: Seq<(String, ReShadePerGameSettings)>, gid: Seq<char>) -> int
    decreases pg.len(),
{
    if pg.len() == 0 {
        -1
    } else if pg[0].0@ == gid {
        0
    } else {
        let r = entry_index(pg.drop_first(), gid);
        if r < 0 {
            -1
        } else {
            r + 1
        }
    }
}

pub proof fn lemma_entry_index(pg: Seq<(String, ReShadePerGameSettings)>, gid: Seq<char>)
    ensures
        -1 <= entry_index(pg, gid) < pg.len(),
        entry_index(pg, gid) >= 0 ==> pg[entry_index(pg, gid)].0@ == gid,
        forall|j: int|
            0 <= j < pg.len() && (entry_index(pg, gid) < 0 || j < entry_index(pg, gid)) ==> (
            #[trigger] pg[j]).0@ != gid,
    decreases pg.len(),
{
    if pg.len() > 0 && pg[0].0@ != gid {
        lemma_entry_index(pg.drop_first(), gid);
        assert forall|j: int|
            0 <= j < pg.len() && (entry_index(pg, gid) < 0 || j < entry_index(pg, gid)) implies (
            #[trigger] pg[j]).0@ != gid by {
            if j > 0 {
                assert(pg.drop_first()[j - 1] == pg[j]);
            }
        }
    }
}

/// The settings of a game, if it has an entry.
pub open spec fn game_entry(pg: Seq<(String, ReShadePerGameSettings)>, gid: Seq<char>) -> Option<
    ReShadePerGameSettings,
> {
    let i = entry_index(pg, gid);
    if i < 0 {
        None
    } else {
        Some(pg[i].1)
    }
}

/// No game id occurs twice.
pub open spec fn keys_distinct(pg: Seq<(String, ReShadePerGameSettings)>) -> bool {
    forall|i: int, j: int| 0 <= i < j < pg.len() ==> (#[trigger] pg[i]).0@ != (#[trigger] pg[j]).0@
}

/// A new entry for a game that has none.
pub open spec fn fresh_entry(s: ReShadePerGameSettings) -> bool {
    s.enabled && s.api is None && !s.api_remembered && s.preset is None && s.preset_overrides is None
}

pub fn new_per_game() -> (r: ReShadePerGameSettings)
    ensures
        fresh_entry(r),
{
    ReShadePerGameSettings {
        enabled: true,
        api: None,
        api_remembered: false,
        preset: None,
        preset_overrides: None,
    }
}

impl Default for ReShadeSettings {
    /// ReShade off, preset `clarity`, nothing acknowledged, no games.
    fn default() -> (r: Self)
        ensures
            !r.global_enabled,
            r.default_preset@ == "clarity"@,
            !r.warnings_acknowledged,
            !r.install_warning_acknowledged,
            !r.launch_warning_acknowledged,
            r.per_game@.len() == 0,
            settings_error(r) is None,
    {
        let r = ReShadeSettings {
            global_enabled: false,
            default_preset: crate::text::owned("clarity"),
            warnings_acknowledged: false,
            install_warning_acknowledged: false,
            launch_warning_acknowledged: false,
            per_game: Vec::new(),
        };
        assert(builtin_preset_ids()[1] == "clarity"@);
        assert(entries_error(r.per_game@) is None);
        r
    }
}

impl ReShadeSettings {
    /// The settings of a game (the first entry for its id).
    pub fn game(&self, game_id: &str) -> (r: Option<&ReShadePerGameSettings>)
        ensures
            match game_entry(self.per_game@, game_id@) {
                Some(s) => r matches Some(x) && *x == s,
                None => r is None,
            },
    {
        match self.game_index(game_id) {
            Some(i) => Some(&self.per_game[i].1),
            None => None,
        }
    }

    fn game_index(&self, game_id: &str) -> (r: Option<usize>)
        ensures
            match r {
                Some(i) => i < self.per_game@.len() && entry_index(self.per_game@, game_id@) == i,
                None => entry_index(self.per_game@, game_id@) == -1,
            },
    {
        let pg = &self.per_game;
        let mut i: usize = 0;
        assert(pg@.skip(0) =~= pg@);
        while i < pg.len()
            invariant
                i <= pg.len(),
                pg == &self.per_game,
                entry_index(pg@, game_id@) == (if entry_index(pg@.skip(i as int), game_id@) < 0 {
                    -1
                } else {
                    entry_index(pg@.skip(i as int), game_id@) + i
                }),
            decreases pg.len() - i,
        {
            let ghost rest = pg@.skip(i as int);
            assert(rest[0] == pg@[i as int]);
            assert(rest.drop_first() =~= pg@.skip(i + 1));
            if crate::text::str_eq(pg[i].0.as_str(), game_id) {
                return Some(i);
            }
            i += 1;
        }
        assert(pg@.skip(i as int) =~= Seq::<(String, ReShadePerGameSettings)>::empty());
        None
    }

    /// Sets the settings of a game: its entry is replaced, or one is added
    /// at the end.
    pub fn set_game(&mut self, game_id: &str, s: ReShadePerGameSettings)
        ensures
            game_entry(final(self).per_game@, game_id@) == Some(s),
            forall|g: Seq<char>|
                g != game_id@ ==> game_entry(final(self).per_game@, g) == game_entry(
                    old(self).per_game@,
                    g,
                ),
            keys_distinct(old(self).per_game@) ==> keys_distinct(final(self).per_game@),
            entry_index(old(self).per_game@, game_id@) >= 0 ==> final(self).per_game@ == old(
                self,
            ).per_game@.update(
                entry_index(old(self).per_game@, game_id@),
                (old(self).per_game@[entry_index(old(self).per_game@, game_id@)].0, s),
            ),
            entry_index(old(self).per_game@, game_id@) < 0 ==> (final(self).per_game@.len()
                == old(self).per_game@.len() + 1 && final(self).per_game@.take(
                old(self).per_game@.len() as int,
            ) == old(self).per_game@ && final(self).per_game@.last().0@ == game_id@
                && final(self).per_game@.last().1 == s),
            final(self).global_enabled == old(self).global_enabled,
            final(self).default_preset == old(self).default_preset,
            final(self).warnings_acknowledged == old(self).warnings_acknowledged,
            final(self).install_warning_acknowledged == old(self).install_warning_acknowledged,
            final(self).launch_warning_acknowledged == old(self).launch_warning_acknowledged,
            final(self).per_game@.len() == old(self).per_game@.len() + (if game_entry(
                old(self).per_game@,
                game_id@,
            ) is Some {
                0int
            } else {
                1int
            }),
    {
        let ghost old_pg = self.per_game@;
        proof {
            lemma_entry_index(old_pg, game_id@);
        }
        match self.game_index(game_id) {
            Some(i) => {
                let key = self.per_game[i].0.clone();
                self.per_game.set(i, (key, s));
                proof {
                    let pg = self.per_game@;
                    assert(pg =~= old_pg.update(i as int, (old_pg[i as int].0, s)));
                    lemma_entry_index(pg, game_id@);
                    assert(entry_index(pg, game_id@) == i) by {
                        lemma_entry_index_of(pg, game_id@, i as int);
                    }
                    assert forall|g: Seq<char>| g != game_id@ implies game_entry(pg, g)
                        == game_entry(old_pg, g) by {
                        lemma_entry_index(pg, g);
                        lemma_entry_index(old_pg, g);
                        let a = entry_index(pg, g);
                        let b = entry_index(old_pg, g);
                        if a >= 0 {
                            assert(a != i);
                            assert forall|j: int| 0 <= j < a implies (#[trigger] old_pg[j]).0@ != g by {
                                assert(pg[j].0 == old_pg[j].0);
                            }
                            lemma_entry_index_of(old_pg, g, a);
                        } else if b >= 0 {
                            assert(b != i);
                            assert(pg[b].0@ == g);
                        }
                    }
                }
            },
            None => {
                let key = crate::text::owned(game_id);
                self.per_game.push((key, s));
                proof {
                    let pg = self.per_game@;
                    lemma_entry_index(pg, game_id@);
                    assert(pg[old_pg.len() as int].0@ == game_id@);
                    lemma_entry_index_of(pg, game_id@, old_pg.len() as int);
                    assert forall|g: Seq<char>| g != game_id@ implies game_entry(pg, g)
                        == game_entry(old_pg, g) by {
                        lemma_entry_index(pg, g);
                        lemma_entry_index(old_pg, g);
                        let a = entry_index(pg, g);
                        let b = entry_index(old_pg, g);
                        if a >= 0 {
                            assert(a != old_pg.len());
                            assert(pg[a] == old_pg[a]);
                            assert forall|j: int| 0 <= j < a implies (#[trigger] old_pg[j]).0@ != g by {
                                assert(pg[j] == old_pg[j]);
                            }
                            lemma_entry_index_of(old_pg, g, a);
                        } else if b >= 0 {
                            assert(pg[b] == old_pg[b]);
                        }
                    }
                }
            },
        }
    }
}

/// When the entry at `i` is the first with its id, `entry_index` finds it.
pub proof fn lemma_entry_index_of(pg: Seq<(String, ReShadePerGameSettings)>, gid: Seq<char>, i: int)
    requires
        0 <= i < pg.len(),
        pg[i].0@ == gid,
        forall|j: int| 0 <= j < i ==> (#[trigger] pg[j]).0@ != gid,
    ensures
        entry_index(pg, gid) == i,
    decreases pg.len(),
{
    if i > 0 {
        assert forall|j: int| 0 <= j < i - 1 implies (#[trigger] pg.drop_first()[j]).0@ != gid by {
            assert(pg.drop_first()[j] == pg[j + 1]);
        }
        lemma_entry_index_of(pg.drop_first(), gid, i - 1);
    }
}

/// The first refused part of one game's settings.
pub open spec fn entry_error(gid: String, s: ReShadePerGameSettings) -> Option<SettingsError> {
    if byte_len(gid@) > MAX_GAME_ID_LEN {
        Some(SettingsError::GameIdTooLong(byte_len(gid@)))
    } else if s.preset is Some && !safe_pack_id(s.preset->0@) {
        Some(SettingsError::InvalidPreset(gid, s.preset->0))
    } else if s.api is Some && parse_api(s.api->0@) is None {
        Some(SettingsError::InvalidApi(gid, s.api->0))
    } else {
        None
    }
}

pub open spec fn entries_error(pg: Seq<(String, ReShadePerGameSettings)>) -> Option<SettingsError>
    decreases pg.len(),
{
    if pg.len() == 0 {
        None
    } else {
        match entry_error(pg[0].0, pg[0].1) {
            Some(e) => Some(e),
            None => entries_error(pg.drop_first()),
        }
    }
}

/// The first game listed twice (by its later entry), if any.
pub open spec fn duplicate_error(pg: Seq<(String, ReShadePerGameSettings)>) -> Option<SettingsError>
    decreases pg.len(),
{
    if pg.len() == 0 {
        None
    } else {
        match duplicate_error(pg.drop_last()) {
            Some(e) => Some(e),
            None => if exists|i: int| 0 <= i < pg.len() - 1 && (#[trigger] pg[i]).0@ == pg.last().0@ {
                Some(SettingsError::DuplicateGame(pg.last().0))
            } else {
                None
            },
        }
    }
}

/// The error `validate_settings` reports, if any: too many games, an
/// unknown default preset, the first game with a too long id, an unsafe
/// preset id or an unknown API, then a game listed twice (the settings hold
/// one entry per game).
pub open spec fn settings_error(cfg: ReShadeSettings) -> Option<SettingsError> {
    if cfg.per_game@.len() > MAX_PER_GAME_ENTRIES {
        Some(SettingsError::TooManyEntries(cfg.per_game@.len() as usize))
    } else if !builtin_preset_ids().contains(cfg.default_preset@) {
        Some(SettingsError::InvalidDefaultPreset(cfg.default_preset))
    } else if entries_error(cfg.per_game@) is Some {
        entries_error(cfg.per_game@)
    } else {
        duplicate_error(cfg.per_game@)
    }
}

/// Checks settings before they are used or saved.
pub fn validate_settings(cfg: &ReShadeSettings) -> (r: Result<(), SettingsError>)
    ensures
        match settings_error(*cfg) {
            None => r is Ok,
            Some(e) => r == Err::<(), SettingsError>(e),
        },
{
    if cfg.per_game.len() > MAX_PER_GAME_ENTRIES {
        return Err(SettingsError::TooManyEntries(cfg.per_game.len()));
    }
    if !preset_exists(cfg.default_preset.as_str()) {
        return Err(SettingsError::InvalidDefaultPreset(cfg.default_preset.clone()));
    }
    let pg = &cfg.per_game;
    let mut i: usize = 0;
    assert(pg@.skip(0) =~= pg@);
    while i < pg.len()
        invariant
            i <= pg.len(),
            pg == &cfg.per_game,
            entries_error(cfg.per_game@) == entries_error(pg@.skip(i as int)),
            settings_error(*cfg) == (if entries_error(cfg.per_game@) is Some {
                entries_error(cfg.per_game@)
            } else {
                duplicate_error(cfg.per_game@)
            }),
        decreases pg.len() - i,
    {
        let ghost rest = pg@.skip(i as int);
        assert(rest[0] == pg@[i as int]);
        assert(rest.drop_first() =~= pg@.skip(i + 1));
        let gid = &pg[i].0;
        let s = &pg[i].1;
        if gid.as_str().len() > MAX_GAME_ID_LEN {
            return Err(SettingsError::GameIdTooLong(gid.as_str().len()));
        }
        match &s.preset {
            Some(p) => {
                if !is_safe_pack_id(p.as_str()) {
                    return Err(SettingsError::InvalidPreset(gid.clone(), p.clone()));
                }
            },
            None => {},
        }
        match &s.api {
            Some(a) => {
                if GraphicsApi::from_str_id(a.as_str()).is_err() {
                    return Err(SettingsError::InvalidApi(gid.clone(), a.clone()));
                }
            },
            None => {},
        }
        i += 1;
    }
    assert(pg@.skip(i as int) =~= Seq::<(String, ReShadePerGameSettings)>::empty());
    match duplicate_check(pg) {
        Some(e) => Err(e),
        None => Ok(()),
    }
}

/// The first game listed twice (see `duplicate_error`).
fn duplicate_check(pg: &Vec<(String, ReShadePerGameSettings)>) -> (r: Option<SettingsError>)
    ensures
        r == duplicate_error(pg@),
{
    let mut j: usize = 0;
    assert(pg@.take(0) =~= Seq::<(String, ReShadePerGameSettings)>::empty());
    while j < pg.len()
        invariant
            j <= pg.len(),
            duplicate_error(pg@.take(j as int)) is None,
        decreases pg.len() - j,
    {
        let ghost t1 = pg@.take(j + 1);
        assert(t1.drop_last() =~= pg@.take(j as int));
        assert(t1.last() == pg@[j as int]);
        let mut i: usize = 0;
        while i < j
            invariant
                i <= j < pg.len(),
                t1 == pg@.take(j + 1),
                duplicate_error(pg@.take(j as int)) is None,
                forall|k: int| 0 <= k < i ==> (#[trigger] pg@[k]).0@ != pg@[j as int].0@,
            decreases j - i,
        {
            if crate::text::str_eq(pg[i].0.as_str(), pg[j].0.as_str()) {
                let e = SettingsError::DuplicateGame(pg[j].0.clone());
                proof {
                    assert(t1.drop_last() =~= pg@.take(j as int));
                    assert(t1[i as int] == pg@[i as int]);
                    assert(t1.last() == pg@[j as int]);
                    assert(duplicate_error(t1) == Some(e));
                    lemma_duplicate_prefix(pg@, j + 1);
                }
                return Some(e);
            }
            i += 1;
        }
        proof {
            assert forall|k: int| 0 <= k < t1.len() - 1 implies (#[trigger] t1[k]).0@ != t1.last().0@ by {
                assert(t1[k] == pg@[k]);
            }
        }
        j += 1;
    }
    assert(pg@.take(j as int) =~= pg@);
    None
}

/// A duplicate found in a prefix is the one reported for the whole list.
proof fn lemma_duplicate_prefix(pg: Seq<(String, ReShadePerGameSettings)>, k: int)
    requires
        0 <= k <= pg.len(),
        duplicate_error(pg.take(k)) is Some,
    ensures
        duplicate_error(pg) == duplicate_error(pg.take(k)),
    decreases pg.len() - k,
{
    if k == pg.len() {
        assert(pg.take(k) =~= pg);
    } else {
        assert(pg.drop_last().take(k) =~= pg.take(k));
        lemma_duplicate_prefix(pg.drop_last(), k);
    }
}

/// Entry errors are never about a duplicate.
proof fn lemma_entries_error_kind(pg: Seq<(String, ReShadePerGameSettings)>)
    ensures
        entries_error(pg) matches Some(e) ==> !(e is DuplicateGame),
    decreases pg.len(),
{
    if pg.len() > 0 {
        lemma_entries_error_kind(pg.drop_first());
    }
}

/// No duplicate is reported exactly when the ids are distinct; what is
/// reported is a duplicate.
proof fn lemma_duplicate_error(pg: Seq<(String, ReShadePerGameSettings)>)
    ensures
        duplicate_error(pg) is None <==> keys_distinct(pg),
        duplicate_error(pg) matches Some(e) ==> e is DuplicateGame,
    decreases pg.len(),
{
    if pg.len() > 0 {
        let init = pg.drop_last();
        lemma_duplicate_error(init);
        if keys_distinct(pg) {
            assert forall|a: int, b: int| 0 <= a < b < init.len() implies (#[trigger] init[a]).0@
                != (#[trigger] init[b]).0@ by {
                assert(init[a] == pg[a] && init[b] == pg[b]);
            }
            if exists|i: int| 0 <= i < pg.len() - 1 && (#[trigger] pg[i]).0@ == pg.last().0@ {
                let i = choose|i: int| 0 <= i < pg.len() - 1 && (#[trigger] pg[i]).0@ == pg.last().0@;
                assert(pg[i].0@ != pg[pg.len() - 1].0@);
            }
        } else {
            let (a, b) = choose|a: int, b: int|
                0 <= a < b < pg.len() && (#[trigger] pg[a]).0@ == (#[trigger] pg[b]).0@;
            if b < pg.len() - 1 {
                assert(init[a] == pg[a] && init[b] == pg[b]);
                assert(!keys_distinct(init));
            } else {
                assert(pg[a].0@ == pg.last().0@);
            }
        }
    }
}

/// A settings file larger than the limit is refused.
pub fn check_settings_size(len: usize) -> (r: Result<(), SettingsError>)
    ensures
        r is Ok <==> len <= MAX_SETTINGS_JSON_BYTES,
        r is Err ==> r == Err::<(), SettingsError>(SettingsError::TooLarge(len)),
{
    if len > MAX_SETTINGS_JSON_BYTES {
        Err(SettingsError::TooLarge(len))
    } else {
        Ok(())
    }
}

/// The preset asked for: the explicit one, else the game's, else the
/// default.
pub open spec fn requested_preset(
    cfg: ReShadeSettings,
    game_id: Seq<char>,
    explicit: Option<Seq<char>>,
) -> Seq<char> {
    match explicit {
        Some(p) => p,
        None => match game_entry(cfg.per_game@, game_id) {
            Some(s) if s.preset is Some => s.preset->0@,
            _ => cfg.default_preset@,
        },
    }
}

/// The preset to install for a game, adapted to the GPU.
pub fn install_preset_for_game(
    cfg: &ReShadeSettings,
    game_id: &str,
    preset_id: Option<&str>,
    gpu: &GpuCapabilities,
) -> (r: String)
    ensures
        r@ == adapted_preset(
            weak_gpu_lower(gpu.vendor, lowercase_of(gpu.name@)),
            requested_preset(
                *cfg,
                game_id@,
                match preset_id {
                    Some(p) => Some(p@),
                    None => None,
                },
            ),
        ),
{
    let requested: String = match preset_id {
        Some(p) => crate::text::owned(p),
        None => match cfg.game(game_id) {
            Some(g) => match &g.preset {
                Some(p) => crate::text::owned(p.as_str()),
                None => crate::text::owned(cfg.default_preset.as_str()),
            },
            None => crate::text::owned(cfg.default_preset.as_str()),
        },
    };
    adapt_preset_with_gpu(requested.as_str(), gpu).preset_id
}

/// The preset a game gets when none is asked for.
pub fn effective_preset_for_game(cfg: &ReShadeSettings, game_id: &str, gpu: &GpuCapabilities) -> (r:
    String)
    ensures
        r@ == adapted_preset(
            weak_gpu_lower(gpu.vendor, lowercase_of(gpu.name@)),
            requested_preset(*cfg, game_id@, None),
        ),
{
    install_preset_for_game(cfg, game_id, None, gpu)
}

/// The preset overrides saved for a game.
pub fn preset_overrides_for_game<'a>(cfg: &'a ReShadeSettings, game_id: &str) -> (r: Option<
    &'a PresetOverrides,
>)
    ensures
        match game_entry(cfg.per_game@, game_id@) {
            Some(s) => match s.preset_overrides {
                Some(o) => r matches Some(x) && *x == o,
                None => r is None,
            },
            None => r is None,
        },
{
    match cfg.game(game_id) {
        Some(g) => match &g.preset_overrides {
            Some(o) => Some(o),
            None => None,
        },
        None => None,
    }
}

/// The number of games once one more is added (saturating).
pub open spec fn count_after_adding(n: nat) -> usize {
    if n < usize::MAX {
        (n + 1) as usize
    } else {
        usize::MAX
    }
}

/// What validating the settings reports once `gid` has an entry: as now
/// when it has one; otherwise with a fresh entry for it at the end.
pub open spec fn error_after_adding(cfg: ReShadeSettings, gid: Seq<char>) -> Option<SettingsError> {
    if game_entry(cfg.per_game@, gid) is Some {
        settings_error(cfg)
    } else if cfg.per_game@.len() + 1 > MAX_PER_GAME_ENTRIES {
        Some(SettingsError::TooManyEntries(count_after_adding(cfg.per_game@.len())))
    } else if !builtin_preset_ids().contains(cfg.default_preset@) {
        Some(SettingsError::InvalidDefaultPreset(cfg.default_preset))
    } else if entries_error(cfg.per_game@) is Some {
        entries_error(cfg.per_game@)
    } else if byte_len(gid) > MAX_GAME_ID_LEN {
        Some(SettingsError::GameIdTooLong(byte_len(gid)))
    } else {
        duplicate_error(cfg.per_game@)
    }
}

/// Errors of two game lists agree when each entry's errors agree.
proof fn lemma_entries_error_pointwise(
    a: Seq<(String, ReShadePerGameSettings)>,
    b: Seq<(String, ReShadePerGameSettings)>,
)
    requires
        a.len() == b.len(),
        forall|i: int|
            0 <= i < a.len() ==> entry_error((#[trigger] a[i]).0, a[i].1) == entry_error(
                b[i].0,
                b[i].1,
            ),
    ensures
        entries_error(a) == entries_error(b),
    decreases a.len(),
{
    if a.len() > 0 {
        assert(entry_error(a[0].0, a[0].1) == entry_error(b[0].0, b[0].1));
        assert forall|i: int| 0 <= i < a.drop_first().len() implies entry_error(
            (#[trigger] a.drop_first()[i]).0,
            a.drop_first()[i].1,
        ) == entry_error(b.drop_first()[i].0, b.drop_first()[i].1) by {
            assert(a.drop_first()[i] == a[i + 1]);
            assert(b.drop_first()[i] == b[i + 1]);
        }
        lemma_entries_error_pointwise(a.drop_first(), b.drop_first());
    }
}

/// Appending a game: its errors come after those of the earlier games.
proof fn lemma_entries_error_push(a: Seq<(String, ReShadePerGameSettings)>, x: (String, ReShadePerGameSettings))
    ensures
        entries_error(a.push(x)) == match entries_error(a) {
            Some(e) => Some(e),
            None => entry_error(x.0, x.1),
        },
    decreases a.len(),
{
    let e: Seq<(String, ReShadePerGameSettings)> = Seq::empty();
    assert(entries_error(e) is None);
    if a.len() == 0 {
        assert(a.push(x).drop_first() =~= e);
        assert(a.push(x)[0] == x);
    } else {
        assert(a.push(x).drop_first() =~= a.drop_first().push(x));
        assert(a.push(x)[0] == a[0]);
        lemma_entries_error_push(a.drop_first(), x);
    }
}

/// Saves overrides for a known game: the overrides must be valid, the game
/// gets an entry if it has none, and the resulting settings must be valid;
/// on any refusal the settings stay as they were.
pub fn set_preset_overrides(
    cfg: &mut ReShadeSettings,
    known_ids: &Vec<String>,
    game_id: &str,
    overrides: PresetOverrides,
) -> (r: Result<(), SettingsError>)
    ensures
        !known_game_ok(game_id@, known_ids@) ==> (r matches Err(SettingsError::Game(e))
            && known_game_result(game_id@, known_ids@, Err(e))),
        known_game_ok(game_id@, known_ids@) && overrides_error(overrides) is Some ==> r
            == Err::<(), SettingsError>(SettingsError::Overrides(overrides_error(overrides)->0)),
        known_game_ok(game_id@, known_ids@) && overrides_error(overrides) is None ==> (
        match error_after_adding(*old(cfg), game_id@) {
            Some(e) => r == Err::<(), SettingsError>(e),
            None => r is Ok,
        }),
        r is Ok ==> settings_error(*final(cfg)) is None,
        r is Ok ==> ({
            &&& game_entry(final(cfg).per_game@, game_id@) matches Some(s)
            &&& s.preset_overrides == Some(overrides)
            &&& game_entry(old(cfg).per_game@, game_id@) matches Some(o) ==> (s.enabled
                == o.enabled && s.api == o.api && s.api_remembered == o.api_remembered && s.preset
                == o.preset)
            &&& game_entry(old(cfg).per_game@, game_id@) is None ==> (s.enabled && s.api is None
                && !s.api_remembered && s.preset is None)
            &&& forall|g: Seq<char>|
                g != game_id@ ==> game_entry(final(cfg).per_game@, g) == game_entry(
                    old(cfg).per_game@,
                    g,
                )
            &&& final(cfg).global_enabled == old(cfg).global_enabled
            &&& final(cfg).default_preset == old(cfg).default_preset
            &&& final(cfg).warnings_acknowledged == old(cfg).warnings_acknowledged
            &&& final(cfg).install_warning_acknowledged == old(cfg).install_warning_acknowledged
            &&& final(cfg).launch_warning_acknowledged == old(cfg).launch_warning_acknowledged
        }),
        r is Err ==> *final(cfg) == *old(cfg),
{
    match crate::profiles::ensure_known_game_id(game_id, known_ids) {
        Ok(()) => {},
        Err(e) => {
            return Err(SettingsError::Game(e));
        },
    }
    match validate_preset_overrides(&overrides) {
        Ok(()) => {},
        Err(e) => {
            return Err(SettingsError::Overrides(e));
        },
    }
    let ghost old_pg = cfg.per_game@;
    proof {
        lemma_entry_index(old_pg, game_id@);
    }
    match cfg.game_index(game_id) {
        Some(i) => {
            validate_settings(cfg)?;
            let g = &cfg.per_game[i].1;
            let entry = ReShadePerGameSettings {
                enabled: g.enabled,
                api: clone_opt(&g.api),
                api_remembered: g.api_remembered,
                preset: clone_opt(&g.preset),
                preset_overrides: Some(overrides),
            };
            cfg.set_game(game_id, entry);
            proof {
                let pg = cfg.per_game@;
                assert forall|k: int| 0 <= k < pg.len() implies entry_error(
                    (#[trigger] pg[k]).0,
                    pg[k].1,
                ) == entry_error(old_pg[k].0, old_pg[k].1) by {
                    if k == i {
                    } else {
                        assert(pg[k] == old_pg[k]);
                    }
                }
                lemma_entries_error_pointwise(pg, old_pg);
                lemma_duplicate_error(old_pg);
                lemma_duplicate_error(pg);
            }
            Ok(())
        },
        None => {
            if cfg.per_game.len() >= MAX_PER_GAME_ENTRIES {
                return Err(SettingsError::TooManyEntries(cfg.per_game.len().saturating_add(1)));
            }
            proof {
                lemma_entries_error_kind(old_pg);
                lemma_duplicate_error(old_pg);
            }
            let dup = match validate_settings(cfg) {
                Ok(()) => None,
                Err(e) => match e {
                    SettingsError::DuplicateGame(g) => Some(SettingsError::DuplicateGame(g)),
                    _ => {
                        return Err(e);
                    },
                },
            };
            if game_id.len() > MAX_GAME_ID_LEN {
                return Err(SettingsError::GameIdTooLong(game_id.len()));
            }
            match dup {
                Some(e) => {
                    return Err(e);
                },
                None => {},
            }
            let entry = ReShadePerGameSettings {
                enabled: true,
                api: None,
                api_remembered: false,
                preset: None,
                preset_overrides: Some(overrides),
            };
            cfg.set_game(game_id, entry);
            proof {
                let pg = cfg.per_game@;
                assert(pg =~= old_pg.push(pg.last()));
                lemma_entries_error_push(old_pg, pg.last());
                lemma_duplicate_error(old_pg);
                lemma_duplicate_error(pg);
            }
            Ok(())
        },
    }
}

fn clone_opt(o: &Option<String>) -> (r: Option<String>)
    ensures
        r == *o,
{
    match o {
        Some(s) => Some(s.clone()),
        None => None,
    }
}

/// Whether ReShade is on for a game: globally on, and the game not turned
/// off.
pub fn is_reshade_active_for_game(cfg: &ReShadeSettings, game_id: &str) -> (r: bool)
    ensures
        r == (cfg.global_enabled && match game_entry(cfg.per_game@, game_id@) {
            Some(s) => s.enabled,
            None => true,
        }),
{
    if !cfg.global_enabled {
        return false;
    }
    match cfg.game(game_id) {
        Some(g) => g.enabled,
        None => true,
    }
}

/// The API saved for a game, when it names a known API.
pub fn saved_api_for_game(cfg: &ReShadeSettings, game_id: &str) -> (r: Option<GraphicsApi>)
    ensures
        r == match game_entry(cfg.per_game@, game_id@) {
            Some(s) => match s.api {
                Some(a) => parse_api(a@),
                None => None,
            },
            None => None,
        },
{
    match cfg.game(game_id) {
        Some(g) => match &g.api {
            Some(id) => match GraphicsApi::from_str_id(id.as_str()) {
                Ok(a) => Some(a),
                Err(_) => None,
            },
            None => None,
        },
        None => None,
    }
}

/// The API to install with: any saved choice (remembering only affects
/// whether the user is asked again).
pub fn effective_api_for_game(cfg: &ReShadeSettings, game_id: &str) -> (r: Option<GraphicsApi>)
    ensures
        r == match game_entry(cfg.per_game@, game_id@) {
            Some(s) => match s.api {
                Some(a) => parse_api(a@),
                None => None,
            },
            None => None,
        },
{
    saved_api_for_game(cfg, game_id)
}

/// Ask for the API unless the game remembers a valid one.
pub open spec fn should_prompt(game: Option<ReShadePerGameSettings>) -> bool {
    match game {
        None => true,
        Some(g) => !g.api_remembered || g.api is None || parse_api(g.api->0@) is None,
    }
}

pub fn should_prompt_api_for_game(game: Option<&ReShadePerGameSettings>) -> (r: bool)
    ensures
        r == should_prompt(
            match game {
                Some(g) => Some(*g),
                None => None,
            },
        ),
{
    match game {
        None => true,
        Some(g) => {
            if !g.api_remembered {
                return true;
            }
            match &g.api {
                None => true,
                Some(id) => GraphicsApi::from_str_id(id.as_str()).is_err(),
            }
        },
    }
}

pub fn should_prompt_api(cfg: &ReShadeSettings, game_id: &str) -> (r: bool)
    ensures
        r == should_prompt(game_entry(cfg.per_game@, game_id@)),
{
    should_prompt_api_for_game(cfg.game(game_id))
}

} // verus!
