//! Saved game profiles and INI overrides: what may be saved, which profiles
//! are stale, and which profile sent over IPC can be trusted.
use vstd::prelude::*;
use crate::known_games::any_eq;
use crate::models::{GameOverride, GameProfile};
use crate::reshade::ini_edit::byte_len;
use crate::safety::{
    allowed_config_ini, is_allowed_config_ini_filename, is_safe_exe_basename,
    is_safe_ini_key_name, is_safe_ini_section_name, is_safe_ini_value, safe_exe_basename,
    safe_ini_key, safe_ini_section, safe_ini_value,
};
use crate::text::{
    chars_of, contains, eq_ic, has_prefix, lower, lowercase_of, str_views, to_lowercase, trim,
    trim_str,
};

verus! {

pub const MAX_OVERRIDE_JSON_BYTES: usize = 524288;

pub const MAX_OVERRIDES_JSON_BYTES: usize = 1048576;

pub const MAX_SAVED_OVERRIDES: usize = 256;

pub const MAX_PROFILES_JSON_BYTES: usize = 2097152;

pub const MAX_SAVED_GAMES: usize = 512;

/// Why an override was refused.
#[derive(Debug, Clone, PartialEq, Eq)]
pub enum OverrideError {
    MissingGameId,
    InvalidName,
    TooLarge,
    InvalidIniFile(String),
    InvalidRemovalIniFile(String),
    InvalidSection(String, String),
    InvalidKey(String, String),
    InvalidValue(String),
    InvalidRemovalSection(String, String),
    InvalidRemovalKey(String, String),
}

/// The bounds every override meets: a game id, a name of 1 to 120 bytes,
/// and a JSON form of at most 512 KiB (`json_len` is its length).
pub open spec fn bounds_error(o: GameOverride, json_len: usize) -> Option<OverrideError> {
    if trim(o.game_id@).len() == 0 {
        Some(OverrideError::MissingGameId)
    } else if trim(o.name@).len() == 0 || byte_len(o.name@) > 120 {
        Some(OverrideError::InvalidName)
    } else if json_len > MAX_OVERRIDE_JSON_BYTES {
        Some(OverrideError::TooLarge)
    } else {
        None
    }
}

pub fn validate_override_bounds(o: &GameOverride, json_len: usize) -> (r: Result<(), OverrideError>)
    ensures
        match bounds_error(*o, json_len) {
            Some(e) => r == Err::<(), OverrideError>(e),
            None => r is Ok,
        },
{
    if trim_str(o.game_id.as_str()).len() == 0 {
        return Err(OverrideError::MissingGameId);
    }
    if trim_str(o.name.as_str()).len() == 0 || o.name.as_str().len() > 120 {
        return Err(OverrideError::InvalidName);
    }
    if json_len > MAX_OVERRIDE_JSON_BYTES {
        return Err(OverrideError::TooLarge);
    }
    Ok(())
}

pub type FileSets = Seq<(String, Vec<(String, Vec<(String, String)>)>)>;

pub type RemovalSets = Seq<(String, Vec<(String, Vec<String>)>)>;

/// The first file name of `fs` that is not an allowed config file.
pub open spec fn bad_file(names: Seq<String>) -> Option<String>
    decreases names.len(),
{
    if names.len() == 0 {
        None
    } else if !allowed_config_ini(names[0]@) {
        Some(names[0])
    } else {
        bad_file(names.drop_first())
    }
}

pub open spec fn file_names(fs: FileSets) -> Seq<String> {
    fs.map_values(|e: (String, Vec<(String, Vec<(String, String)>)>)| e.0)
}

pub open spec fn removal_names(rs: RemovalSets) -> Seq<String> {
    rs.map_values(|e: (String, Vec<(String, Vec<String>)>)| e.0)
}

/// The first bad key or value of one section.
pub open spec fn entries_error(file: String, kvs: Seq<(String, String)>) -> Option<OverrideError>
    decreases kvs.len(),
{
    if kvs.len() == 0 {
        None
    } else if !safe_ini_key(kvs[0].0@) {
        Some(OverrideError::InvalidKey(file, kvs[0].0))
    } else if !safe_ini_value(kvs[0].1@) {
        Some(OverrideError::InvalidValue(kvs[0].0))
    } else {
        entries_error(file, kvs.drop_first())
    }
}

pub open spec fn sections_error(file: String, ss: Seq<(String, Vec<(String, String)>)>) -> Option<
    OverrideError,
>
    decreases ss.len(),
{
    if ss.len() == 0 {
        None
    } else if !safe_ini_section(ss[0].0@) {
        Some(OverrideError::InvalidSection(file, ss[0].0))
    } else {
        match entries_error(file, ss[0].1@) {
            Some(e) => Some(e),
            None => sections_error(file, ss.drop_first()),
        }
    }
}

pub open spec fn files_error(fs: FileSets) -> Option<OverrideError>
    decreases fs.len(),
{
    if fs.len() == 0 {
        None
    } else {
        match sections_error(fs[0].0, fs[0].1@) {
            Some(e) => Some(e),
            None => files_error(fs.drop_first()),
        }
    }
}

pub open spec fn removal_keys_error(file: String, ks: Seq<String>) -> Option<OverrideError>
    decreases ks.len(),
{
    if ks.len() == 0 {
        None
    } else if !safe_ini_key(ks[0]@) {
        Some(OverrideError::InvalidRemovalKey(file, ks[0]))
    } else {
        removal_keys_error(file, ks.drop_first())
    }
}

pub open spec fn removal_sections_error(file: String, ss: Seq<(String, Vec<String>)>) -> Option<
    OverrideError,
>
    decreases ss.len(),
{
    if ss.len() == 0 {
        None
    } else if !safe_ini_section(ss[0].0@) {
        Some(OverrideError::InvalidRemovalSection(file, ss[0].0))
    } else {
        match removal_keys_error(file, ss[0].1@) {
            Some(e) => Some(e),
            None => removal_sections_error(file, ss.drop_first()),
        }
    }
}

pub open spec fn removals_error(rs: RemovalSets) -> Option<OverrideError>
    decreases rs.len(),
{
    if rs.len() == 0 {
        None
    } else {
        match removal_sections_error(rs[0].0, rs[0].1@) {
            Some(e) => Some(e),
            None => removals_error(rs.drop_first()),
        }
    }
}

/// What `validate_override_payload` reports: the bounds, then a file that
/// is not an allowed config file (changes, then removals), then a bad
/// section, key or value (changes, then removals), each the first in order.
pub open spec fn payload_error(o: GameOverride, json_len: usize) -> Option<OverrideError> {
    if bounds_error(o, json_len) is Some {
        bounds_error(o, json_len)
    } else if bad_file(file_names(o.files@)) is Some {
        Some(OverrideError::InvalidIniFile(bad_file(file_names(o.files@))->0))
    } else if bad_file(removal_names(o.removals@)) is Some {
        Some(OverrideError::InvalidRemovalIniFile(bad_file(removal_names(o.removals@))->0))
    } else if files_error(o.files@) is Some {
        files_error(o.files@)
    } else {
        removals_error(o.removals@)
    }
}

fn first_bad_file(names: &Vec<String>) -> (r: Option<String>)
    ensures
        r == bad_file(names@),
{
    let mut i: usize = 0;
    assert(names@.skip(0) =~= names@);
    while i < names.len()
        invariant
            i <= names.len(),
            bad_file(names@) == bad_file(names@.skip(i as int)),
        decreases names.len() - i,
    {
        let ghost rest = names@.skip(i as int);
        assert(rest[0] == names@[i as int]);
        assert(rest.drop_first() =~= names@.skip(i + 1));
        if !is_allowed_config_ini_filename(names[i].as_str()) {
            return Some(names[i].clone());
        }
        i += 1;
    }
    assert(names@.skip(i as int) =~= Seq::<String>::empty());
    None
}

fn check_entries(file: &String, kvs: &Vec<(String, String)>) -> (r: Option<OverrideError>)
    ensures
        r == entries_error(*file, kvs@),
{
    let mut i: usize = 0;
    assert(kvs@.skip(0) =~= kvs@);
    while i < kvs.len()
        invariant
            i <= kvs.len(),
            entries_error(*file, kvs@) == entries_error(*file, kvs@.skip(i as int)),
        decreases kvs.len() - i,
    {
        let ghost rest = kvs@.skip(i as int);
        assert(rest[0] == kvs@[i as int]);
        assert(rest.drop_first() =~= kvs@.skip(i + 1));
        if !is_safe_ini_key_name(kvs[i].0.as_str()) {
            return Some(OverrideError::InvalidKey(file.clone(), kvs[i].0.clone()));
        }
        if !is_safe_ini_value(kvs[i].1.as_str()) {
            return Some(OverrideError::InvalidValue(kvs[i].0.clone()));
        }
        i += 1;
    }
    assert(kvs@.skip(i as int) =~= Seq::<(String, String)>::empty());
    None
}

fn check_sections(file: &String, ss: &Vec<(String, Vec<(String, String)>)>) -> (r: Option<
    OverrideError,
>)
    ensures
        r == sections_error(*file, ss@),
{
    let mut i: usize = 0;
    assert(ss@.skip(0) =~= ss@);
    while i < ss.len()
        invariant
            i <= ss.len(),
            sections_error(*file, ss@) == sections_error(*file, ss@.skip(i as int)),
        decreases ss.len() - i,
    {
        let ghost rest = ss@.skip(i as int);
        assert(rest[0] == ss@[i as int]);
        assert(rest.drop_first() =~= ss@.skip(i + 1));
        if !is_safe_ini_section_name(ss[i].0.as_str()) {
            return Some(OverrideError::InvalidSection(file.clone(), ss[i].0.clone()));
        }
        match check_entries(file, &ss[i].1) {
            Some(e) => {
                return Some(e);
            },
            None => {},
        }
        i += 1;
    }
    assert(ss@.skip(i as int) =~= Seq::<(String, Vec<(String, String)>)>::empty());
    None
}

fn check_removal_keys(file: &String, ks: &Vec<String>) -> (r: Option<OverrideError>)
    ensures
        r == removal_keys_error(*file, ks@),
{
    let mut i: usize = 0;
    assert(ks@.skip(0) =~= ks@);
    while i < ks.len()
        invariant
            i <= ks.len(),
            removal_keys_error(*file, ks@) == removal_keys_error(*file, ks@.skip(i as int)),
        decreases ks.len() - i,
    {
        let ghost rest = ks@.skip(i as int);
        assert(rest[0] == ks@[i as int]);
        assert(rest.drop_first() =~= ks@.skip(i + 1));
        if !is_safe_ini_key_name(ks[i].as_str()) {
            return Some(OverrideError::InvalidRemovalKey(file.clone(), ks[i].clone()));
        }
        i += 1;
    }
    assert(ks@.skip(i as int) =~= Seq::<String>::empty());
    None
}

fn check_removal_sections(file: &String, ss: &Vec<(String, Vec<String>)>) -> (r: Option<
    OverrideError,
>)
    ensures
        r == removal_sections_error(*file, ss@),
{
    let mut i: usize = 0;
    assert(ss@.skip(0) =~= ss@);
    while i < ss.len()
        invariant
            i <= ss.len(),
            removal_sections_error(*file, ss@) == removal_sections_error(
                *file,
                ss@.skip(i as int),
            ),
        decreases ss.len() - i,
    {
        let ghost rest = ss@.skip(i as int);
        assert(rest[0] == ss@[i as int]);
        assert(rest.drop_first() =~= ss@.skip(i + 1));
        if !is_safe_ini_section_name(ss[i].0.as_str()) {
            return Some(OverrideError::InvalidRemovalSection(file.clone(), ss[i].0.clone()));
        }
        match check_removal_keys(file, &ss[i].1) {
            Some(e) => {
                return Some(e);
            },
            None => {},
        }
        i += 1;
    }
    assert(ss@.skip(i as int) =~= Seq::<(String, Vec<String>)>::empty());
    None
}

/// Checks an override before it is saved or applied: its bounds, the
/// files it touches, and every section, key and value, so that nothing can
/// inject INI lines.
pub fn validate_override_payload(o: &GameOverride, json_len: usize) -> (r: Result<(), OverrideError>)
    ensures
        match payload_error(*o, json_len) {
            Some(e) => r == Err::<(), OverrideError>(e),
            None => r is Ok,
        },
{
    validate_override_bounds(o, json_len)?;
    let mut names: Vec<String> = Vec::new();
    let mut i: usize = 0;
    while i < o.files.len()
        invariant
            i <= o.files.len(),
            names@ == file_names(o.files@).take(i as int),
        decreases o.files.len() - i,
    {
        names.push(o.files[i].0.clone());
        assert(names@ =~= file_names(o.files@).take(i + 1));
        i += 1;
    }
    assert(file_names(o.files@).take(i as int) =~= file_names(o.files@));
    match first_bad_file(&names) {
        Some(f) => {
            return Err(OverrideError::InvalidIniFile(f));
        },
        None => {},
    }
    let mut rnames: Vec<String> = Vec::new();
    let mut j: usize = 0;
    while j < o.removals.len()
        invariant
            j <= o.removals.len(),
            rnames@ == removal_names(o.removals@).take(j as int),
        decreases o.removals.len() - j,
    {
        rnames.push(o.removals[j].0.clone());
        assert(rnames@ =~= removal_names(o.removals@).take(j + 1));
        j += 1;
    }
    assert(removal_names(o.removals@).take(j as int) =~= removal_names(o.removals@));
    match first_bad_file(&rnames) {
        Some(f) => {
            return Err(OverrideError::InvalidRemovalIniFile(f));
        },
        None => {},
    }
    let fs = &o.files;
    let mut k: usize = 0;
    assert(fs@.skip(0) =~= fs@);
    while k < fs.len()
        invariant
            k <= fs.len(),
            fs == &o.files,
            payload_error(*o, json_len) == (if files_error(fs@) is Some {
                files_error(fs@)
            } else {
                removals_error(o.removals@)
            }),
            files_error(fs@) == files_error(fs@.skip(k as int)),
        decreases fs.len() - k,
    {
        let ghost rest = fs@.skip(k as int);
        assert(rest[0] == fs@[k as int]);
        assert(rest.drop_first() =~= fs@.skip(k + 1));
        match check_sections(&fs[k].0, &fs[k].1) {
            Some(e) => {
                return Err(e);
            },
            None => {},
        }
        k += 1;
    }
    assert(fs@.skip(k as int) =~= Seq::<(String, Vec<(String, Vec<(String, String)>)>)>::empty());
    let rs = &o.removals;
    let mut m: usize = 0;
    assert(rs@.skip(0) =~= rs@);
    while m < rs.len()
        invariant
            m <= rs.len(),
            rs == &o.removals,
            payload_error(*o, json_len) == removals_error(rs@),
            removals_error(rs@) == removals_error(rs@.skip(m as int)),
        decreases rs.len() - m,
    {
        let ghost rest = rs@.skip(m as int);
        assert(rest[0] == rs@[m as int]);
        assert(rest.drop_first() =~= rs@.skip(m + 1));
        match check_removal_sections(&rs[m].0, &rs[m].1) {
            Some(e) => {
                return Err(e);
            },
            None => {},
        }
        m += 1;
    }
    assert(rs@.skip(m as int) =~= Seq::<(String, Vec<(String, Vec<String>)>)>::empty());
    Ok(())
}

/// A stored list that is too large or too long is refused.
#[derive(Debug, Clone, PartialEq, Eq)]
pub enum StoreError {
    FileTooLarge(u64, usize),
    TooManyEntries(usize, usize),
}

/// Checks a stored file's size against its limit.
pub fn check_file_size(size: u64, limit: usize) -> (r: Result<(), StoreError>)
    ensures
        r is Ok <==> size <= limit,
        r is Err ==> r == Err::<(), StoreError>(StoreError::FileTooLarge(size, limit)),
{
    if size > (limit as u64) {
        Err(StoreError::FileTooLarge(size, limit))
    } else {
        Ok(())
    }
}

/// Checks a stored list's length against its limit.
pub fn check_entry_count(n: usize, limit: usize) -> (r: Result<(), StoreError>)
    ensures
        r is Ok <==> n <= limit,
        r is Err ==> r == Err::<(), StoreError>(StoreError::TooManyEntries(n, limit)),
{
    if n > limit {
        Err(StoreError::TooManyEntries(n, limit))
    } else {
        Ok(())
    }
}

/// Index of the first override with this game id and name, or -1.
pub open spec fn override_index(os: Seq<GameOverride>, gid: Seq<char>, name: Seq<char>) -> int
    decreases os.len(),
{
    if os.len() == 0 {
        -1
    } else if os[0].game_id@ == gid && os[0].name@ == name {
        0
    } else {
        let r = override_index(os.drop_first(), gid, name);
        if r < 0 {
            -1
        } else {
            r + 1
        }
    }
}

fn find_override(os: &Vec<GameOverride>, gid: &str, name: &str) -> (r: Option<usize>)
    ensures
        match r {
            Some(i) => i < os.len() && override_index(os@, gid@, name@) == i,
            None => override_index(os@, gid@, name@) == -1,
        },
{
    let mut i: usize = 0;
    assert(os@.skip(0) =~= os@);
    while i < os.len()
        invariant
            i <= os.len(),
            override_index(os@, gid@, name@) == (if override_index(
                os@.skip(i as int),
                gid@,
                name@,
            ) < 0 {
                -1
            } else {
                override_index(os@.skip(i as int), gid@, name@) + i
            }),
        decreases os.len() - i,
    {
        let ghost rest = os@.skip(i as int);
        assert(rest[0] == os@[i as int]);
        assert(rest.drop_first() =~= os@.skip(i + 1));
        if crate::text::str_eq(os[i].game_id.as_str(), gid) && crate::text::str_eq(
            os[i].name.as_str(),
            name,
        ) {
            return Some(i);
        }
        i += 1;
    }
    assert(os@.skip(i as int) =~= Seq::<GameOverride>::empty());
    None
}

/// Saving an override replaces the one with the same game id and name, or
/// adds it at the end.
pub fn upsert_override(os: Vec<GameOverride>, o: GameOverride) -> (r: Vec<GameOverride>)
    ensures
        override_index(os@, o.game_id@, o.name@) >= 0 ==> r@ == os@.update(
            override_index(os@, o.game_id@, o.name@),
            o,
        ),
        override_index(os@, o.game_id@, o.name@) < 0 ==> r@ == os@.push(o),
        r@ == overrides_after_save(os@, o),
{
    let mut os = os;
    match find_override(&os, o.game_id.as_str(), o.name.as_str()) {
        Some(i) => {
            os.set(i, o);
        },
        None => {
            os.push(o);
        },
    }
    os
}

/// The overrides of `os` for which `keep` holds, in order.
pub open spec fn kept_overrides(os: Seq<GameOverride>, gid: Seq<char>, name: Option<Seq<char>>, want: bool) -> Seq<
    GameOverride,
>
    decreases os.len(),
{
    if os.len() == 0 {
        seq![]
    } else {
        let hit = os.last().game_id@ == gid && match name {
            Some(n) => os.last().name@ == n,
            None => true,
        };
        if hit == want {
            kept_overrides(os.drop_last(), gid, name, want).push(os.last())
        } else {
            kept_overrides(os.drop_last(), gid, name, want)
        }
    }
}

fn filter_overrides(os: Vec<GameOverride>, gid: &str, name: Option<&str>, want: bool) -> (r: Vec<
    GameOverride,
>)
    ensures
        r@ == kept_overrides(
            os@,
            gid@,
            match name {
                Some(n) => Some(n@),
                None => None,
            },
            want,
        ),
{
    let ghost orig = os@;
    let ghost nm = match name {
        Some(n) => Some(n@),
        None => None,
    };
    let mut rest = os;
    let mut out: Vec<GameOverride> = Vec::new();
    let mut taken: usize = 0;
    assert(orig.len() == rest.len());
    while rest.len() > 0
        invariant
            taken + rest@.len() == orig.len(),
            rest@ == orig.skip(taken as int),
            out@ == kept_overrides(orig.take(taken as int), gid@, nm, want),
            orig.len() <= usize::MAX,
            nm == match name {
                Some(n) => Some(n@),
                None => None,
            },
        decreases rest.len(),
    {
        let x = rest.remove(0);
        assert(orig.take(taken + 1).drop_last() =~= orig.take(taken as int));
        assert(orig.take(taken + 1).last() == x);
        let same_game = crate::text::str_eq(x.game_id.as_str(), gid);
        let hit = same_game && match name {
            Some(n) => crate::text::str_eq(x.name.as_str(), n),
            None => true,
        };
        if hit == want {
            out.push(x);
        }
        taken += 1;
        assert(rest@ =~= orig.skip(taken as int));
    }
    assert(orig.take(taken as int) =~= orig);
    out
}

/// The overrides of one game, in order.
pub fn get_overrides_for_game(os: Vec<GameOverride>, game_id: &str) -> (r: Vec<GameOverride>)
    ensures
        r@ == kept_overrides(os@, game_id@, None, true),
{
    filter_overrides(os, game_id, None, true)
}

/// The overrides left after deleting a game's override of that name.
pub fn delete_override(os: Vec<GameOverride>, game_id: &str, name: &str) -> (r: Vec<GameOverride>)
    ensures
        r@ == kept_overrides(os@, game_id@, Some(name@), false),
{
    filter_overrides(os, game_id, Some(name), false)
}

/// A temporary directory shows in the lower-cased canonical path; a path
/// that cannot be canonicalized counts as disposable too.
pub open spec fn disposable_path(canonical: Option<Seq<char>>) -> bool {
    match canonical {
        None => true,
        Some(c) => {
            let l = lowercase_of(c);
            contains(l, "\\temp\\"@) || contains(l, "/temp/"@) || contains(l, "\\tmp\\"@)
                || contains(l, "/tmp/"@)
        },
    }
}

pub fn is_disposable_install_path(canonical: Option<&str>) -> (r: bool)
    ensures
        r == disposable_path(
            match canonical {
                Some(c) => Some(c@),
                None => None,
            },
        ),
{
    match canonical {
        None => true,
        Some(c) => {
            let l = chars_of(to_lowercase(c).as_str());
            crate::text::contains_str(&l, "\\temp\\") || crate::text::contains_str(&l, "/temp/")
                || crate::text::contains_str(&l, "\\tmp\\") || crate::text::contains_str(
                &l,
                "/tmp/",
            )
        },
    }
}

/// Profiles left by tests or pointing nowhere: Unity ones, test ids, an
/// empty or missing install directory, or one in a temporary directory.
pub open spec fn stale_profile(p: GameProfile, install_exists: bool, canonical: Option<Seq<char>>) -> bool {
    ||| eq_ic(p.engine_family@, "unity"@)
    ||| has_prefix(p.id@, "ipc-security-"@)
    ||| trim(p.install_dir@).len() == 0
    ||| !install_exists
    ||| disposable_path(canonical)
}

/// `install_exists` and `canonical` are what the file system says of the
/// trimmed install directory.
pub fn is_stale_saved_profile(profile: &GameProfile, install_exists: bool, canonical: Option<&str>) -> (r:
    bool)
    ensures
        r == stale_profile(
            *profile,
            install_exists,
            match canonical {
                Some(c) => Some(c@),
                None => None,
            },
        ),
{
    proof {
        reveal_strlit("unity");
        reveal_strlit("ipc-security-");
    }
    let fam = chars_of(profile.engine_family.as_str());
    if crate::text::eq_ignore_case(&fam, &chars_of("unity")) {
        return true;
    }
    let id = chars_of(profile.id.as_str());
    if crate::text::starts_with_str(&id, "ipc-security-") {
        return true;
    }
    if trim_str(profile.install_dir.as_str()).len() == 0 || !install_exists {
        return true;
    }
    is_disposable_install_path(canonical)
}

/// Why a profile's paths were refused.
#[derive(Debug, Clone, PartialEq, Eq)]
pub enum ProfileError {
    EmptyInstallDir,
    InstallDirMissing(String),
    InvalidInstallPath(String),
    TemporaryInstallDir,
    InvalidConfigDir(String),
    InvalidExeName(String),
    UnknownGame(String),
    InstallDirMismatch,
    InvalidGameId,
}

/// The configured config directory, when it is not blank.
pub open spec fn config_dir_given(p: GameProfile) -> bool {
    p.config_dir is Some && trim(p.config_dir->0@).len() > 0
}

/// Checks the paths of a profile before it is saved: an existing install
/// directory outside temporary folders, a valid config directory when one
/// is given, and a plain executable name when one is given.
/// `canonical` is the canonical install path or the error of getting it;
/// `config_dir_check` what the config-directory check reported.
pub fn validate_profile_paths(
    profile: &GameProfile,
    install_exists: bool,
    canonical: Result<&str, &str>,
    config_dir_check: Result<(), String>,
) -> (r: Result<(), ProfileError>)
    ensures
        trim(profile.install_dir@).len() == 0 ==> r == Err::<(), ProfileError>(
            ProfileError::EmptyInstallDir,
        ),
        trim(profile.install_dir@).len() > 0 && !install_exists ==> r == Err::<(), ProfileError>(
            ProfileError::InstallDirMissing(profile.install_dir),
        ),
        trim(profile.install_dir@).len() > 0 && install_exists ==> match canonical {
            Err(e) => r matches Err(ProfileError::InvalidInstallPath(m)) && m@ == e@,
            Ok(c) => if disposable_path(Some(c@)) {
                r == Err::<(), ProfileError>(ProfileError::TemporaryInstallDir)
            } else if config_dir_given(*profile) && config_dir_check is Err {
                r == Err::<(), ProfileError>(
                    ProfileError::InvalidConfigDir(config_dir_check->Err_0),
                )
            } else if profile.exe_name is Some && trim(profile.exe_name->0@).len() > 0
                && !safe_exe_basename(profile.exe_name->0@) {
                r == Err::<(), ProfileError>(ProfileError::InvalidExeName(profile.exe_name->0))
            } else {
                r is Ok
            },
        },
{
    if trim_str(profile.install_dir.as_str()).len() == 0 {
        return Err(ProfileError::EmptyInstallDir);
    }
    if !install_exists {
        return Err(ProfileError::InstallDirMissing(profile.install_dir.clone()));
    }
    let c = match canonical {
        Err(e) => {
            return Err(ProfileError::InvalidInstallPath(crate::text::owned(e)));
        },
        Ok(c) => c,
    };
    if is_disposable_install_path(Some(c)) {
        return Err(ProfileError::TemporaryInstallDir);
    }
    match &profile.config_dir {
        Some(d) => {
            if trim_str(d.as_str()).len() > 0 {
                match config_dir_check {
                    Err(e) => {
                        return Err(ProfileError::InvalidConfigDir(e));
                    },
                    Ok(()) => {},
                }
            }
        },
        None => {},
    }
    match &profile.exe_name {
        Some(e) => {
            if trim_str(e.as_str()).len() > 0 && !is_safe_exe_basename(e.as_str()) {
                return Err(ProfileError::InvalidExeName(e.clone()));
            }
        },
        None => {},
    }
    Ok(())
}

/// An install directory for comparison: trimmed, `/` as `\`, without
/// trailing separators, lower-cased (ASCII).
pub open spec fn normalized_dir(s: Seq<char>) -> Seq<char> {
    let t = trim(s).map_values(|c: char| if c == '/' { '\\' } else { c });
    lower(crate::text::trim_end_matches(t, "\\"@))
}

pub fn normalize_install_dir(s: &str) -> (r: String)
    ensures
        r@ == normalized_dir(s@),
{
    let t = trim_str(s);
    let mut u: Vec<char> = Vec::new();
    let mut i: usize = 0;
    while i < t.len()
        invariant
            i <= t.len(),
            u@ == t@.take(i as int).map_values(|c: char| if c == '/' { '\\' } else { c }),
        decreases t.len() - i,
    {
        let c = t[i];
        u.push(
            if c == '/' {
                '\\'
            } else {
                c
            },
        );
        assert(u@ =~= t@.take(i + 1).map_values(|c: char| if c == '/' { '\\' } else { c }));
        i += 1;
    }
    assert(t@.take(i as int) =~= t@);
    proof {
        reveal_strlit("\\");
    }
    let sep = chars_of("\\");
    let w = crate::text::trim_end_matches_vec(&u, &sep);
    let l = crate::text::lower_vec(&w);
    crate::text::string_of(&l)
}

/// A profile sent over IPC is trusted only when its paths are valid, the
/// game is known (`trusted` is its saved or scanned profile), and its
/// install directory is the known one.
pub fn resolve_trusted_profile(
    profile: &GameProfile,
    paths_check: Result<(), ProfileError>,
    trusted: Option<GameProfile>,
) -> (r: Result<GameProfile, ProfileError>)
    ensures
        paths_check is Err ==> r == Err::<GameProfile, ProfileError>(paths_check->Err_0),
        paths_check is Ok && trusted is None ==> r == Err::<GameProfile, ProfileError>(
            ProfileError::UnknownGame(profile.id),
        ),
        paths_check is Ok && trusted is Some ==> if normalized_dir(trusted->0.install_dir@)
            == normalized_dir(profile.install_dir@) {
            r == Ok::<GameProfile, ProfileError>(trusted->0)
        } else {
            r == Err::<GameProfile, ProfileError>(ProfileError::InstallDirMismatch)
        },
{
    match paths_check {
        Err(e) => {
            return Err(e);
        },
        Ok(()) => {},
    }
    let t = match trusted {
        None => {
            return Err(ProfileError::UnknownGame(profile.id.clone()));
        },
        Some(t) => t,
    };
    let a = normalize_install_dir(t.install_dir.as_str());
    let b = normalize_install_dir(profile.install_dir.as_str());
    if !crate::text::str_eq(a.as_str(), b.as_str()) {
        return Err(ProfileError::InstallDirMismatch);
    }
    Ok(t)
}

/// The check applied to every profile received over IPC: the same as
/// `resolve_trusted_profile`.
pub fn ensure_trusted_ipc_profile(
    profile: &GameProfile,
    paths_check: Result<(), ProfileError>,
    trusted: Option<GameProfile>,
) -> (r: Result<GameProfile, ProfileError>)
    ensures
        paths_check is Err ==> r == Err::<GameProfile, ProfileError>(paths_check->Err_0),
        paths_check is Ok && trusted is None ==> r == Err::<GameProfile, ProfileError>(
            ProfileError::UnknownGame(profile.id),
        ),
        paths_check is Ok && trusted is Some ==> if normalized_dir(trusted->0.install_dir@)
            == normalized_dir(profile.install_dir@) {
            r == Ok::<GameProfile, ProfileError>(trusted->0)
        } else {
            r == Err::<GameProfile, ProfileError>(ProfileError::InstallDirMismatch)
        },
{
    resolve_trusted_profile(profile, paths_check, trusted)
}

/// A game id that may be used: trimmed, it is 1 to 128 bytes and names a
/// known game.
pub open spec fn known_game_ok(game_id: Seq<char>, known_ids: Seq<String>) -> bool {
    let id = trim(game_id);
    id.len() > 0 && byte_len(id) <= 128 && any_eq(known_ids, id)
}

/// What `ensure_known_game_id` answers for a game id.
pub open spec fn known_game_result(
    game_id: Seq<char>,
    known_ids: Seq<String>,
    r: Result<(), ProfileError>,
) -> bool {
    let id = trim(game_id);
    if id.len() == 0 || byte_len(id) > 128 {
        r == Err::<(), ProfileError>(ProfileError::InvalidGameId)
    } else if any_eq(known_ids, id) {
        r is Ok
    } else {
        r matches Err(ProfileError::UnknownGame(g)) && g@ == id
    }
}

/// A game id may be used only when, trimmed, it is 1 to 128 bytes and
/// names a known game (`known_ids` lists the saved and scanned ones).
pub fn ensure_known_game_id(game_id: &str, known_ids: &Vec<String>) -> (r: Result<(), ProfileError>)
    ensures
        known_game_result(game_id@, known_ids@, r),
        r is Ok <==> known_game_ok(game_id@, known_ids@),
{
    let t = trim_str(game_id);
    let id = crate::text::string_of(&t);
    if t.len() == 0 || id.as_str().len() > 128 {
        return Err(ProfileError::InvalidGameId);
    }
    if crate::known_games::list_has(known_ids, &t) {
        Ok(())
    } else {
        Err(ProfileError::UnknownGame(id))
    }
}

/// Index of the first profile with this id, or -1.
pub open spec fn profile_index(ps: Seq<GameProfile>, id: Seq<char>) -> int
    decreases ps.len(),
{
    if ps.len() == 0 {
        -1
    } else if ps[0].id@ == id {
        0
    } else {
        let r = profile_index(ps.drop_first(), id);
        if r < 0 {
            -1
        } else {
            r + 1
        }
    }
}

fn find_profile(ps: &Vec<GameProfile>, id: &str) -> (r: Option<usize>)
    ensures
        match r {
            Some(i) => i < ps.len() && profile_index(ps@, id@) == i,
            None => profile_index(ps@, id@) == -1,
        },
{
    let mut i: usize = 0;
    assert(ps@.skip(0) =~= ps@);
    while i < ps.len()
        invariant
            i <= ps.len(),
            profile_index(ps@, id@) == (if profile_index(ps@.skip(i as int), id@) < 0 {
                -1
            } else {
                profile_index(ps@.skip(i as int), id@) + i
            }),
        decreases ps.len() - i,
    {
        let ghost rest = ps@.skip(i as int);
        assert(rest[0] == ps@[i as int]);
        assert(rest.drop_first() =~= ps@.skip(i + 1));
        if crate::text::str_eq(ps[i].id.as_str(), id) {
            return Some(i);
        }
        i += 1;
    }
    assert(ps@.skip(i as int) =~= Seq::<GameProfile>::empty());
    None
}

/// Saving a profile replaces the one with its id, or adds it at the end.
pub fn upsert_profile(profiles: Vec<GameProfile>, p: GameProfile) -> (r: Vec<GameProfile>)
    ensures
        profile_index(profiles@, p.id@) >= 0 ==> r@ == profiles@.update(
            profile_index(profiles@, p.id@),
            p,
        ),
        profile_index(profiles@, p.id@) < 0 ==> r@ == profiles@.push(p),
        r@ == profiles_after_save(profiles@, p),
{
    let mut ps = profiles;
    match find_profile(&ps, p.id.as_str()) {
        Some(i) => {
            ps.set(i, p);
        },
        None => {
            ps.push(p);
        },
    }
    ps
}

/// The profiles of `ps` whose `keep` flag holds, in order.
pub open spec fn kept<T>(ps: Seq<T>, keep: Seq<bool>) -> Seq<T>
    decreases ps.len(),
{
    if ps.len() == 0 || keep.len() == 0 {
        seq![]
    } else if keep[ps.len() - 1] {
        kept(ps.drop_last(), keep.take(ps.len() - 1)).push(ps.last())
    } else {
        kept(ps.drop_last(), keep.take(ps.len() - 1))
    }
}

/// Drops the profiles flagged stale; returns the kept ones and how many
/// were dropped.
pub fn prune_stale_saved_profiles(ps: Vec<GameProfile>, stale: &Vec<bool>) -> (r: (Vec<GameProfile>, usize))
    requires
        stale@.len() == ps@.len(),
    ensures
        r.0@ == kept(ps@, stale@.map_values(|b: bool| !b)),
        r.1 == ps@.len() - r.0@.len(),
{
    let ghost orig = ps@;
    let ghost keep = stale@.map_values(|b: bool| !b);
    let mut rest = ps;
    let mut out: Vec<GameProfile> = Vec::new();
    let mut taken: usize = 0;
    let n = rest.len();
    assert(orig.len() == n);
    while rest.len() > 0
        invariant
            taken + rest@.len() == orig.len(),
            orig.len() <= usize::MAX,
            n == orig.len(),
            stale@.len() == orig.len(),
            keep == stale@.map_values(|b: bool| !b),
            rest@ == orig.skip(taken as int),
            out@ == kept(orig.take(taken as int), keep.take(taken as int)),
            out@.len() <= taken,
        decreases rest.len(),
    {
        let x = rest.remove(0);
        let ghost t1 = orig.take(taken + 1);
        assert(t1.drop_last() =~= orig.take(taken as int));
        assert(t1.last() == x);
        assert(keep.take(taken + 1).take(taken as int) =~= keep.take(taken as int));
        assert(keep.take(taken + 1)[taken as int] == !stale@[taken as int]);
        if !stale[taken] {
            out.push(x);
        }
        taken += 1;
        assert(rest@ =~= orig.skip(taken as int));
    }
    assert(orig.take(taken as int) =~= orig);
    assert(keep.take(taken as int) =~= keep);
    let removed = n - out.len();
    (out, removed)
}

/// The profiles of `ps` with another id than `id`, in order.
pub open spec fn without_id(ps: Seq<GameProfile>, id: Seq<char>) -> Seq<GameProfile>
    decreases ps.len(),
{
    if ps.len() == 0 {
        seq![]
    } else if ps.last().id@ != id {
        without_id(ps.drop_last(), id).push(ps.last())
    } else {
        without_id(ps.drop_last(), id)
    }
}

/// The profiles left after removing one id.
pub fn remove_profile(profiles: Vec<GameProfile>, id: &str) -> (r: Vec<GameProfile>)
    ensures
        r@ == without_id(profiles@, id@),
{
    let ghost orig = profiles@;
    let mut rest = profiles;
    let mut out: Vec<GameProfile> = Vec::new();
    let mut taken: usize = 0;
    assert(orig.len() == rest.len());
    while rest.len() > 0
        invariant
            taken + rest@.len() == orig.len(),
            orig.len() <= usize::MAX,
            rest@ == orig.skip(taken as int),
            out@ == without_id(orig.take(taken as int), id@),
        decreases rest.len(),
    {
        let x = rest.remove(0);
        assert(orig.take(taken + 1).drop_last() =~= orig.take(taken as int));
        assert(orig.take(taken + 1).last() == x);
        if !crate::text::str_eq(x.id.as_str(), id) {
            out.push(x);
        }
        taken += 1;
        assert(rest@ =~= orig.skip(taken as int));
    }
    assert(orig.take(taken as int) =~= orig);
    out
}


// ---------------------------------------------------------------------------
// What saving and removing give back
// ---------------------------------------------------------------------------
/// The saved profiles after saving `p`.
pub open spec fn profiles_after_save(ps: Seq<GameProfile>, p: GameProfile) -> Seq<GameProfile> {
    let i = profile_index(ps, p.id@);
    if i >= 0 {
        ps.update(i, p)
    } else {
        ps.push(p)
    }
}

/// `profile_index` is the first position with the id, or -1 when none has it.
pub proof fn lemma_profile_index(ps: Seq<GameProfile>, id: Seq<char>)
    ensures
        -1 <= profile_index(ps, id) < ps.len(),
        profile_index(ps, id) >= 0 ==> ps[profile_index(ps, id)].id@ == id,
        forall|j: int| 0 <= j < ps.len() && (j < profile_index(ps, id) || profile_index(ps, id) < 0)
            ==> (#[trigger] ps[j]).id@ != id,
    decreases ps.len(),
{
    if ps.len() > 0 {
        lemma_profile_index(ps.drop_first(), id);
        assert forall|j: int| 0 <= j < ps.len() && (j < profile_index(ps, id) || profile_index(ps, id) < 0)
            implies (#[trigger] ps[j]).id@ != id by {
            if j > 0 {
                assert(ps[j] == ps.drop_first()[j - 1]);
            }
        }
    }
}

/// A position whose id is the first occurrence is what `profile_index` finds.
pub proof fn lemma_profile_index_at(ps: Seq<GameProfile>, id: Seq<char>, k: int)
    requires
        -1 <= k <= ps.len(),
        0 <= k < ps.len() ==> ps[k].id@ == id,
        forall|j: int| 0 <= j < ps.len() && (j < k || k < 0 || k == ps.len()) ==> (#[trigger] ps[j]).id@ != id,
    ensures
        profile_index(ps, id) == (if 0 <= k < ps.len() { k } else { -1 }),
{
    lemma_profile_index(ps, id);
    let i = profile_index(ps, id);
    if i >= 0 && 0 <= k < ps.len() && i != k {
        if i < k {
        } else {
            assert(ps[k].id@ != id);
        }
    }
}

/// Law: after a profile is saved, looking up its id finds it, and every other
/// id finds what it found before.
pub proof fn saved_profile_is_found(ps: Seq<GameProfile>, p: GameProfile, other: Seq<char>)
    requires
        other != p.id@,
    ensures
        ({
            let r = profiles_after_save(ps, p);
            &&& profile_index(r, p.id@) >= 0
            &&& r[profile_index(r, p.id@)] == p
            &&& profile_index(r, other) == profile_index(ps, other)
            &&& profile_index(ps, other) >= 0 ==> r[profile_index(r, other)] == ps[profile_index(ps, other)]
        }),
{
    let r = profiles_after_save(ps, p);
    lemma_profile_index(ps, p.id@);
    lemma_profile_index(ps, other);
    let i = profile_index(ps, p.id@);
    let o = profile_index(ps, other);
    if i >= 0 {
        assert forall|j: int| 0 <= j < r.len() && (j < i || i < 0 || i == r.len()) implies (#[trigger] r[j]).id@
            != p.id@ by {
            assert(r[j] == ps[j]);
        }
        lemma_profile_index_at(r, p.id@, i);
        assert forall|j: int| 0 <= j < r.len() && (j < o || o < 0 || o == r.len()) implies (#[trigger] r[j]).id@
            != other by {
            if j != i {
                assert(r[j] == ps[j]);
            }
        }
        if o >= 0 {
            assert(o != i);
            assert(r[o] == ps[o]);
        }
        lemma_profile_index_at(r, other, o);
    } else {
        let n = ps.len() as int;
        assert forall|j: int| 0 <= j < r.len() && (j < n || n < 0 || n == r.len()) implies (#[trigger] r[j]).id@
            != p.id@ by {
            assert(r[j] == ps[j]);
        }
        lemma_profile_index_at(r, p.id@, n);
        assert forall|j: int| 0 <= j < r.len() && (j < o || o < 0 || o == r.len()) implies (#[trigger] r[j]).id@
            != other by {
            if j < n {
                assert(r[j] == ps[j]);
            }
        }
        if o >= 0 {
            assert(r[o] == ps[o]);
        }
        lemma_profile_index_at(r, other, o);
    }
}

/// Every profile left after removing `id` was there before and has another id;
/// every profile with another id is left.
pub proof fn lemma_without_id(ps: Seq<GameProfile>, id: Seq<char>)
    ensures
        forall|x: GameProfile| #[trigger] without_id(ps, id).contains(x) ==> ps.contains(x) && x.id@ != id,
        forall|j: int| 0 <= j < ps.len() && (#[trigger] ps[j]).id@ != id ==> without_id(ps, id).contains(
            ps[j],
        ),
    decreases ps.len(),
{
    if ps.len() > 0 {
        let init = ps.drop_last();
        lemma_without_id(init, id);
        assert forall|x: GameProfile| #[trigger] without_id(ps, id).contains(x) implies ps.contains(x) && x.id@
            != id by {
            let w = without_id(ps, id);
            let k = choose|k: int| 0 <= k < w.len() && w[k] == x;
            if ps.last().id@ != id && k == w.len() - 1 {
                assert(ps[ps.len() - 1] == x);
            } else {
                assert(without_id(init, id).contains(x));
                let m = choose|m: int| 0 <= m < init.len() && init[m] == x;
                assert(ps[m] == x);
            }
        }
        assert forall|j: int| 0 <= j < ps.len() && (#[trigger] ps[j]).id@ != id implies without_id(
            ps,
            id,
        ).contains(ps[j]) by {
            let w = without_id(ps, id);
            if j == ps.len() - 1 {
                assert(w[w.len() - 1] == ps[j]);
            } else {
                assert(init[j] == ps[j]);
                assert(without_id(init, id).contains(ps[j]));
                let m = choose|m: int| 0 <= m < without_id(init, id).len() && without_id(init, id)[m] == ps[j];
                assert(w[m] == ps[j]);
            }
        }
    }
}

/// Law: after a profile is removed its id is no longer found, and every
/// profile with another id is kept.
pub proof fn removed_profile_is_gone(ps: Seq<GameProfile>, id: Seq<char>)
    ensures
        profile_index(without_id(ps, id), id) < 0,
        forall|j: int| 0 <= j < ps.len() && (#[trigger] ps[j]).id@ != id ==> without_id(ps, id).contains(
            ps[j],
        ),
{
    lemma_without_id(ps, id);
    let w = without_id(ps, id);
    lemma_profile_index(w, id);
    if profile_index(w, id) >= 0 {
        assert(w.contains(w[profile_index(w, id)]));
    }
}

/// The overrides after saving `o`.
pub open spec fn overrides_after_save(os: Seq<GameOverride>, o: GameOverride) -> Seq<GameOverride> {
    let i = override_index(os, o.game_id@, o.name@);
    if i >= 0 {
        os.update(i, o)
    } else {
        os.push(o)
    }
}

proof fn lemma_override_index(os: Seq<GameOverride>, gid: Seq<char>, name: Seq<char>)
    ensures
        -1 <= override_index(os, gid, name) < os.len(),
        override_index(os, gid, name) >= 0 ==> os[override_index(os, gid, name)].game_id@ == gid
            && os[override_index(os, gid, name)].name@ == name,
    decreases os.len(),
{
    if os.len() > 0 {
        lemma_override_index(os.drop_first(), gid, name);
    }
}

/// An override for game `gid` is among the game's overrides.
proof fn lemma_kept_for_game(os: Seq<GameOverride>, gid: Seq<char>, j: int)
    requires
        0 <= j < os.len(),
        os[j].game_id@ == gid,
    ensures
        kept_overrides(os, gid, None, true).contains(os[j]),
    decreases os.len(),
{
    let k = kept_overrides(os, gid, None, true);
    if j == os.len() - 1 {
        assert(k[k.len() - 1] == os[j]);
    } else {
        let init = os.drop_last();
        assert(init[j] == os[j]);
        lemma_kept_for_game(init, gid, j);
        let ki = kept_overrides(init, gid, None, true);
        let m = choose|m: int| 0 <= m < ki.len() && ki[m] == os[j];
        assert(k[m] == os[j]);
    }
}

/// What is left after deleting never holds an override of that game and
/// name, and keeps every other one.
proof fn lemma_kept_after_delete(os: Seq<GameOverride>, gid: Seq<char>, name: Seq<char>)
    ensures
        forall|x: GameOverride| #[trigger] kept_overrides(os, gid, Some(name), false).contains(x) ==> !(
        x.game_id@ == gid && x.name@ == name),
        forall|j: int| 0 <= j < os.len() && !((#[trigger] os[j]).game_id@ == gid && os[j].name@ == name)
            ==> kept_overrides(os, gid, Some(name), false).contains(os[j]),
    decreases os.len(),
{
    if os.len() > 0 {
        let init = os.drop_last();
        lemma_kept_after_delete(init, gid, name);
        let k = kept_overrides(os, gid, Some(name), false);
        let ki = kept_overrides(init, gid, Some(name), false);
        assert forall|x: GameOverride| #[trigger] k.contains(x) implies !(x.game_id@ == gid && x.name@
            == name) by {
            let m = choose|m: int| 0 <= m < k.len() && k[m] == x;
            if m < ki.len() {
                assert(ki[m] == x);
                assert(ki.contains(x));
            }
        }
        assert forall|j: int| 0 <= j < os.len() && !((#[trigger] os[j]).game_id@ == gid && os[j].name@
            == name) implies k.contains(os[j]) by {
            if j == os.len() - 1 {
                assert(k[k.len() - 1] == os[j]);
            } else {
                assert(init[j] == os[j]);
                assert(ki.contains(os[j]));
                let m = choose|m: int| 0 <= m < ki.len() && ki[m] == os[j];
                assert(k[m] == os[j]);
            }
        }
    }
}

/// Law: a saved override is among its game's overrides.
pub proof fn saved_override_is_listed(os: Seq<GameOverride>, o: GameOverride)
    ensures
        kept_overrides(overrides_after_save(os, o), o.game_id@, None, true).contains(o),
        override_index(overrides_after_save(os, o), o.game_id@, o.name@) >= 0,
{
    let r = overrides_after_save(os, o);
    lemma_override_index(os, o.game_id@, o.name@);
    let i = override_index(os, o.game_id@, o.name@);
    let j = if i >= 0 { i } else { os.len() as int };
    assert(r[j] == o);
    lemma_kept_for_game(r, o.game_id@, j);
    lemma_override_index(r, o.game_id@, o.name@);
    if override_index(r, o.game_id@, o.name@) < 0 {
        lemma_override_absent(r, o.game_id@, o.name@, j);
    }
}

proof fn lemma_override_absent(os: Seq<GameOverride>, gid: Seq<char>, name: Seq<char>, j: int)
    requires
        0 <= j < os.len(),
        os[j].game_id@ == gid && os[j].name@ == name,
    ensures
        override_index(os, gid, name) >= 0,
    decreases os.len(),
{
    if j > 0 && !(os[0].game_id@ == gid && os[0].name@ == name) {
        assert(os.drop_first()[j - 1] == os[j]);
        lemma_override_absent(os.drop_first(), gid, name, j - 1);
    }
}

/// Law: after deleting a game's override of some name, none of that game
/// and name is left, and every other override is kept.
pub proof fn deleted_override_is_gone(os: Seq<GameOverride>, gid: Seq<char>, name: Seq<char>)
    ensures
        forall|x: GameOverride| #[trigger] kept_overrides(os, gid, Some(name), false).contains(x) ==> !(
        x.game_id@ == gid && x.name@ == name),
        forall|j: int| 0 <= j < os.len() && !((#[trigger] os[j]).game_id@ == gid && os[j].name@ == name)
            ==> kept_overrides(os, gid, Some(name), false).contains(os[j]),
{
    lemma_kept_after_delete(os, gid, name);
}

} // verus!
