//! Where ReShade goes (next to the game's executable), which executable is
//! the game's, and the check that the game is not running.
use vstd::prelude::*;
use crate::models::GameProfile;
use crate::paths::join_spec;
use crate::text::{chars_of, eq_ic, eq_ignore_case, has_suffix, lower, lower_vec, trim, trim_str};

verus! {

/// An executable found under a directory: its path, the directory it is in
/// and its file name (as `Path::parent` and `Path::file_name` give them).
#[derive(Debug, Clone)]
pub struct ExeEntry {
    pub path: String,
    pub parent: Option<String>,
    pub file_name: Option<String>,
}

#[derive(Debug, Clone, PartialEq, Eq)]
pub enum ResolveError {
    InstallDirMissing(String),
    NoExeDir,
    NoExe,
    /// The game's executable could not be determined.
    UnknownExe,
    /// The game is running.
    GameRunning(String),
}

/// An executable name with `.exe` added unless it already ends so (any
/// case).
pub open spec fn exe_file(name: Seq<char>) -> Seq<char> {
    if has_suffix(lower(name), ".exe"@) {
        name
    } else {
        name + ".exe"@
    }
}

pub fn normalize_exe_name(name: &str) -> (r: String)
    ensures
        r@ == exe_file(name@),
{
    let l = lower_vec(&chars_of(name));
    if crate::text::ends_with_str(&l, ".exe") {
        crate::text::owned(name)
    } else {
        let mut v = chars_of(name);
        crate::text::append_str(&mut v, ".exe");
        crate::text::string_of(&v)
    }
}

/// The install directory as stored, trimmed.
pub fn install_path(profile: &GameProfile) -> (r: String)
    ensures
        r@ == trim(profile.install_dir@),
{
    let t = trim_str(profile.install_dir.as_str());
    crate::text::string_of(&t)
}

/// The executable name a profile names, when it is not empty.
pub open spec fn profile_exe(p: GameProfile) -> Option<Seq<char>> {
    match p.exe_name {
        Some(e) => if e@.len() > 0 {
            Some(e@)
        } else {
            None
        },
        None => None,
    }
}

/// Index of the first executable whose file name is `target` ignoring
/// ASCII case, or -1.
pub open spec fn named_exe_index(exes: Seq<ExeEntry>, target: Seq<char>) -> int
    decreases exes.len(),
{
    if exes.len() == 0 {
        -1
    } else if exes[0].file_name is Some && eq_ic(exes[0].file_name->0@, target) {
        0
    } else {
        let r = named_exe_index(exes.drop_first(), target);
        if r < 0 {
            -1
        } else {
            r + 1
        }
    }
}

fn named_exe(exes: &Vec<ExeEntry>, target: &str) -> (r: Option<usize>)
    ensures
        match r {
            Some(i) => i < exes.len() && named_exe_index(exes@, target@) == i,
            None => named_exe_index(exes@, target@) == -1,
        },
{
    let tv = chars_of(target);
    let mut i: usize = 0;
    assert(exes@.skip(0) =~= exes@);
    while i < exes.len()
        invariant
            i <= exes.len(),
            tv@ == target@,
            named_exe_index(exes@, target@) == (if named_exe_index(exes@.skip(i as int), target@)
                < 0 {
                -1
            } else {
                named_exe_index(exes@.skip(i as int), target@) + i
            }),
        decreases exes.len() - i,
    {
        let ghost rest = exes@.skip(i as int);
        assert(rest[0] == exes@[i as int]);
        assert(rest.drop_first() =~= exes@.skip(i + 1));
        match &exes[i].file_name {
            Some(n) => {
                let nv = chars_of(n.as_str());
                if eq_ignore_case(&nv, &tv) {
                    return Some(i);
                }
            },
            None => {},
        }
        i += 1;
    }
    assert(exes@.skip(i as int) =~= Seq::<ExeEntry>::empty());
    None
}

pub open spec fn opt_parent(e: ExeEntry) -> Option<Seq<char>> {
    match e.parent {
        Some(p) => Some(p@),
        None => None,
    }
}

/// The directory of the executable named `exe_name`: the parent of the
/// first listed match, else the install directory when the executable
/// lies directly in it (`direct_is_file`).
pub open spec fn exe_parent_spec(
    install: Seq<char>,
    exe_name: Seq<char>,
    exes: Seq<ExeEntry>,
    direct_is_file: bool,
) -> Option<Seq<char>> {
    let i = named_exe_index(exes, exe_file(exe_name));
    if i >= 0 {
        opt_parent(exes[i])
    } else if direct_is_file {
        Some(install)
    } else {
        None
    }
}

pub fn find_exe_parent(install: &str, exe_name: &str, exes: &Vec<ExeEntry>, direct_is_file: bool) -> (r:
    Option<String>)
    ensures
        crate::known_games::opt_sv(r) == exe_parent_spec(install@, exe_name@, exes@, direct_is_file),
{
    let target = normalize_exe_name(exe_name);
    match named_exe(exes, target.as_str()) {
        Some(i) => match &exes[i].parent {
            Some(p) => Some(crate::text::owned(p.as_str())),
            None => None,
        },
        None => {
            if direct_is_file {
                Some(crate::text::owned(install))
            } else {
                None
            }
        },
    }
}

/// The directory ReShade is installed into: next to the profile's
/// executable when it is found, else next to the first executable found,
/// else the install directory itself.
pub open spec fn install_target_spec(
    p: GameProfile,
    install_exists: bool,
    exes: Seq<ExeEntry>,
    direct_is_file: bool,
) -> Result<Seq<char>, u8> {
    let install = trim(p.install_dir@);
    if !install_exists {
        Err(0u8)
    } else if profile_exe(p) is Some && exe_parent_spec(
        install,
        profile_exe(p)->0,
        exes,
        direct_is_file,
    ) is Some {
        Ok(exe_parent_spec(install, profile_exe(p)->0, exes, direct_is_file)->0)
    } else if exes.len() > 0 {
        match opt_parent(exes[0]) {
            Some(d) => Ok(d),
            None => Err(1u8),
        }
    } else {
        Ok(install)
    }
}

/// The profile names no executable, or the one it names is neither listed
/// (by file name, ignoring case) with a directory nor lying directly in
/// the install directory.
pub open spec fn exe_not_found(p: GameProfile, exes: Seq<ExeEntry>, direct_is_file: bool) -> bool {
    match profile_exe(p) {
        None => true,
        Some(n) => {
            let i = named_exe_index(exes, exe_file(n));
            if i >= 0 {
                exes[i].parent is None
            } else {
                !direct_is_file
            }
        },
    }
}

/// Law: ReShade goes next to the game's executable. When the install
/// directory exists: next to the profile's executable when it is found;
/// otherwise next to the first executable found (an error when that one
/// has no directory); and into the install directory only when no
/// executable was found at all. A missing install directory is an error.
pub proof fn install_target_next_to_exe(
    p: GameProfile,
    install_exists: bool,
    exes: Seq<ExeEntry>,
    direct_is_file: bool,
)
    ensures
        !install_exists ==> install_target_spec(p, install_exists, exes, direct_is_file) == Err::<
            Seq<char>,
            u8,
        >(0u8),
        install_exists ==> (profile_exe(p) matches Some(n) ==> (exe_parent_spec(
            trim(p.install_dir@),
            n,
            exes,
            direct_is_file,
        ) matches Some(d) ==> install_target_spec(p, install_exists, exes, direct_is_file) == Ok::<
            Seq<char>,
            u8,
        >(d))),
        install_exists && exe_not_found(p, exes, direct_is_file) && exes.len() > 0 ==> (match exes[0].parent {
            Some(d) => install_target_spec(p, install_exists, exes, direct_is_file) == Ok::<Seq<char>, u8>(d@),
            None => install_target_spec(p, install_exists, exes, direct_is_file) == Err::<Seq<char>, u8>(1u8),
        }),
        install_exists && exe_not_found(p, exes, direct_is_file) && exes.len() == 0
            ==> install_target_spec(p, install_exists, exes, direct_is_file) == Ok::<Seq<char>, u8>(
            trim(p.install_dir@),
        ),
{
}

pub open spec fn resolve_kind(r: Result<String, ResolveError>) -> Result<Seq<char>, u8> {
    match r {
        Ok(s) => Ok(s@),
        Err(ResolveError::InstallDirMissing(_)) => Err(0u8),
        Err(ResolveError::NoExeDir) => Err(1u8),
        Err(ResolveError::NoExe) => Err(2u8),
        Err(ResolveError::UnknownExe) => Err(3u8),
        Err(ResolveError::GameRunning(_)) => Err(4u8),
    }
}

/// Resolves the install target from what was found on disk: whether the
/// trimmed install directory exists, the executables under it in listing
/// order, and whether the profile's executable lies directly in it.
pub fn resolve_install_target(
    profile: &GameProfile,
    install_exists: bool,
    exes: &Vec<ExeEntry>,
    direct_is_file: bool,
) -> (r: Result<String, ResolveError>)
    ensures
        resolve_kind(r) == install_target_spec(*profile, install_exists, exes@, direct_is_file),
        r matches Err(ResolveError::InstallDirMissing(d)) ==> d@ == trim(profile.install_dir@),
        !install_exists ==> r is Err,
        install_exists ==> (profile_exe(*profile) matches Some(n) ==> (exe_parent_spec(
            trim(profile.install_dir@),
            n,
            exes@,
            direct_is_file,
        ) matches Some(d) ==> (r matches Ok(t) && t@ == d))),
        install_exists && exe_not_found(*profile, exes@, direct_is_file) && exes.len() > 0 ==> (
        match exes@[0].parent {
            Some(d) => r matches Ok(t) && t@ == d@,
            None => r matches Err(ResolveError::NoExeDir),
        }),
        install_exists && exe_not_found(*profile, exes@, direct_is_file) && exes.len() == 0 ==> (r matches Ok(
            t,
        ) && t@ == trim(profile.install_dir@)),
{
    proof {
        install_target_next_to_exe(*profile, install_exists, exes@, direct_is_file);
    }
    let install = install_path(profile);
    if !install_exists {
        return Err(ResolveError::InstallDirMissing(install));
    }
    match &profile.exe_name {
        Some(e) => {
            if chars_of(e.as_str()).len() > 0 {
                match find_exe_parent(install.as_str(), e.as_str(), exes, direct_is_file) {
                    Some(d) => {
                        return Ok(d);
                    },
                    None => {},
                }
            }
        },
        None => {},
    }
    if exes.len() > 0 {
        return match &exes[0].parent {
            Some(d) => Ok(crate::text::owned(d.as_str())),
            None => Err(ResolveError::NoExeDir),
        };
    }
    Ok(install)
}

/// The game's executable under the install target: the profile's one when
/// it lies directly there or is found (by name, ignoring case), else the
/// first executable found.
pub open spec fn game_exe_spec(
    target: Seq<char>,
    exe_name: Option<Seq<char>>,
    direct_is_file: bool,
    exes: Seq<ExeEntry>,
) -> Option<Seq<char>> {
    let named = match exe_name {
        Some(n) => if n.len() > 0 {
            if direct_is_file {
                Some(join_spec(target, exe_file(n)))
            } else if named_exe_index(exes, exe_file(n)) >= 0 {
                Some(exes[named_exe_index(exes, exe_file(n))].path@)
            } else {
                None
            }
        } else {
            None
        },
        None => None,
    };
    if named is Some {
        named
    } else if exes.len() > 0 {
        Some(exes[0].path@)
    } else {
        None
    }
}

/// Picks the game's executable; `direct_is_file` tells whether the
/// profile's executable lies directly in `target`, `exes` lists the
/// executables under it.
pub fn resolve_game_exe_path(
    target: &str,
    exe_name: Option<&str>,
    direct_is_file: bool,
    exes: &Vec<ExeEntry>,
) -> (r: Result<String, ResolveError>)
    ensures
        match game_exe_spec(
            target@,
            match exe_name {
                Some(n) => Some(n@),
                None => None,
            },
            direct_is_file,
            exes@,
        ) {
            Some(p) => r matches Ok(s) && s@ == p,
            None => r == Err::<String, ResolveError>(ResolveError::NoExe),
        },
{
    match exe_name {
        Some(n) => {
            if chars_of(n).len() > 0 {
                let file = normalize_exe_name(n);
                if direct_is_file {
                    return Ok(crate::paths::join(target, file.as_str()));
                }
                match named_exe(exes, file.as_str()) {
                    Some(i) => {
                        return Ok(crate::text::owned(exes[i].path.as_str()));
                    },
                    None => {},
                }
            }
        },
        None => {},
    }
    if exes.len() > 0 {
        Ok(crate::text::owned(exes[0].path.as_str()))
    } else {
        Err(ResolveError::NoExe)
    }
}

/// The executable name to look for among running processes: the
/// profile's, else the file name of the resolved executable.
pub fn running_exe_name(profile: &GameProfile, resolved_file_name: Option<&str>) -> (r: Option<
    String,
>)
    ensures
        crate::known_games::opt_sv(r) == match profile_exe(*profile) {
            Some(e) => Some(exe_file(e)),
            None => match resolved_file_name {
                Some(f) => Some(exe_file(f@)),
                None => None,
            },
        },
{
    match &profile.exe_name {
        Some(e) => {
            if chars_of(e.as_str()).len() > 0 {
                return Some(normalize_exe_name(e.as_str()));
            }
        },
        None => {},
    }
    match resolved_file_name {
        Some(f) => Some(normalize_exe_name(f)),
        None => None,
    }
}

/// ReShade files may only change while the game is closed: refused when
/// its executable is unknown or running.
pub fn ensure_game_not_running(exe: Option<String>, running: bool) -> (r: Result<(), ResolveError>)
    ensures
        exe is None ==> r == Err::<(), ResolveError>(ResolveError::UnknownExe),
        exe is Some && running ==> r == Err::<(), ResolveError>(
            ResolveError::GameRunning(exe->0),
        ),
        exe is Some && !running ==> r is Ok,
{
    match exe {
        None => Err(ResolveError::UnknownExe),
        Some(e) => if running {
            Err(ResolveError::GameRunning(e))
        } else {
            Ok(())
        },
    }
}

} // verus!
