//! The table of known games (keyed by Steam app id) and lookups in it.
use vstd::prelude::*;
use crate::text::{chars_of, has_prefix, str_eq, string_of, subvec};

verus! {

/// One known game: its Steam app id, the other ids it goes by, and what
/// the application knows of it.
#[derive(Debug, Clone)]
pub struct KnownGameEntry {
    pub app_id: String,
    pub game_ids: Vec<String>,
    pub engine_family: Option<String>,
    pub reshade_pack: Option<String>,
    pub suggested_reshade_api: Option<String>,
    pub overlay_preset: Option<String>,
    pub unity_data_subdir: Option<String>,
    pub local_low_folder: Option<String>,
}

/// Some element of `xs` has the view `x`.
pub open spec fn any_eq(xs: Seq<String>, x: Seq<char>) -> bool {
    exists|i: int| 0 <= i < xs.len() && (#[trigger] xs[i])@ == x
}

/// App id of the first entry that lists `gid` among its ids.
pub open spec fn alias_owner(es: Seq<KnownGameEntry>, gid: Seq<char>) -> Option<Seq<char>>
    decreases es.len(),
{
    if es.len() == 0 {
        None
    } else if any_eq(es[0].game_ids@, gid) {
        Some(es[0].app_id@)
    } else {
        alias_owner(es.drop_first(), gid)
    }
}

pub open spec fn has_app_id(es: Seq<KnownGameEntry>, a: Seq<char>) -> bool {
    exists|i: int| 0 <= i < es.len() && (#[trigger] es[i]).app_id@ == a
}

/// The Steam app id a game id stands for: the entry listing it, else the
/// number of a `steam-<n>` id when `n` is a known app id.
pub open spec fn known_app_id(es: Seq<KnownGameEntry>, gid: Seq<char>) -> Option<Seq<char>> {
    match alias_owner(es, gid) {
        Some(a) => Some(a),
        None => if has_prefix(gid, "steam-"@) && has_app_id(es, gid.skip(6)) {
            Some(gid.skip(6))
        } else {
            None
        },
    }
}

/// Index of the first entry with app id `a`, or -1.
pub open spec fn entry_index(es: Seq<KnownGameEntry>, a: Seq<char>) -> int
    decreases es.len(),
{
    if es.len() == 0 {
        -1
    } else if es[0].app_id@ == a {
        0
    } else {
        let r = entry_index(es.drop_first(), a);
        if r < 0 {
            -1
        } else {
            r + 1
        }
    }
}

/// The entry for the game behind `gid`.
pub open spec fn entry_for_game(es: Seq<KnownGameEntry>, gid: Seq<char>) -> Option<KnownGameEntry> {
    match known_app_id(es, gid) {
        Some(a) => if entry_index(es, a) >= 0 {
            Some(es[entry_index(es, a)])
        } else {
            None
        },
        None => None,
    }
}

pub open spec fn opt_sv(o: Option<String>) -> Option<Seq<char>> {
    match o {
        Some(s) => Some(s@),
        None => None,
    }
}

/// The overlay preset recorded for the game behind `gid`.
pub open spec fn overlay_for_game(es: Seq<KnownGameEntry>, gid: Seq<char>) -> Option<Seq<char>> {
    match entry_for_game(es, gid) {
        Some(e) => opt_sv(e.overlay_preset),
        None => None,
    }
}

pub proof fn lemma_entry_index(es: Seq<KnownGameEntry>, a: Seq<char>)
    ensures
        -1 <= entry_index(es, a) < es.len(),
        entry_index(es, a) >= 0 ==> es[entry_index(es, a)].app_id@ == a,
        entry_index(es, a) >= 0 ==> forall|j: int| 0 <= j < entry_index(es, a) ==> es[j].app_id@ != a,
        entry_index(es, a) < 0 ==> !has_app_id(es, a),
    decreases es.len(),
{
    if es.len() > 0 && es[0].app_id@ != a {
        lemma_entry_index(es.drop_first(), a);
        if entry_index(es, a) < 0 {
            assert forall|i: int| 0 <= i < es.len() implies (#[trigger] es[i]).app_id@ != a by {
                if i > 0 {
                    assert(es.drop_first()[i - 1] == es[i]);
                }
            }
        } else {
            assert forall|j: int| 0 <= j < entry_index(es, a) implies es[j].app_id@ != a by {
                if j > 0 {
                    assert(es.drop_first()[j - 1] == es[j]);
                }
            }
        }
    }
}

/// Whether some element of `xs` equals `x`.
pub fn list_has(xs: &Vec<String>, x: &Vec<char>) -> (r: bool)
    ensures
        r == any_eq(xs@, x@),
{
    let mut i: usize = 0;
    while i < xs.len()
        invariant
            i <= xs.len(),
            forall|j: int| 0 <= j < i ==> (#[trigger] xs@[j])@ != x@,
        decreases xs.len() - i,
    {
        let c = chars_of(xs[i].as_str());
        if crate::text::seq_eq(&c, x) {
            return true;
        }
        i += 1;
    }
    false
}

fn alias_owner_exec(es: &Vec<KnownGameEntry>, gid: &Vec<char>) -> (r: Option<String>)
    ensures
        opt_sv(r) == alias_owner(es@, gid@),
{
    let mut i: usize = 0;
    assert(es@.skip(0) =~= es@);
    while i < es.len()
        invariant
            i <= es.len(),
            alias_owner(es@, gid@) == alias_owner(es@.skip(i as int), gid@),
        decreases es.len() - i,
    {
        let ghost rest = es@.skip(i as int);
        assert(rest[0] == es@[i as int]);
        assert(rest.drop_first() =~= es@.skip(i + 1));
        if list_has(&es[i].game_ids, gid) {
            return Some(es[i].app_id.clone());
        }
        i += 1;
    }
    None
}

/// Index of the first entry with the given app id.
pub fn entry_index_exec(es: &Vec<KnownGameEntry>, a: &Vec<char>) -> (r: Option<usize>)
    ensures
        match r {
            Some(i) => i < es.len() && entry_index(es@, a@) == i,
            None => entry_index(es@, a@) == -1,
        },
{
    let mut i: usize = 0;
    assert(es@.skip(0) =~= es@);
    while i < es.len()
        invariant
            i <= es.len(),
            entry_index(es@, a@) == (if entry_index(es@.skip(i as int), a@) < 0 {
                -1
            } else {
                entry_index(es@.skip(i as int), a@) + i
            }),
        decreases es.len() - i,
    {
        let ghost rest = es@.skip(i as int);
        assert(rest[0] == es@[i as int]);
        assert(rest.drop_first() =~= es@.skip(i + 1));
        let c = chars_of(es[i].app_id.as_str());
        if crate::text::seq_eq(&c, a) {
            return Some(i);
        }
        i += 1;
    }
    assert(es@.skip(es.len() as int) =~= Seq::<KnownGameEntry>::empty());
    None
}

/// The Steam app id a game id stands for (see `known_app_id`).
pub fn known_app_id_for_game(es: &Vec<KnownGameEntry>, game_id: &str) -> (r: Option<String>)
    ensures
        opt_sv(r) == known_app_id(es@, game_id@),
{
    let gid = chars_of(game_id);
    match alias_owner_exec(es, &gid) {
        Some(a) => Some(a),
        None => {
            let prefix = chars_of("steam-");
            proof {
                reveal_strlit("steam-");
            }
            if crate::text::starts_with(&gid, &prefix) {
                let rest = subvec(&gid, 6, gid.len());
                assert(rest@ =~= gid@.skip(6));
                match entry_index_exec(es, &rest) {
                    Some(_) => {
                        proof {
                            lemma_entry_index(es@, rest@);
                        }
                        Some(string_of(&rest))
                    },
                    None => {
                        proof {
                            lemma_entry_index(es@, rest@);
                        }
                        None
                    },
                }
            } else {
                None
            }
        },
    }
}

/// The known-games entry for the game behind `game_id`.
pub fn entry_for_game_exec<'a>(es: &'a Vec<KnownGameEntry>, game_id: &str) -> (r: Option<&'a KnownGameEntry>)
    ensures
        match r {
            Some(e) => entry_for_game(es@, game_id@) == Some(*e),
            None => entry_for_game(es@, game_id@) is None,
        },
{
    match known_app_id_for_game(es, game_id) {
        Some(a) => {
            let av = chars_of(a.as_str());
            match entry_index_exec(es, &av) {
                Some(i) => Some(&es[i]),
                None => None,
            }
        },
        None => None,
    }
}

/// The overlay preset recorded for the game behind `game_id`.
pub fn overlay_preset_for_game(es: &Vec<KnownGameEntry>, game_id: &str) -> (r: Option<String>)
    ensures
        opt_sv(r) == overlay_for_game(es@, game_id@),
{
    match entry_for_game_exec(es, game_id) {
        Some(e) => e.overlay_preset.clone(),
        None => None,
    }
}

} // verus!
