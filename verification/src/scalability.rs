//! Unreal Engine scalability limits: the highest level of each quality
//! group, from the game's scalability INIs and custom levels in
//! GameUserSettings.ini.
use regex::Regex;
use vstd::prelude::*;
use crate::text::{
    chars_of, has_prefix, has_suffix, lines_of, lines_vec, parse_u32_of, parse_u32_vec, split_once_of,
    split_once_vec, string_of, subvec, trim, trim_vec, views,
};

verus! {

/// The standard UE maximum: 0 Low, 1 Medium, 2 High, 3 Epic, 4 Cinematic.
pub const UE_DEFAULT_SCALABILITY_MAX: u32 = 4;

/// The quality groups every limit set covers.
pub open spec fn quality_groups() -> Seq<Seq<char>> {
    seq![
        "ViewDistanceQuality"@,
        "AntiAliasingQuality"@,
        "ShadowQuality"@,
        "GlobalIlluminationQuality"@,
        "ReflectionQuality"@,
        "PostProcessQuality"@,
        "TextureQuality"@,
        "EffectsQuality"@,
        "FoliageQuality"@,
        "ShadingQuality"@,
        "LandscapeQuality"@,
        "CloudsQuality"@,
    ]
}

pub fn quality_index_groups() -> (r: Vec<&'static str>)
    ensures
        r@.map_values(|s: &str| s@) == quality_groups(),
{
    let r = vec![
        "ViewDistanceQuality",
        "AntiAliasingQuality",
        "ShadowQuality",
        "GlobalIlluminationQuality",
        "ReflectionQuality",
        "PostProcessQuality",
        "TextureQuality",
        "EffectsQuality",
        "FoliageQuality",
        "ShadingQuality",
        "LandscapeQuality",
        "CloudsQuality",
    ];
    assert(r@.map_values(|s: &str| s@) =~= quality_groups());
    r
}

/// A key that holds a quality index (0 to 4 or more): `sg.<…>Quality`, but
/// not the resolution scale `sg.ResolutionQuality`, which is a percentage.
pub open spec fn quality_index_key(k: Seq<char>) -> bool {
    has_prefix(k, "sg."@) && k != "sg.ResolutionQuality"@ && has_suffix(k.skip(3), "Quality"@)
}

pub fn is_scalability_quality_index(sg_key: &str) -> (r: bool)
    ensures
        r == quality_index_key(sg_key@),
{
    proof {
        reveal_strlit("sg.");
    }
    let v = chars_of(sg_key);
    if !crate::text::starts_with_str(&v, "sg.") {
        return false;
    }
    if crate::text::str_eq(sg_key, "sg.ResolutionQuality") {
        return false;
    }
    let g = subvec(&v, 3, v.len());
    assert(g@ == v@.skip(3));
    crate::text::ends_with_str(&g, "Quality")
}

// ---------------------------------------------------------------------------
// Level maps
// ---------------------------------------------------------------------------
/// The map a list of `(group, level)` pairs stands for (later pairs win;
/// the lists built here have distinct groups).
pub open spec fn as_map(v: Seq<(String, u32)>) -> Map<Seq<char>, u32>
    decreases v.len(),
{
    if v.len() == 0 {
        Map::empty()
    } else {
        as_map(v.drop_last()).insert(v.last().0@, v.last().1)
    }
}

pub open spec fn distinct_keys(v: Seq<(String, u32)>) -> bool {
    forall|i: int, j: int| 0 <= i < j < v.len() ==> (#[trigger] v[i]).0@ != (#[trigger] v[j]).0@
}

/// Records a level: the larger of the old and the new one.
pub open spec fn max_insert(m: Map<Seq<char>, u32>, k: Seq<char>, x: u32) -> Map<Seq<char>, u32> {
    if m.contains_key(k) && m[k] >= x {
        m
    } else {
        m.insert(k, x)
    }
}

/// Adds a level only when the group has none.
pub open spec fn insert_absent(m: Map<Seq<char>, u32>, k: Seq<char>, x: u32) -> Map<Seq<char>, u32> {
    if m.contains_key(k) {
        m
    } else {
        m.insert(k, x)
    }
}

proof fn lemma_as_map_keys(v: Seq<(String, u32)>)
    ensures
        forall|k: Seq<char>|
            as_map(v).contains_key(k) <==> exists|i: int| 0 <= i < v.len() && (#[trigger] v[i]).0@ == k,
        as_map(v).dom().finite(),
    decreases v.len(),
{
    if v.len() > 0 {
        lemma_as_map_keys(v.drop_last());
        assert forall|k: Seq<char>|
            as_map(v).contains_key(k) <==> exists|i: int| 0 <= i < v.len() && (#[trigger] v[i]).0@ == k by {
            if as_map(v).contains_key(k) && k != v.last().0@ {
                let i = choose|i: int| 0 <= i < v.drop_last().len() && (#[trigger] v.drop_last()[i]).0@ == k;
                assert(v[i] == v.drop_last()[i]);
            }
            if as_map(v).contains_key(k) && k == v.last().0@ {
                assert(v[v.len() - 1].0@ == k);
            }
            if exists|i: int| 0 <= i < v.len() && (#[trigger] v[i]).0@ == k {
                let i = choose|i: int| 0 <= i < v.len() && (#[trigger] v[i]).0@ == k;
                if i < v.len() - 1 {
                    assert(v.drop_last()[i] == v[i]);
                }
            }
        }
    }
}

/// With distinct groups, entry `i` gives the level of its group.
proof fn lemma_as_map_at(v: Seq<(String, u32)>, i: int)
    requires
        distinct_keys(v),
        0 <= i < v.len(),
    ensures
        as_map(v).contains_key(v[i].0@),
        as_map(v)[v[i].0@] == v[i].1,
    decreases v.len(),
{
    if i < v.len() - 1 {
        assert(v.drop_last()[i] == v[i]);
        lemma_as_map_at(v.drop_last(), i);
        assert(v.last().0@ != v[i].0@);
    }
}

/// Replacing the level of entry `i` (distinct groups) updates the map.
proof fn lemma_as_map_update(v: Seq<(String, u32)>, i: int, x: u32)
    requires
        distinct_keys(v),
        0 <= i < v.len(),
    ensures
        as_map(v.update(i, (v[i].0, x))) == as_map(v).insert(v[i].0@, x),
    decreases v.len(),
{
    let w = v.update(i, (v[i].0, x));
    if i == v.len() - 1 {
        assert(w.drop_last() =~= v.drop_last());
        assert(as_map(v).insert(v[i].0@, x) =~= as_map(v.drop_last()).insert(v[i].0@, x));
    } else {
        assert(w.drop_last() =~= v.drop_last().update(i, (v[i].0, x)));
        assert(v.drop_last()[i] == v[i]);
        lemma_as_map_update(v.drop_last(), i, x);
        assert(v.last().0@ != v[i].0@);
        assert(as_map(w) =~= as_map(v).insert(v[i].0@, x));
    }
}

fn find_group(v: &Vec<(String, u32)>, k: &str) -> (r: Option<usize>)
    ensures
        match r {
            Some(i) => i < v.len() && v@[i as int].0@ == k@,
            None => forall|i: int| 0 <= i < v@.len() ==> (#[trigger] v@[i]).0@ != k@,
        },
{
    let mut i: usize = 0;
    while i < v.len()
        invariant
            i <= v.len(),
            forall|j: int| 0 <= j < i ==> (#[trigger] v@[j]).0@ != k@,
        decreases v.len() - i,
    {
        if crate::text::str_eq(v[i].0.as_str(), k) {
            return Some(i);
        }
        i += 1;
    }
    None
}

/// The level recorded for a group.
pub fn level_of(v: &Vec<(String, u32)>, k: &str) -> (r: Option<u32>)
    requires
        distinct_keys(v@),
    ensures
        match r {
            Some(x) => as_map(v@).contains_key(k@) && as_map(v@)[k@] == x,
            None => !as_map(v@).contains_key(k@),
        },
{
    proof {
        lemma_as_map_keys(v@);
    }
    match find_group(v, k) {
        Some(i) => {
            proof {
                lemma_as_map_at(v@, i as int);
            }
            Some(v[i].1)
        },
        None => None,
    }
}

/// Records a level for a group, keeping the larger one.
pub fn record_max(v: &mut Vec<(String, u32)>, k: &str, x: u32)
    requires
        distinct_keys(old(v)@),
    ensures
        distinct_keys(final(v)@),
        as_map(final(v)@) == max_insert(as_map(old(v)@), k@, x),
{
    proof {
        lemma_as_map_keys(v@);
    }
    match find_group(v, k) {
        Some(i) => {
            proof {
                lemma_as_map_at(v@, i as int);
            }
            if v[i].1 < x {
                let key = v[i].0.clone();
                let ghost before = v@;
                v.set(i, (key, x));
                proof {
                    lemma_as_map_update(before, i as int, x);
                    assert forall|a: int, b: int| 0 <= a < b < v@.len() implies (#[trigger] v@[a]).0@
                        != (#[trigger] v@[b]).0@ by {
                        assert(v@[a].0 == before[a].0);
                        assert(v@[b].0 == before[b].0);
                    }
                }
            }
        },
        None => {
            let ghost before = v@;
            v.push((crate::text::owned(k), x));
            proof {
                assert(v@.drop_last() =~= before);
                assert forall|a: int, b: int| 0 <= a < b < v@.len() implies (#[trigger] v@[a]).0@
                    != (#[trigger] v@[b]).0@ by {
                    if b == v@.len() - 1 {
                        assert(before[a] == v@[a]);
                    } else {
                        assert(before[a] == v@[a]);
                        assert(before[b] == v@[b]);
                    }
                }
            }
        },
    }
}

/// Adds a level for a group that has none.
pub fn record_if_absent(v: &mut Vec<(String, u32)>, k: &str, x: u32)
    requires
        distinct_keys(old(v)@),
    ensures
        distinct_keys(final(v)@),
        as_map(final(v)@) == insert_absent(as_map(old(v)@), k@, x),
{
    proof {
        lemma_as_map_keys(v@);
    }
    match find_group(v, k) {
        Some(i) => {
            proof {
                lemma_as_map_at(v@, i as int);
            }
        },
        None => {
            let ghost before = v@;
            v.push((crate::text::owned(k), x));
            proof {
                assert(v@.drop_last() =~= before);
                assert forall|a: int, b: int| 0 <= a < b < v@.len() implies (#[trigger] v@[a]).0@
                    != (#[trigger] v@[b]).0@ by {
                    if b == v@.len() - 1 {
                        assert(before[a] == v@[a]);
                    } else {
                        assert(before[a] == v@[a]);
                        assert(before[b] == v@[b]);
                    }
                }
            }
        },
    }
}

/// `target` with each level of `source` recorded by its maximum.
pub open spec fn merged_max(target: Map<Seq<char>, u32>, source: Seq<(String, u32)>) -> Map<
    Seq<char>,
    u32,
>
    decreases source.len(),
{
    if source.len() == 0 {
        target
    } else {
        max_insert(merged_max(target, source.drop_last()), source.last().0@, source.last().1)
    }
}

/// Records every level of `source` into `target`, keeping maxima.
pub fn merge_max_map(target: &mut Vec<(String, u32)>, source: &Vec<(String, u32)>)
    requires
        distinct_keys(old(target)@),
    ensures
        distinct_keys(final(target)@),
        as_map(final(target)@) == merged_max(as_map(old(target)@), source@),
{
    let ghost t0 = as_map(target@);
    let mut i: usize = 0;
    while i < source.len()
        invariant
            i <= source.len(),
            distinct_keys(target@),
            as_map(target@) == merged_max(t0, source@.take(i as int)),
        decreases source.len() - i,
    {
        assert(source@.take(i + 1).drop_last() =~= source@.take(i as int));
        record_max(target, source[i].0.as_str(), source[i].1);
        i += 1;
    }
    assert(source@.take(i as int) =~= source@);
}

// ---------------------------------------------------------------------------
// Reading INI text
// ---------------------------------------------------------------------------
/// What the pattern `^\[([A-Za-z]+Quality)@(\d+)\]` captures in a line:
/// the group name and the digits (`\d` is Unicode-aware).
pub uninterp spec fn quality_header(line: Seq<char>) -> Option<(Seq<char>, Seq<char>)>;

/// ASCII letters only.
pub open spec fn ascii_letters(s: Seq<char>) -> bool {
    forall|i: int| 0 <= i < s.len() ==> ('a' <= #[trigger] s[i] <= 'z') || ('A' <= s[i] <= 'Z')
}

/// Calls `regex::Regex::captures` with the pattern
/// `^\[([A-Za-z]+Quality)@(\d+)\]`. Claimed: the two captured texts are a
/// function of the line alone, named `quality_header`; and, as the pattern
/// reads, the line starts with `[group@digits]`, the group is ASCII letters
/// ending in `Quality` with at least one before it, and the digits are not
/// empty (`\d` is Unicode-aware, so which characters count as digits is
/// left unsaid).
#[verifier::external_body]
fn header_captures(line: &str) -> (r: Option<(String, String)>)
    ensures
        match r {
            Some((g, d)) => quality_header(line@) == Some((g@, d@)) && has_prefix(
                line@,
                "["@ + g@ + "@"@ + d@ + "]"@,
            ) && ascii_letters(g@) && g@.len() > 7 && has_suffix(g@, "Quality"@) && d@.len() > 0,
            None => quality_header(line@) is None,
        },
{
    let re = Regex::new(r"^\[([A-Za-z]+Quality)@(\d+)\]").unwrap();
    re.captures(line).map(|c| {
        (
            c.get(1).map_or(String::new(), |m| m.as_str().to_string()),
            c.get(2).map_or(String::new(), |m| m.as_str().to_string()),
        )
    })
}

/// The level a captured digit string gives: its value, or 0 when it is
/// not a `u32`.
pub open spec fn level_value(d: Seq<char>) -> u32 {
    match parse_u32_of(d) {
        Some(n) => n,
        None => 0,
    }
}

/// Records one captured header into a level list.
pub fn record_header(v: &mut Vec<(String, u32)>, group: &str, digits: &str)
    requires
        distinct_keys(old(v)@),
    ensures
        distinct_keys(final(v)@),
        as_map(final(v)@) == max_insert(as_map(old(v)@), group@, level_value(digits@)),
{
    let d = chars_of(digits);
    let level = match parse_u32_vec(&d) {
        Some(n) => n,
        None => 0,
    };
    record_max(v, group, level);
}

/// The maximum level of each quality group over the section headers
/// `[<Group>Quality@<n>]` of the (trimmed) lines.
pub open spec fn header_levels(lines: Seq<Seq<char>>) -> Map<Seq<char>, u32>
    decreases lines.len(),
{
    if lines.len() == 0 {
        Map::empty()
    } else {
        let m = header_levels(lines.drop_last());
        match quality_header(trim(lines.last())) {
            Some((g, d)) => max_insert(m, g, level_value(d)),
            None => m,
        }
    }
}

/// The maximum level of each group that a scalability INI defines.
pub fn parse_scalability_ini(content: &str) -> (r: Vec<(String, u32)>)
    ensures
        distinct_keys(r@),
        as_map(r@) == header_levels(lines_of(content@)),
{
    let v = chars_of(content);
    let ls = lines_vec(&v);
    let mut out: Vec<(String, u32)> = Vec::new();
    let mut i: usize = 0;
    while i < ls.len()
        invariant
            i <= ls.len(),
            views(ls@) == lines_of(content@),
            distinct_keys(out@),
            as_map(out@) == header_levels(views(ls@).take(i as int)),
        decreases ls.len() - i,
    {
        let ghost lv = views(ls@);
        assert(lv.take(i + 1).drop_last() =~= lv.take(i as int));
        assert(lv.take(i + 1).last() == ls@[i as int]@);
        let t = string_of(&trim_vec(&ls[i]));
        match header_captures(t.as_str()) {
            Some((g, d)) => {
                record_header(&mut out, g.as_str(), d.as_str());
            },
            None => {},
        }
        i += 1;
    }
    assert(views(ls@).take(i as int) =~= views(ls@));
    out
}

/// One `sg.<Group>=<n>` line of GameUserSettings.ini: the group and level
/// it gives, if it counts (a quality index, not the resolution scale).
pub open spec fn observed_line(t: Seq<char>) -> Option<(Seq<char>, u32)> {
    if has_prefix(t, "sg."@) && crate::text::has_char(t, '=') {
        let parts = split_once_of(t, '=')->0;
        let key = trim(parts.0);
        let value = trim(parts.1);
        match parse_u32_of(value) {
            Some(n) => if has_prefix(key, "sg."@) {
                let group = key.skip(3);
                if group == "ResolutionQuality"@ {
                    None
                } else if quality_index_key(key) || has_suffix(group, "Quality"@) {
                    Some((group, n))
                } else {
                    None
                }
            } else {
                None
            },
            None => None,
        }
    } else {
        None
    }
}

pub open spec fn observed_levels(lines: Seq<Seq<char>>) -> Map<Seq<char>, u32>
    decreases lines.len(),
{
    if lines.len() == 0 {
        Map::empty()
    } else {
        let m = observed_levels(lines.drop_last());
        match observed_line(trim(lines.last())) {
            Some((g, n)) => max_insert(m, g, n),
            None => m,
        }
    }
}

fn observed_line_exec(t: &Vec<char>) -> (r: Option<(String, u32)>)
    ensures
        match observed_line(t@) {
            Some((g, n)) => r matches Some((s, m)) && s@ == g && m == n,
            None => r is None,
        },
{
    proof {
        reveal_strlit("sg.");
        reveal_strlit("ResolutionQuality");
    }
    if !crate::text::starts_with_str(t, "sg.") || !crate::text::has_char_vec(t, '=') {
        return None;
    }
    proof {
        crate::text::lemma_split_once(t@, '=');
    }
    let (a, b) = match split_once_vec(t, '=') {
        Some(p) => p,
        None => {
            return None;
        },
    };
    let key = trim_vec(&a);
    let value = trim_vec(&b);
    let n = match parse_u32_vec(&value) {
        Some(n) => n,
        None => {
            return None;
        },
    };
    if !crate::text::starts_with_str(&key, "sg.") {
        return None;
    }
    let group = subvec(&key, 3, key.len());
    assert(group@ == key@.skip(3));
    let gs = string_of(&group);
    if crate::text::str_eq(gs.as_str(), "ResolutionQuality") {
        return None;
    }
    let ks = string_of(&key);
    if is_scalability_quality_index(ks.as_str()) || crate::text::ends_with_str(&group, "Quality") {
        Some((gs, n))
    } else {
        None
    }
}

/// The highest `sg.*` quality levels GameUserSettings.ini sets.
pub fn read_observed_max_from_gus(content: &str) -> (r: Vec<(String, u32)>)
    ensures
        distinct_keys(r@),
        as_map(r@) == observed_levels(lines_of(content@)),
{
    let v = chars_of(content);
    let ls = lines_vec(&v);
    let mut out: Vec<(String, u32)> = Vec::new();
    let mut i: usize = 0;
    while i < ls.len()
        invariant
            i <= ls.len(),
            views(ls@) == lines_of(content@),
            distinct_keys(out@),
            as_map(out@) == observed_levels(views(ls@).take(i as int)),
        decreases ls.len() - i,
    {
        let ghost lv = views(ls@);
        assert(lv.take(i + 1).drop_last() =~= lv.take(i as int));
        assert(lv.take(i + 1).last() == ls@[i as int]@);
        let t = trim_vec(&ls[i]);
        match observed_line_exec(&t) {
            Some((g, n)) => {
                record_max(&mut out, g.as_str(), n);
            },
            None => {},
        }
        i += 1;
    }
    assert(views(ls@).take(i as int) =~= views(ls@));
    out
}

// ---------------------------------------------------------------------------
// Limits
// ---------------------------------------------------------------------------
/// Levels of two maps together, keeping the larger where both have one.
pub open spec fn mmax(t: Map<Seq<char>, u32>, s: Map<Seq<char>, u32>) -> Map<Seq<char>, u32> {
    Map::new(
        |k: Seq<char>| t.contains_key(k) || s.contains_key(k),
        |k: Seq<char>|
            if t.contains_key(k) && s.contains_key(k) {
                if t[k] >= s[k] {
                    t[k]
                } else {
                    s[k]
                }
            } else if t.contains_key(k) {
                t[k]
            } else {
                s[k]
            },
    )
}

/// Merging a list with distinct groups is merging the map it stands for.
proof fn lemma_merged_max_map(t: Map<Seq<char>, u32>, v: Seq<(String, u32)>)
    requires
        distinct_keys(v),
    ensures
        merged_max(t, v) == mmax(t, as_map(v)),
    decreases v.len(),
{
    if v.len() == 0 {
        assert(mmax(t, as_map(v)) =~= t);
    } else {
        let w = v.drop_last();
        assert(distinct_keys(w)) by {
            assert forall|i: int, j: int| 0 <= i < j < w.len() implies (#[trigger] w[i]).0@
                != (#[trigger] w[j]).0@ by {
                assert(w[i] == v[i]);
                assert(w[j] == v[j]);
            }
        }
        lemma_merged_max_map(t, w);
        lemma_as_map_keys(w);
        let k0 = v.last().0@;
        assert(!as_map(w).contains_key(k0)) by {
            if as_map(w).contains_key(k0) {
                let i = choose|i: int| 0 <= i < w.len() && (#[trigger] w[i]).0@ == k0;
                assert(w[i] == v[i]);
            }
        }
        assert(merged_max(t, v) =~= mmax(t, as_map(v)));
    }
}

/// The maximum levels over the scalability INIs, in scan order.
pub open spec fn ini_levels(files: Seq<(String, String)>) -> Map<Seq<char>, u32>
    decreases files.len(),
{
    if files.len() == 0 {
        Map::empty()
    } else {
        mmax(ini_levels(files.drop_last()), header_levels(lines_of(files.last().1@)))
    }
}

/// Levels above the standard maximum that GameUserSettings.ini sets.
pub open spec fn custom_levels(gus: Option<Seq<char>>) -> Map<Seq<char>, u32> {
    match gus {
        None => Map::empty(),
        Some(c) => {
            let o = observed_levels(lines_of(c));
            Map::new(|k: Seq<char>| o.contains_key(k) && o[k] > UE_DEFAULT_SCALABILITY_MAX, |k: Seq<char>| o[k])
        },
    }
}

/// Each listed group gets a level when it has none: the INI level, or the
/// standard maximum.
pub open spec fn with_defaults(m: Map<Seq<char>, u32>, ini: Map<Seq<char>, u32>, gs: Seq<Seq<char>>) -> Map<
    Seq<char>,
    u32,
>
    decreases gs.len(),
{
    if gs.len() == 0 {
        m
    } else {
        insert_absent(
            with_defaults(m, ini, gs.drop_last()),
            gs.last(),
            if ini.contains_key(gs.last()) {
                ini[gs.last()]
            } else {
                UE_DEFAULT_SCALABILITY_MAX
            },
        )
    }
}

pub open spec fn quality_group(g: Seq<char>) -> bool {
    g != "ResolutionQuality"@ && has_suffix(g, "Quality"@)
}

/// The quality groups of the INI levels (not the resolution scale).
pub open spec fn quality_only(ini: Map<Seq<char>, u32>) -> Map<Seq<char>, u32> {
    Map::new(|k: Seq<char>| ini.contains_key(k) && quality_group(k), |k: Seq<char>| ini[k])
}

/// The level of every group: INI maxima and custom GameUserSettings
/// levels, the standard groups defaulted, the INI quality groups merged
/// once more.
pub open spec fn group_levels(files: Seq<(String, String)>, gus: Option<Seq<char>>) -> Map<
    Seq<char>,
    u32,
> {
    let ini = ini_levels(files);
    mmax(with_defaults(mmax(ini, custom_levels(gus)), ini, quality_groups()), quality_only(ini))
}

#[derive(Debug, Clone)]
pub struct ScalabilityLimits {
    /// `(sg.<Group>, highest level)` pairs, one per group.
    pub groups: Vec<(String, u32)>,
    pub global_max: u32,
    pub sources: Vec<String>,
}

impl ScalabilityLimits {
    /// The highest level for a key, or the global maximum when the key is
    /// not listed.
    pub fn max_for(&self, sg_key: &str) -> (r: u32)
        requires
            distinct_keys(self.groups@),
        ensures
            r == if as_map(self.groups@).contains_key(sg_key@) {
                as_map(self.groups@)[sg_key@]
            } else {
                self.global_max
            },
    {
        match level_of(&self.groups, sg_key) {
            Some(x) => x,
            None => self.global_max,
        }
    }
}

fn keep_above(v: &Vec<(String, u32)>, limit: u32) -> (r: Vec<(String, u32)>)
    requires
        distinct_keys(v@),
    ensures
        distinct_keys(r@),
        as_map(r@) == Map::new(
            |k: Seq<char>| as_map(v@).contains_key(k) && as_map(v@)[k] > limit,
            |k: Seq<char>| as_map(v@)[k],
        ),
{
    let mut out: Vec<(String, u32)> = Vec::new();
    let mut i: usize = 0;
    while i < v.len()
        invariant
            i <= v.len(),
            distinct_keys(v@),
            distinct_keys(out@),
            as_map(out@) == Map::new(
                |k: Seq<char>| as_map(v@.take(i as int)).contains_key(k) && as_map(v@.take(i as int))[k] > limit,
                |k: Seq<char>| as_map(v@.take(i as int))[k],
            ),
            forall|k: Seq<char>| as_map(out@).contains_key(k) ==> as_map(v@.take(i as int)).contains_key(k),
        decreases v.len() - i,
    {
        let ghost vt = v@.take(i as int);
        let ghost vt1 = v@.take(i + 1);
        assert(vt1.drop_last() =~= vt);
        proof {
            lemma_as_map_keys(vt);
            assert(!as_map(vt).contains_key(v@[i as int].0@)) by {
                if as_map(vt).contains_key(v@[i as int].0@) {
                    let j = choose|j: int| 0 <= j < vt.len() && (#[trigger] vt[j]).0@ == v@[i as int].0@;
                    assert(vt[j] == v@[j]);
                }
            }
        }
        let ghost before = out@;
        if v[i].1 > limit {
            out.push((v[i].0.clone(), v[i].1));
            proof {
                assert(out@.drop_last() =~= before);
                assert forall|a: int, b: int| 0 <= a < b < out@.len() implies (#[trigger] out@[a]).0@
                    != (#[trigger] out@[b]).0@ by {
                    if b == out@.len() - 1 {
                        assert(before[a] == out@[a]);
                        lemma_as_map_keys(before);
                        assert(as_map(before).contains_key(before[a].0@));
                    } else {
                        assert(before[a] == out@[a]);
                        assert(before[b] == out@[b]);
                    }
                }
            }
        }
        proof {
            assert(as_map(out@) =~= Map::new(
                |k: Seq<char>| as_map(vt1).contains_key(k) && as_map(vt1)[k] > limit,
                |k: Seq<char>| as_map(vt1)[k],
            ));
        }
        i += 1;
    }
    assert(v@.take(i as int) =~= v@);
    out
}

fn keep_quality(v: &Vec<(String, u32)>) -> (r: Vec<(String, u32)>)
    requires
        distinct_keys(v@),
    ensures
        distinct_keys(r@),
        as_map(r@) == quality_only(as_map(v@)),
{
    let mut out: Vec<(String, u32)> = Vec::new();
    let mut i: usize = 0;
    while i < v.len()
        invariant
            i <= v.len(),
            distinct_keys(v@),
            distinct_keys(out@),
            as_map(out@) == quality_only(as_map(v@.take(i as int))),
            forall|k: Seq<char>| as_map(out@).contains_key(k) ==> as_map(v@.take(i as int)).contains_key(k),
        decreases v.len() - i,
    {
        let ghost vt = v@.take(i as int);
        let ghost vt1 = v@.take(i + 1);
        assert(vt1.drop_last() =~= vt);
        proof {
            lemma_as_map_keys(vt);
            assert(!as_map(vt).contains_key(v@[i as int].0@)) by {
                if as_map(vt).contains_key(v@[i as int].0@) {
                    let j = choose|j: int| 0 <= j < vt.len() && (#[trigger] vt[j]).0@ == v@[i as int].0@;
                    assert(vt[j] == v@[j]);
                }
            }
        }
        let ghost before = out@;
        let g = &v[i].0;
        let gv = chars_of(g.as_str());
        proof {
            reveal_strlit("ResolutionQuality");
        }
        if !crate::text::str_eq(g.as_str(), "ResolutionQuality") && crate::text::ends_with_str(
            &gv,
            "Quality",
        ) {
            out.push((g.clone(), v[i].1));
            proof {
                assert(out@.drop_last() =~= before);
                assert forall|a: int, b: int| 0 <= a < b < out@.len() implies (#[trigger] out@[a]).0@
                    != (#[trigger] out@[b]).0@ by {
                    if b == out@.len() - 1 {
                        assert(before[a] == out@[a]);
                        lemma_as_map_keys(before);
                        assert(as_map(before).contains_key(before[a].0@));
                    } else {
                        assert(before[a] == out@[a]);
                        assert(before[b] == out@[b]);
                    }
                }
            }
        }
        proof {
            assert(as_map(out@) =~= quality_only(as_map(vt1)));
        }
        i += 1;
    }
    assert(v@.take(i as int) =~= v@);
    out
}

/// The files whose headers define some level, in scan order.
pub open spec fn file_sources(files: Seq<(String, String)>) -> Seq<Seq<char>>
    decreases files.len(),
{
    if files.len() == 0 {
        seq![]
    } else if header_levels(lines_of(files.last().1@)) != Map::<Seq<char>, u32>::empty() {
        file_sources(files.drop_last()).push(files.last().0@)
    } else {
        file_sources(files.drop_last())
    }
}

/// What the limits name as their sources: the INIs that define levels,
/// then GameUserSettings.ini when it sets custom levels.
pub open spec fn limit_sources(files: Seq<(String, String)>, gus: Option<Seq<char>>) -> Seq<Seq<char>> {
    file_sources(files) + if custom_levels(gus) != Map::<Seq<char>, u32>::empty() {
        seq!["GameUserSettings.ini (custom sg.*)"@]
    } else {
        seq![]
    }
}

proof fn lemma_defaults_cover(m: Map<Seq<char>, u32>, ini: Map<Seq<char>, u32>, gs: Seq<Seq<char>>)
    ensures
        forall|j: int| 0 <= j < gs.len() ==> with_defaults(m, ini, gs).contains_key(#[trigger] gs[j]),
        forall|k: Seq<char>| m.contains_key(k) ==> with_defaults(m, ini, gs).contains_key(k),
    decreases gs.len(),
{
    if gs.len() > 0 {
        lemma_defaults_cover(m, ini, gs.drop_last());
        assert forall|j: int| 0 <= j < gs.len() implies with_defaults(m, ini, gs).contains_key(
            #[trigger] gs[j],
        ) by {
            if j < gs.len() - 1 {
                assert(gs.drop_last()[j] == gs[j]);
            }
        }
    }
}

proof fn lemma_empty_map(v: Seq<(String, u32)>)
    ensures
        (as_map(v) == Map::<Seq<char>, u32>::empty()) <==> v.len() == 0,
{
    lemma_as_map_keys(v);
    if v.len() > 0 {
        assert(as_map(v).contains_key(v[0].0@));
    } else {
        assert(as_map(v) =~= Map::<Seq<char>, u32>::empty());
    }
}

fn copy_levels(v: &Vec<(String, u32)>) -> (r: Vec<(String, u32)>)
    ensures
        r@ == v@,
{
    let mut out: Vec<(String, u32)> = Vec::new();
    let mut i: usize = 0;
    while i < v.len()
        invariant
            i <= v.len(),
            out@ == v@.take(i as int),
        decreases v.len() - i,
    {
        out.push((v[i].0.clone(), v[i].1));
        assert(out@ =~= v@.take(i + 1));
        i += 1;
    }
    assert(v@.take(i as int) =~= v@);
    out
}

fn sg_key(group: &str) -> (r: String)
    ensures
        r@ == "sg."@ + group@,
{
    let mut k = chars_of("sg.");
    crate::text::append_str(&mut k, group);
    string_of(&k)
}

fn ini_maxima(files: &Vec<(String, String)>) -> (r: (Vec<(String, u32)>, Vec<String>))
    ensures
        distinct_keys(r.0@),
        as_map(r.0@) == ini_levels(files@),
        crate::text::str_views(r.1@) == file_sources(files@),
{
    let mut ini: Vec<(String, u32)> = Vec::new();
    let mut sources: Vec<String> = Vec::new();
    let mut i: usize = 0;
    while i < files.len()
        invariant
            i <= files.len(),
            distinct_keys(ini@),
            as_map(ini@) == ini_levels(files@.take(i as int)),
            crate::text::str_views(sources@) == file_sources(files@.take(i as int)),
        decreases files.len() - i,
    {
        let ghost ft = files@.take(i as int);
        assert(files@.take(i + 1).drop_last() =~= ft);
        assert(files@.take(i + 1).last() == files@[i as int]);
        let parsed = parse_scalability_ini(files[i].1.as_str());
        proof {
            lemma_empty_map(parsed@);
            lemma_merged_max_map(as_map(ini@), parsed@);
        }
        if parsed.len() > 0 {
            proof {
                crate::text::lemma_str_views_push(sources@, files@[i as int].0);
            }
            sources.push(files[i].0.clone());
            merge_max_map(&mut ini, &parsed);
        } else {
            assert(mmax(as_map(ini@), as_map(parsed@)) =~= as_map(ini@));
        }
        i += 1;
    }
    assert(files@.take(i as int) =~= files@);
    (ini, sources)
}

fn group_maxima(ini: &Vec<(String, u32)>, gus: Option<&str>, sources: &mut Vec<String>) -> (r: Vec<
    (String, u32),
>)
    requires
        distinct_keys(ini@),
    ensures
        ({
            let gv = match gus {
                Some(c) => Some(c@),
                None => None,
            };
            let ini_m = as_map(ini@);
            &&& distinct_keys(r@)
            &&& as_map(r@) == mmax(
                with_defaults(mmax(ini_m, custom_levels(gv)), ini_m, quality_groups()),
                quality_only(ini_m),
            )
            &&& crate::text::str_views(final(sources)@) == crate::text::str_views(old(sources)@)
                + if custom_levels(gv) != Map::<Seq<char>, u32>::empty() {
                seq!["GameUserSettings.ini (custom sg.*)"@]
            } else {
                seq![]
            }
        }),
{
    let ghost gv = match gus {
        Some(c) => Some(c@),
        None => None,
    };
    let ghost s0 = crate::text::str_views(sources@);
    let ghost ini_m = as_map(ini@);
    let mut mbg = copy_levels(ini);
    match gus {
        Some(c) => {
            let observed = read_observed_max_from_gus(c);
            let custom = keep_above(&observed, UE_DEFAULT_SCALABILITY_MAX);
            proof {
                lemma_empty_map(custom@);
                lemma_merged_max_map(as_map(mbg@), custom@);
                assert(as_map(custom@) =~= custom_levels(gv));
            }
            if custom.len() > 0 {
                let label = crate::text::owned("GameUserSettings.ini (custom sg.*)");
                proof {
                    crate::text::lemma_str_views_push(sources@, label);
                }
                sources.push(label);
                merge_max_map(&mut mbg, &custom);
            } else {
                assert(mmax(ini_m, as_map(custom@)) =~= ini_m);
                assert(s0 + seq![] =~= s0);
            }
        },
        None => {
            assert(mmax(ini_m, custom_levels(gv)) =~= ini_m);
            assert(custom_levels(gv) =~= Map::<Seq<char>, u32>::empty());
            assert(s0 + seq![] =~= s0);
        },
    }
    let gs = quality_index_groups();
    let ghost gsv = quality_groups();
    let mut j: usize = 0;
    while j < gs.len()
        invariant
            j <= gs.len(),
            gs@.map_values(|s: &str| s@) == gsv,
            gsv == quality_groups(),
            distinct_keys(ini@),
            ini_m == as_map(ini@),
            distinct_keys(mbg@),
            as_map(mbg@) == with_defaults(mmax(ini_m, custom_levels(gv)), ini_m, gsv.take(j as int)),
        decreases gs.len() - j,
    {
        assert(gsv.take(j + 1).drop_last() =~= gsv.take(j as int));
        assert(gsv.take(j + 1).last() == gs@[j as int]@);
        let d = match level_of(ini, gs[j]) {
            Some(x) => x,
            None => UE_DEFAULT_SCALABILITY_MAX,
        };
        record_if_absent(&mut mbg, gs[j], d);
        j += 1;
    }
    assert(gsv.take(j as int) =~= gsv);
    let q = keep_quality(ini);
    proof {
        lemma_merged_max_map(as_map(mbg@), q@);
    }
    merge_max_map(&mut mbg, &q);
    mbg
}

fn global_max_of(mbg: &Vec<(String, u32)>) -> (r: u32)
    requires
        distinct_keys(mbg@),
        mbg@.len() > 0,
    ensures
        exists|k: Seq<char>| as_map(mbg@).contains_key(k) && as_map(mbg@)[k] == r,
        forall|k: Seq<char>| as_map(mbg@).contains_key(k) ==> as_map(mbg@)[k] <= r,
{
    let mut best: u32 = 0;
    let mut k: usize = 0;
    while k < mbg.len()
        invariant
            k <= mbg.len(),
            forall|a: int| 0 <= a < k ==> (#[trigger] mbg@[a]).1 <= best,
            k > 0 ==> exists|a: int| 0 <= a < k && (#[trigger] mbg@[a]).1 == best,
        decreases mbg.len() - k,
    {
        if k == 0 || mbg[k].1 > best {
            best = mbg[k].1;
        }
        k += 1;
    }
    proof {
        lemma_as_map_keys(mbg@);
        let a = choose|a: int| 0 <= a < k && (#[trigger] mbg@[a]).1 == best;
        lemma_as_map_at(mbg@, a);
        assert forall|key: Seq<char>| as_map(mbg@).contains_key(key) implies as_map(mbg@)[key]
            <= best by {
            let b = choose|b: int| 0 <= b < mbg@.len() && (#[trigger] mbg@[b]).0@ == key;
            lemma_as_map_at(mbg@, b);
        }
    }
    best
}

/// `key` is `sg.` and a group with a level in `m`, that is standard or a
/// quality group, and `g` gives it that level.
pub open spec fn key_ok(g: Map<Seq<char>, u32>, m: Map<Seq<char>, u32>, key: Seq<char>) -> bool {
    has_prefix(key, "sg."@) && m.contains_key(key.skip(3)) && g[key] == m[key.skip(3)] && (
    quality_groups().contains(key.skip(3)) || quality_group(key.skip(3)))
}

proof fn lemma_sg_key(g: Seq<char>)
    ensures
        ("sg."@ + g).skip(3) == g,
        has_prefix("sg."@ + g, "sg."@),
{
    reveal_strlit("sg.");
    assert(("sg."@ + g).skip(3) =~= g);
    assert(("sg."@ + g).take(3) =~= "sg."@);
}

fn limits_by_key(mbg: &Vec<(String, u32)>, global_max: u32) -> (r: Vec<(String, u32)>)
    requires
        distinct_keys(mbg@),
        forall|x: int|
            0 <= x < quality_groups().len() ==> as_map(mbg@).contains_key(
                #[trigger] quality_groups()[x],
            ),
    ensures
        ({
            let m = as_map(mbg@);
            let g = as_map(r@);
            &&& distinct_keys(r@)
            &&& forall|x: int|
                0 <= x < quality_groups().len() ==> g.contains_key(
                    "sg."@ + #[trigger] quality_groups()[x],
                )
            &&& forall|k: Seq<char>|
                m.contains_key(k) && quality_group(k) ==> g.contains_key(#[trigger] ("sg."@ + k))
            &&& forall|key: Seq<char>| #[trigger] g.contains_key(key) ==> key_ok(g, m, key)
        }),
{
    let ghost m = as_map(mbg@);
    let gs = quality_index_groups();
    let mut groups: Vec<(String, u32)> = Vec::new();
    let mut j2: usize = 0;
    while j2 < gs.len()
        invariant
            j2 <= gs.len(),
            gs@.map_values(|s: &str| s@) == quality_groups(),
            distinct_keys(mbg@),
            m == as_map(mbg@),
            forall|x: int| 0 <= x < quality_groups().len() ==> m.contains_key(#[trigger] quality_groups()[x]),
            distinct_keys(groups@),
            forall|x: int|
                0 <= x < j2 ==> as_map(groups@).contains_key("sg."@ + #[trigger] quality_groups()[x]),
            forall|key: Seq<char>|
                #[trigger] as_map(groups@).contains_key(key) ==> key_ok(as_map(groups@), m, key),
        decreases gs.len() - j2,
    {
        let g = gs[j2];
        assert(g@ == gs@.map_values(|s: &str| s@)[j2 as int]);
        assert(g@ == quality_groups()[j2 as int]);
        let key = sg_key(g);
        let x = match level_of(mbg, g) {
            Some(x) => x,
            None => global_max,
        };
        let ghost before = as_map(groups@);
        record_if_absent(&mut groups, key.as_str(), x);
        proof {
            lemma_sg_key(g@);
            assert(quality_groups().contains(g@));
            assert forall|key2: Seq<char>|
                #[trigger] as_map(groups@).contains_key(key2) implies key_ok(as_map(groups@), m, key2) by {
                if before.contains_key(key2) {
                    assert(key_ok(before, m, key2));
                }
            }
            assert forall|x2: int|
                0 <= x2 < j2 + 1 implies as_map(groups@).contains_key(
                "sg."@ + #[trigger] quality_groups()[x2],
            ) by {
                if x2 < j2 {
                    assert(before.contains_key("sg."@ + quality_groups()[x2]));
                }
            }
        }
        j2 += 1;
    }
    let mut k2: usize = 0;
    while k2 < mbg.len()
        invariant
            k2 <= mbg.len(),
            distinct_keys(mbg@),
            m == as_map(mbg@),
            distinct_keys(groups@),
            forall|x: int|
                0 <= x < quality_groups().len() ==> as_map(groups@).contains_key(
                    "sg."@ + #[trigger] quality_groups()[x],
                ),
            forall|a: int|
                0 <= a < k2 && quality_group((#[trigger] mbg@[a]).0@) ==> as_map(groups@).contains_key(
                    "sg."@ + mbg@[a].0@,
                ),
            forall|key: Seq<char>|
                #[trigger] as_map(groups@).contains_key(key) ==> key_ok(as_map(groups@), m, key),
        decreases mbg.len() - k2,
    {
        let g = &mbg[k2].0;
        let gv2 = chars_of(g.as_str());
        proof {
            reveal_strlit("ResolutionQuality");
            lemma_as_map_at(mbg@, k2 as int);
        }
        if !crate::text::str_eq(g.as_str(), "ResolutionQuality") && crate::text::ends_with_str(
            &gv2,
            "Quality",
        ) {
            let key = sg_key(g.as_str());
            let ghost before = as_map(groups@);
            record_if_absent(&mut groups, key.as_str(), mbg[k2].1);
            proof {
                lemma_sg_key(g@);
                assert forall|key2: Seq<char>|
                    #[trigger] as_map(groups@).contains_key(key2) implies key_ok(as_map(groups@), m, key2) by {
                    if before.contains_key(key2) {
                        assert(key_ok(before, m, key2));
                    }
                }
                assert forall|a: int|
                    0 <= a < k2 + 1 && quality_group((#[trigger] mbg@[a]).0@) implies as_map(
                    groups@,
                ).contains_key("sg."@ + mbg@[a].0@) by {
                    if a < k2 {
                        assert(before.contains_key("sg."@ + mbg@[a].0@));
                    }
                }
            }
        }
        k2 += 1;
    }
    proof {
        lemma_as_map_keys(mbg@);
        assert forall|key: Seq<char>|
            m.contains_key(key) && quality_group(key) implies as_map(groups@).contains_key(
            #[trigger] ("sg."@ + key),
        ) by {
            let b = choose|b: int| 0 <= b < mbg@.len() && (#[trigger] mbg@[b]).0@ == key;
        }
    }
    groups
}

/// What the limits of a game are: per `sg.` key the level of its group,
/// for the standard groups and every quality group; the global maximum
/// is the highest group level; and the sources that gave levels.
pub open spec fn limits_ok(
    r: ScalabilityLimits,
    files: Seq<(String, String)>,
    gus: Option<Seq<char>>,
) -> bool {
    let m = group_levels(files, gus);
    let g = as_map(r.groups@);
    &&& distinct_keys(r.groups@)
    &&& exists|k: Seq<char>| m.contains_key(k) && m[k] == r.global_max
    &&& forall|k: Seq<char>| m.contains_key(k) ==> m[k] <= r.global_max
    &&& forall|j: int|
        0 <= j < quality_groups().len() ==> g.contains_key("sg."@ + #[trigger] quality_groups()[j])
            && m.contains_key(quality_groups()[j])
    &&& forall|k: Seq<char>|
        m.contains_key(k) && quality_group(k) ==> g.contains_key(#[trigger] ("sg."@ + k))
    &&& forall|k: Seq<char>| #[trigger] g.contains_key(k) ==> key_ok(g, m, k)
    &&& crate::text::str_views(r.sources@) == limit_sources(files, gus)
}

/// Law: no group's limit is above the global maximum, and the global
/// maximum is the limit of some group.
pub proof fn group_limits_within_global_max(
    r: ScalabilityLimits,
    files: Seq<(String, String)>,
    gus: Option<Seq<char>>,
)
    requires
        limits_ok(r, files, gus),
    ensures
        forall|k: Seq<char>| #[trigger] as_map(r.groups@).contains_key(k) ==> as_map(r.groups@)[k]
            <= r.global_max,
        exists|k: Seq<char>| group_levels(files, gus).contains_key(k) && group_levels(files, gus)[k]
            == r.global_max,
{
    let m = group_levels(files, gus);
    let g = as_map(r.groups@);
    assert forall|k: Seq<char>| #[trigger] g.contains_key(k) implies g[k] <= r.global_max by {
        assert(key_ok(g, m, k));
        assert(m.contains_key(k.skip(3)));
    }
}

/// The scalability limits of a game, from the contents of its scalability
/// INIs (as `(path, text)` in scan order) and of its GameUserSettings.ini.
pub fn detect_scalability_limits(files: &Vec<(String, String)>, gus: Option<&str>) -> (r:
    ScalabilityLimits)
    ensures
        limits_ok(
            r,
            files@,
            match gus {
                Some(c) => Some(c@),
                None => None,
            },
        ),
{
    let (ini, mut sources) = ini_maxima(files);
    let mbg = group_maxima(&ini, gus, &mut sources);
    proof {
        let gv = match gus {
            Some(c) => Some(c@),
            None => None,
        };
        let ini_m = as_map(ini@);
        lemma_defaults_cover(mmax(ini_m, custom_levels(gv)), ini_m, quality_groups());
        lemma_as_map_keys(mbg@);
        assert forall|x: int| 0 <= x < quality_groups().len() implies as_map(mbg@).contains_key(
            #[trigger] quality_groups()[x],
        ) by {
            assert(with_defaults(mmax(ini_m, custom_levels(gv)), ini_m, quality_groups()).contains_key(
                quality_groups()[x],
            ));
        }
        assert(as_map(mbg@).contains_key(quality_groups()[0]));
        let i0 = choose|i: int| 0 <= i < mbg@.len() && (#[trigger] mbg@[i]).0@ == quality_groups()[0];
        assert(mbg@.len() > 0);
        assert(as_map(mbg@) == group_levels(files@, gv));
    }
    let global_max = if mbg.len() == 0 {
        UE_DEFAULT_SCALABILITY_MAX
    } else {
        global_max_of(&mbg)
    };
    let groups = limits_by_key(&mbg, global_max);
    proof {
        let gv = match gus {
            Some(c) => Some(c@),
            None => None,
        };
        let m = group_levels(files@, gv);
        assert(exists|k: Seq<char>| m.contains_key(k) && m[k] == global_max);
        assert(crate::text::str_views(sources@) == limit_sources(files@, gv));
        assert(forall|k: Seq<char>|
            #[trigger] as_map(groups@).contains_key(k) ==> key_ok(as_map(groups@), m, k));
        assert(forall|k: Seq<char>| m.contains_key(k) ==> m[k] <= global_max);
        assert(distinct_keys(groups@));
        assert(forall|j: int|
            0 <= j < quality_groups().len() ==> as_map(groups@).contains_key(
                "sg."@ + #[trigger] quality_groups()[j],
            ) && m.contains_key(quality_groups()[j]));
        assert(forall|k: Seq<char>|
            m.contains_key(k) && quality_group(k) ==> as_map(groups@).contains_key(#[trigger] ("sg."@ + k)));
    }
    let r = ScalabilityLimits { groups, global_max, sources };
    proof {
        let gv = match gus {
            Some(c) => Some(c@),
            None => None,
        };
        assert(limits_ok(r, files@, gv));
    }
    r
}


/// The file names of Unreal scalability INIs looked for under an install
/// directory.
pub open spec fn is_scalability_file_name(n: Seq<char>) -> bool {
    n == "DefaultScalability.ini"@ || n == "Scalability.ini"@ || n == "BaseScalability.ini"@
}

/// The order key of a path: separators (`/` and `\\`, both separators on
/// Windows) become the lowest character. Comparing keys as text compares
/// paths by their components, as `Path`'s order does for the paths of a
/// directory walk (no empty or `.` components, no NUL); two paths that
/// differ only in which separator they use have the same components and
/// the same key.
pub open spec fn path_key(p: Seq<char>) -> Seq<char> {
    p.map_values(|c: char| if crate::paths::is_sep(c) { '\0' } else { c })
}

fn path_key_exec(p: &str) -> (r: String)
    ensures
        r@ == path_key(p@),
{
    let v = chars_of(p);
    let mut out: Vec<char> = Vec::new();
    let mut i: usize = 0;
    while i < v.len()
        invariant
            i <= v.len(),
            out@ == path_key(v@).take(i as int),
            v@ == p@,
        decreases v.len() - i,
    {
        let c = v[i];
        if c == '/' || c == '\\' {
            out.push('\0');
        } else {
            out.push(c);
        }
        assert(out@ =~= path_key(v@).take(i + 1));
        i += 1;
    }
    assert(path_key(v@).take(i as int) =~= path_key(v@));
    string_of(&out)
}

/// A walked path named like a scalability INI.
pub open spec fn found_file(x: Seq<char>) -> bool {
    is_scalability_file_name(crate::paths::file_name_spec(x))
}

/// `x` is the first found path of the walk with its key.
pub open spec fn first_found(paths: Seq<String>, x: Seq<char>) -> bool {
    exists|i: int|
        0 <= i < paths.len() && (#[trigger] paths[i])@ == x && found_file(x) && forall|k: int|
            0 <= k < i ==> !(found_file((#[trigger] paths[k])@) && path_key(paths[k]@) == path_key(x))
}

/// Adds `(k, p)` to pairs sorted by key, unless the key is there; returns
/// where it went.
fn insert_keyed(out: &mut Vec<(String, String)>, k: String, p: String) -> (r: Option<usize>)
    requires
        crate::unity::sorted_keys(old(out)@),
    ensures
        crate::unity::sorted_keys(final(out)@),
        r is None <==> exists|j: int| 0 <= j < old(out)@.len() && (#[trigger] old(out)@[j]).0@ == k@,
        r is None ==> final(out)@ == old(out)@,
        r matches Some(pos) ==> pos <= old(out)@.len() && final(out)@ == old(out)@.insert(
            pos as int,
            (k, p),
        ),
{
    let pos = crate::unity::insert_pos(out, k.as_str());
    let ghost before = out@;
    if pos < out.len() && crate::text::str_eq(out[pos].0.as_str(), k.as_str()) {
        return None;
    }
    proof {
        crate::text::lemma_str_lt_asym(k@, k@);
        assert forall|j: int| pos <= j < before.len() implies crate::text::str_lt(
            k@,
            (#[trigger] before[j]).0@,
        ) by {
            crate::text::lemma_str_lt_total(k@, before[pos as int].0@);
            if j > pos {
                crate::unity::lemma_str_lt_trans(k@, before[pos as int].0@, before[j].0@);
            }
        }
        assert forall|j: int| 0 <= j < before.len() implies (#[trigger] before[j]).0@ != k@ by {
            if j < pos {
                assert(crate::text::str_lt(before[j].0@, k@));
            } else {
                assert(crate::text::str_lt(k@, before[j].0@));
            }
        }
    }
    out.insert(pos, (k, p));
    proof {
        let after = out@;
        assert forall|a: int, b: int| 0 <= a < b < after.len() implies crate::text::str_lt(
            (#[trigger] after[a]).0@,
            (#[trigger] after[b]).0@,
        ) by {
            if b < pos {
                assert(after[a] == before[a] && after[b] == before[b]);
            } else if b == pos {
                assert(after[a] == before[a]);
            } else if a < pos {
                assert(after[a] == before[a] && after[b] == before[b - 1]);
                crate::unity::lemma_str_lt_trans(before[a].0@, after[pos as int].0@, before[b - 1].0@);
            } else if a == pos {
                assert(after[b] == before[b - 1]);
            } else {
                assert(after[a] == before[a - 1] && after[b] == before[b - 1]);
            }
        }
    }
    Some(pos)
}

/// The scalability INIs among the paths of a directory walk: those whose
/// file name is one of the three, each once, in `Path` order (by
/// `path_key`); of paths with the same components the first walked stays.
pub fn select_scalability_files(paths: &Vec<String>) -> (r: Vec<String>)
    ensures
        forall|a: int, b: int|
            0 <= a < b < r@.len() ==> crate::text::str_lt(
                path_key((#[trigger] r@[a])@),
                path_key((#[trigger] r@[b])@),
            ),
        forall|j: int| 0 <= j < r@.len() ==> first_found(paths@, (#[trigger] r@[j])@),
        forall|i: int|
            0 <= i < paths@.len() && found_file((#[trigger] paths@[i])@) ==> exists|j: int|
                0 <= j < r@.len() && path_key((#[trigger] r@[j])@) == path_key(paths@[i]@),
{
    let mut out: Vec<(String, String)> = Vec::new();
    let mut i: usize = 0;
    while i < paths.len()
        invariant
            i <= paths.len(),
            crate::unity::sorted_keys(out@),
            forall|j: int|
                0 <= j < out@.len() ==> (#[trigger] out@[j]).0@ == path_key(out@[j].1@) && first_found(
                    paths@.take(i as int),
                    out@[j].1@,
                ),
            forall|m: int|
                0 <= m < i && found_file((#[trigger] paths@[m])@) ==> exists|j: int|
                    0 <= j < out@.len() && (#[trigger] out@[j]).0@ == path_key(paths@[m]@),
        decreases paths.len() - i,
    {
        let ghost before = out@;
        let ghost t0 = paths@.take(i as int);
        let ghost t1 = paths@.take(i + 1);
        let name = crate::paths::file_name(paths[i].as_str());
        let n = name.as_str();
        let hit = crate::text::str_eq(n, "DefaultScalability.ini") || crate::text::str_eq(
            n,
            "Scalability.ini",
        ) || crate::text::str_eq(n, "BaseScalability.ini");
        let ghost pi = paths@[i as int]@;
        assert(hit == found_file(pi));
        proof {
            assert forall|x: Seq<char>| first_found(t0, x) implies first_found(t1, x) by {
                let w = choose|w: int|
                    0 <= w < t0.len() && (#[trigger] t0[w])@ == x && found_file(x) && forall|k: int|
                        0 <= k < w ==> !(found_file((#[trigger] t0[k])@) && path_key(t0[k]@)
                            == path_key(x));
                assert(t1[w] == t0[w]);
                assert forall|k: int| 0 <= k < w implies !(found_file((#[trigger] t1[k])@)
                    && path_key(t1[k]@) == path_key(x)) by {
                    assert(t1[k] == t0[k]);
                }
            }
        }
        if hit {
            let key = path_key_exec(paths[i].as_str());
            let res = insert_keyed(&mut out, key, paths[i].clone());
            proof {
                match res {
                    None => {},
                    Some(pos) => {
                        // The new path is the first of its key so far.
                        assert forall|k: int| 0 <= k < i implies !(found_file((#[trigger] t1[k])@)
                            && path_key(t1[k]@) == path_key(pi)) by {
                            assert(t1[k] == paths@[k]);
                            if found_file(paths@[k]@) && path_key(paths@[k]@) == path_key(pi) {
                                let j = choose|j: int|
                                    0 <= j < before.len() && (#[trigger] before[j]).0@ == path_key(
                                        paths@[k]@,
                                    );
                                assert(before[j].0@ == path_key(pi));
                            }
                        }
                        assert(t1[i as int] == paths@[i as int]);
                        assert(first_found(t1, pi));
                        let after = out@;
                        assert forall|j: int| 0 <= j < after.len() implies (#[trigger] after[j]).0@
                            == path_key(after[j].1@) && first_found(t1, after[j].1@) by {
                            if j < pos {
                                assert(after[j] == before[j]);
                            } else if j > pos {
                                assert(after[j] == before[j - 1]);
                            }
                        }
                        assert forall|m: int| 0 <= m < i && found_file((#[trigger] paths@[m])@)
                            implies exists|j: int|
                            0 <= j < after.len() && (#[trigger] after[j]).0@ == path_key(
                                paths@[m]@,
                            ) by {
                            let j = choose|j: int|
                                0 <= j < before.len() && (#[trigger] before[j]).0@ == path_key(
                                    paths@[m]@,
                                );
                            if j < pos {
                                assert(after[j] == before[j]);
                            } else {
                                assert(after[j + 1] == before[j]);
                            }
                        }
                        assert(after[pos as int].0@ == path_key(pi));
                    },
                }
            }
        }
        proof {
            if !hit {
                assert(out@ == before);
            }
            assert forall|m: int| 0 <= m < i + 1 && found_file((#[trigger] paths@[m])@) implies exists|j: int|
                0 <= j < out@.len() && (#[trigger] out@[j]).0@ == path_key(paths@[m]@) by {
                if m == i {
                    if out@ == before {
                        let j = choose|j: int| 0 <= j < before.len() && (#[trigger] before[j]).0@ == path_key(pi);
                        assert(out@[j].0@ == path_key(pi));
                    }
                }
            }
        }
        i += 1;
    }
    assert(paths@.take(i as int) =~= paths@);
    let mut r: Vec<String> = Vec::new();
    let mut j: usize = 0;
    while j < out.len()
        invariant
            j <= out.len(),
            r@.len() == j,
            forall|q: int| 0 <= q < j ==> (#[trigger] r@[q]) == out@[q].1,
        decreases out.len() - j,
    {
        r.push(out[j].1.clone());
        j += 1;
    }
    proof {
        assert forall|a: int, b: int| 0 <= a < b < r@.len() implies crate::text::str_lt(
            path_key((#[trigger] r@[a])@),
            path_key((#[trigger] r@[b])@),
        ) by {
            assert(r@[a] == out@[a].1 && r@[b] == out@[b].1);
            assert(crate::text::str_lt(out@[a].0@, out@[b].0@));
        }
        assert forall|m: int| 0 <= m < paths@.len() && found_file((#[trigger] paths@[m])@) implies exists|q: int|
            0 <= q < r@.len() && path_key((#[trigger] r@[q])@) == path_key(paths@[m]@) by {
            let q = choose|q: int| 0 <= q < out@.len() && (#[trigger] out@[q]).0@ == path_key(paths@[m]@);
            assert(r@[q] == out@[q].1);
        }
    }
    r
}

} // verus!
