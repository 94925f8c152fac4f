//! Unity `boot.config` files (key=value lines) and Unity presets: reading,
//! writing in key order, previewing changes, and where a game's config
//! lives.
use vstd::prelude::*;
use crate::known_games::{any_eq, KnownGameEntry};
use crate::models::{ConfigDiffEntry, PresetDefinition, PresetInfo};
use crate::paths::join_spec;
use crate::text::{
    chars_of, has_char, has_prefix, has_suffix, join, lines_of, lines_vec, split_once_of,
    split_once_vec, str_lt, str_views, string_of, trim, trim_vec, views,
};

verus! {

// ---------------------------------------------------------------------------
// String maps held as pairs
// ---------------------------------------------------------------------------
pub type Pairs = Seq<(String, String)>;

/// The index of an entry with key `k` (any, when keys repeat).
pub open spec fn key_at(v: Pairs, k: Seq<char>) -> int {
    choose|i: int| 0 <= i < v.len() && v[i].0@ == k
}

/// The map a list of `(key, value)` pairs with distinct keys stands for.
pub open spec fn smap(v: Pairs) -> Map<Seq<char>, Seq<char>> {
    Map::new(
        |k: Seq<char>| exists|i: int| 0 <= i < v.len() && (#[trigger] v[i]).0@ == k,
        |k: Seq<char>| v[key_at(v, k)].1@,
    )
}

pub open spec fn distinct(v: Pairs) -> bool {
    forall|i: int, j: int| 0 <= i < j < v.len() ==> (#[trigger] v[i]).0@ != (#[trigger] v[j]).0@
}

/// With distinct keys, entry `i` gives the value of its key.
pub proof fn lemma_smap_at(v: Pairs, i: int)
    requires
        distinct(v),
        0 <= i < v.len(),
    ensures
        smap(v).contains_key(v[i].0@),
        smap(v)[v[i].0@] == v[i].1@,
{
    assert(smap(v).contains_key(v[i].0@));
    let j = key_at(v, v[i].0@);
    if j != i {
        if j < i {
            assert(v[j].0@ != v[i].0@);
        } else {
            assert(v[i].0@ != v[j].0@);
        }
    }
}

fn find_key(v: &Vec<(String, String)>, k: &str) -> (r: Option<usize>)
    ensures
        match r {
            Some(i) => i < v.len() && v@[i as int].0@ == k@,
            None => forall|i: int| 0 <= i < v@.len() ==> (#[trigger] v@[i]).0@ != k@,
        },
{
    let mut i: usize = 0;
    while i < v.len()
        invariant
            i <= v.len(),
            forall|j: int| 0 <= j < i ==> (#[trigger] v@[j]).0@ != k@,
        decreases v.len() - i,
    {
        if crate::text::str_eq(v[i].0.as_str(), k) {
            return Some(i);
        }
        i += 1;
    }
    None
}

/// Sets a key (replacing its value, or adding it at the end).
pub fn set_entry(v: &mut Vec<(String, String)>, k: String, val: String)
    requires
        distinct(old(v)@),
    ensures
        distinct(final(v)@),
        smap(final(v)@) == smap(old(v)@).insert(k@, val@),
{
    let ghost before = v@;
    match find_key(v, k.as_str()) {
        Some(i) => {
            let key = v[i].0.clone();
            v.set(i, (key, val));
            proof {
                let after = v@;
                assert forall|a: int, b: int| 0 <= a < b < after.len() implies (#[trigger] after[a]).0@
                    != (#[trigger] after[b]).0@ by {
                    assert(after[a].0 == before[a].0);
                    assert(after[b].0 == before[b].0);
                }
                assert forall|key2: Seq<char>| #[trigger] smap(after).contains_key(key2) <==> smap(
                    before,
                ).insert(k@, val@).contains_key(key2) by {
                    if smap(after).contains_key(key2) {
                        let j = choose|j: int| 0 <= j < after.len() && (#[trigger] after[j]).0@ == key2;
                        assert(before[j].0 == after[j].0);
                    }
                    if smap(before).contains_key(key2) {
                        let j = choose|j: int| 0 <= j < before.len() && (#[trigger] before[j]).0@ == key2;
                        assert(before[j].0 == after[j].0);
                    }
                    if key2 == k@ {
                        assert(after[i as int].0@ == k@);
                    }
                }
                assert forall|key2: Seq<char>| #[trigger] smap(after).contains_key(key2) implies smap(
                    after,
                )[key2] == smap(before).insert(k@, val@)[key2] by {
                    let j = choose|j: int| 0 <= j < after.len() && (#[trigger] after[j]).0@ == key2;
                    lemma_smap_at(after, j);
                    if j != i {
                        assert(before[j] == after[j]);
                        lemma_smap_at(before, j);
                    }
                }
                assert(smap(after) =~= smap(before).insert(k@, val@));
            }
        },
        None => {
            v.push((k, val));
            proof {
                let after = v@;
                let n = before.len() as int;
                assert forall|a: int, b: int| 0 <= a < b < after.len() implies (#[trigger] after[a]).0@
                    != (#[trigger] after[b]).0@ by {
                    assert(after[a] == before[a]);
                    if b < n {
                        assert(after[b] == before[b]);
                    }
                }
                assert forall|key2: Seq<char>| #[trigger] smap(after).contains_key(key2) <==> smap(
                    before,
                ).insert(k@, val@).contains_key(key2) by {
                    if smap(after).contains_key(key2) {
                        let j = choose|j: int| 0 <= j < after.len() && (#[trigger] after[j]).0@ == key2;
                        if j < n {
                            assert(before[j] == after[j]);
                        }
                    }
                    if smap(before).contains_key(key2) {
                        let j = choose|j: int| 0 <= j < before.len() && (#[trigger] before[j]).0@ == key2;
                        assert(before[j] == after[j]);
                    }
                    if key2 == k@ {
                        assert(after[n].0@ == k@);
                    }
                }
                assert forall|key2: Seq<char>| #[trigger] smap(after).contains_key(key2) implies smap(
                    after,
                )[key2] == smap(before).insert(k@, val@)[key2] by {
                    let j = choose|j: int| 0 <= j < after.len() && (#[trigger] after[j]).0@ == key2;
                    lemma_smap_at(after, j);
                    if j != n {
                        assert(before[j] == after[j]);
                        lemma_smap_at(before, j);
                    }
                }
                assert(smap(after) =~= smap(before).insert(k@, val@));
            }
        },
    }
}

/// The value of a key.
pub fn get_entry<'a>(v: &'a Vec<(String, String)>, k: &str) -> (r: Option<&'a String>)
    requires
        distinct(v@),
    ensures
        match r {
            Some(x) => smap(v@).contains_key(k@) && smap(v@)[k@] == x@,
            None => !smap(v@).contains_key(k@),
        },
{
    match find_key(v, k) {
        Some(i) => {
            proof {
                lemma_smap_at(v@, i as int);
            }
            Some(&v[i].1)
        },
        None => None,
    }
}

// ---------------------------------------------------------------------------
// boot.config
// ---------------------------------------------------------------------------
/// A `key=value` line of boot.config (trimmed; blank lines and `#` or `;`
/// comments skipped): its trimmed key and value.
pub open spec fn boot_line(l: Seq<char>) -> Option<(Seq<char>, Seq<char>)> {
    let t = trim(l);
    if t.len() == 0 || t[0] == '#' || t[0] == ';' {
        None
    } else {
        match split_once_of(t, '=') {
            Some((k, v)) => Some((trim(k), trim(v))),
            None => None,
        }
    }
}

/// The settings of boot.config text; a later line for a key wins.
pub open spec fn boot_map(lines: Seq<Seq<char>>) -> Map<Seq<char>, Seq<char>>
    decreases lines.len(),
{
    if lines.len() == 0 {
        Map::empty()
    } else {
        match boot_line(lines.last()) {
            Some((k, v)) => boot_map(lines.drop_last()).insert(k, v),
            None => boot_map(lines.drop_last()),
        }
    }
}

pub fn parse_boot_config(content: &str) -> (r: Vec<(String, String)>)
    ensures
        distinct(r@),
        smap(r@) == boot_map(lines_of(content@)),
{
    let v = chars_of(content);
    let ls = lines_vec(&v);
    let mut out: Vec<(String, String)> = Vec::new();
    let mut i: usize = 0;
    assert(smap(out@) =~= Map::<Seq<char>, Seq<char>>::empty());
    while i < ls.len()
        invariant
            i <= ls.len(),
            views(ls@) == lines_of(content@),
            distinct(out@),
            smap(out@) == boot_map(views(ls@).take(i as int)),
        decreases ls.len() - i,
    {
        let ghost lv = views(ls@);
        assert(lv.take(i + 1).drop_last() =~= lv.take(i as int));
        assert(lv.take(i + 1).last() == ls@[i as int]@);
        let t = trim_vec(&ls[i]);
        if !(t.len() == 0 || t[0] == '#' || t[0] == ';') {
            match split_once_vec(&t, '=') {
                Some((k, val)) => {
                    let ks = string_of(&trim_vec(&k));
                    let vs = string_of(&trim_vec(&val));
                    set_entry(&mut out, ks, vs);
                },
                None => {},
            }
        }
        i += 1;
    }
    assert(views(ls@).take(i as int) =~= views(ls@));
    out
}

/// Keys in strictly increasing order.
pub open spec fn sorted_keys(v: Pairs) -> bool {
    forall|i: int, j: int| 0 <= i < j < v.len() ==> str_lt((#[trigger] v[i]).0@, (#[trigger] v[j]).0@)
}

/// The position where a key belongs in a sorted list.
pub(crate) fn insert_pos(v: &Vec<(String, String)>, k: &str) -> (r: usize)
    requires
        sorted_keys(v@),
    ensures
        r <= v.len(),
        forall|i: int| 0 <= i < r ==> str_lt((#[trigger] v@[i]).0@, k@),
        forall|i: int| r <= i < v.len() ==> !str_lt((#[trigger] v@[i]).0@, k@),
{
    let mut i: usize = 0;
    while i < v.len() && crate::text::str_less(v[i].0.as_str(), k)
        invariant
            i <= v.len(),
            sorted_keys(v@),
            forall|j: int| 0 <= j < i ==> str_lt((#[trigger] v@[j]).0@, k@),
        decreases v.len() - i,
    {
        i += 1;
    }
    proof {
        assert forall|j: int| i <= j < v.len() implies !str_lt((#[trigger] v@[j]).0@, k@) by {
            if j > i && str_lt(v@[j].0@, k@) {
                assert(str_lt(v@[i as int].0@, v@[j].0@));
                lemma_str_lt_trans(v@[i as int].0@, v@[j].0@, k@);
            }
        }
    }
    i
}

pub proof fn lemma_str_lt_trans(a: Seq<char>, b: Seq<char>, c: Seq<char>)
    requires
        str_lt(a, b),
        str_lt(b, c),
    ensures
        str_lt(a, c),
    decreases a.len(),
{
    if a.len() > 0 && b.len() > 0 && c.len() > 0 && a[0] == b[0] && b[0] == c[0] {
        lemma_str_lt_trans(a.drop_first(), b.drop_first(), c.drop_first());
    }
}

/// The entries in increasing key order.
pub fn sorted_by_key(v: &Vec<(String, String)>) -> (r: Vec<(String, String)>)
    requires
        distinct(v@),
    ensures
        distinct(r@),
        sorted_keys(r@),
        smap(r@) == smap(v@),
{
    let mut out: Vec<(String, String)> = Vec::new();
    let mut i: usize = 0;
    assert(smap(out@) =~= smap(v@.take(0)));
    while i < v.len()
        invariant
            i <= v.len(),
            distinct(v@),
            distinct(out@),
            sorted_keys(out@),
            smap(out@) == smap(v@.take(i as int)),
        decreases v.len() - i,
    {
        let k = v[i].0.clone();
        let val = v[i].1.clone();
        let pos = insert_pos(&out, k.as_str());
        let ghost before = out@;
        let ghost vt = v@.take(i as int);
        let ghost vt1 = v@.take(i + 1);
        proof {
            assert(!smap(vt).contains_key(k@)) by {
                if smap(vt).contains_key(k@) {
                    let j = choose|j: int| 0 <= j < vt.len() && (#[trigger] vt[j]).0@ == k@;
                    assert(vt[j] == v@[j]);
                }
            }
            assert(forall|j: int| 0 <= j < before.len() ==> (#[trigger] before[j]).0@ != k@) by {
                assert forall|j: int| 0 <= j < before.len() implies (#[trigger] before[j]).0@ != k@ by {
                    if before[j].0@ == k@ {
                        assert(smap(before).contains_key(k@));
                    }
                }
            }
        }
        out.insert(pos, (k, val));
        proof {
            let after = out@;
            assert forall|a: int, b: int| 0 <= a < b < after.len() implies str_lt(
                (#[trigger] after[a]).0@,
                (#[trigger] after[b]).0@,
            ) by {
                if a < pos && b < pos {
                    assert(after[a] == before[a] && after[b] == before[b]);
                } else if a < pos && b == pos {
                    assert(after[a] == before[a]);
                } else if a < pos {
                    assert(after[a] == before[a] && after[b] == before[b - 1]);
                    crate::text::lemma_str_lt_total(k@, before[b - 1].0@);
                    lemma_str_lt_trans(before[a].0@, k@, before[b - 1].0@);
                } else if a == pos {
                    assert(after[b] == before[b - 1]);
                    crate::text::lemma_str_lt_total(k@, before[b - 1].0@);
                } else {
                    assert(after[a] == before[a - 1] && after[b] == before[b - 1]);
                }
            }
            assert forall|a: int, b: int| 0 <= a < b < after.len() implies (#[trigger] after[a]).0@
                != (#[trigger] after[b]).0@ by {
                assert(str_lt(after[a].0@, after[b].0@));
                crate::text::lemma_str_lt_asym(after[a].0@, after[a].0@);
            }
            assert(vt1.drop_last() =~= vt);
            assert forall|key2: Seq<char>| #[trigger] smap(after).contains_key(key2) <==> smap(
                vt1,
            ).contains_key(key2) by {
                if smap(after).contains_key(key2) {
                    let j = choose|j: int| 0 <= j < after.len() && (#[trigger] after[j]).0@ == key2;
                    if j < pos {
                        assert(after[j] == before[j]);
                    } else if j > pos {
                        assert(after[j] == before[j - 1]);
                    } else {
                        assert(vt1[i as int].0@ == key2);
                    }
                    if j != pos {
                        assert(smap(before).contains_key(key2));
                        let m = choose|m: int| 0 <= m < vt.len() && (#[trigger] vt[m]).0@ == key2;
                        assert(vt1[m] == vt[m]);
                    }
                }
                if smap(vt1).contains_key(key2) {
                    let j = choose|j: int| 0 <= j < vt1.len() && (#[trigger] vt1[j]).0@ == key2;
                    if j < i {
                        assert(vt[j] == vt1[j]);
                        assert(smap(before).contains_key(key2));
                        let m = choose|m: int| 0 <= m < before.len() && (#[trigger] before[m]).0@ == key2;
                        if m < pos {
                            assert(after[m] == before[m]);
                        } else {
                            assert(after[m + 1] == before[m]);
                        }
                    } else {
                        assert(after[pos as int].0@ == key2);
                    }
                }
            }
            assert forall|key2: Seq<char>| #[trigger] smap(after).contains_key(key2) implies smap(
                after,
            )[key2] == smap(vt1)[key2] by {
                let j = choose|j: int| 0 <= j < after.len() && (#[trigger] after[j]).0@ == key2;
                lemma_smap_at(after, j);
                assert(distinct(vt1)) by {
                    assert forall|a: int, b: int| 0 <= a < b < vt1.len() implies (#[trigger] vt1[a]).0@
                        != (#[trigger] vt1[b]).0@ by {
                        assert(vt1[a] == v@[a] && vt1[b] == v@[b]);
                    }
                }
                if j == pos {
                    lemma_smap_at(vt1, i as int);
                } else {
                    let bj = if j < pos {
                        j
                    } else {
                        j - 1
                    };
                    assert(after[j] == before[bj]);
                    lemma_smap_at(before, bj);
                    assert(distinct(vt)) by {
                        assert forall|a: int, b: int| 0 <= a < b < vt.len() implies (#[trigger] vt[a]).0@
                            != (#[trigger] vt[b]).0@ by {
                            assert(vt[a] == v@[a] && vt[b] == v@[b]);
                        }
                    }
                    let m = choose|m: int| 0 <= m < vt.len() && (#[trigger] vt[m]).0@ == key2;
                    lemma_smap_at(vt, m);
                    assert(vt1[m] == vt[m]);
                    lemma_smap_at(vt1, m);
                }
            }
            assert(smap(after) =~= smap(vt1));
        }
        i += 1;
    }
    assert(v@.take(i as int) =~= v@);
    out
}

/// The text of sorted entries: `key=value` lines, each ending in `\n`.
pub open spec fn boot_text(v: Pairs) -> Seq<char> {
    join(v.map_values(|e: (String, String)| e.0@ + "="@ + e.1@), "\n"@) + "\n"@
}

/// A setting that boot.config text can carry: neither part holds a line
/// break, both are their own trim, the key holds no `=` and does not start
/// a comment.
pub open spec fn clean_setting(k: Seq<char>, v: Seq<char>) -> bool {
    &&& !has_char(k, '\n')
    &&& !has_char(v, '\n')
    &&& trim(k) == k
    &&& trim(v) == v
    &&& !has_char(k, '=')
    &&& !(k.len() > 0 && (k[0] == '#' || k[0] == ';'))
}

pub open spec fn boot_lines(s: Pairs) -> Seq<Seq<char>> {
    s.map_values(|e: (String, String)| e.0@ + "="@ + e.1@)
}

proof fn lemma_trimmed_ends(t: Seq<char>)
    requires
        trim(t) == t,
        t.len() > 0,
    ensures
        !crate::text::is_ws(t[0]),
        !crate::text::is_ws(t.last()),
{
    crate::text::lemma_trim_ends(t);
}

/// The line of a clean setting reads back as that setting.
proof fn lemma_boot_line(k: Seq<char>, v: Seq<char>)
    requires
        clean_setting(k, v),
    ensures
        boot_line(k + "="@ + v) == Some((k, v)),
        !has_char(k + "="@ + v, '\n'),
        (k + "="@ + v).len() > 0 && (k + "="@ + v).last() != '\r',
{
    reveal_strlit("=");
    let l = k + "="@ + v;
    assert(l[k.len() as int] == '=');
    if k.len() > 0 {
        lemma_trimmed_ends(k);
        assert(l[0] == k[0]);
    }
    if v.len() > 0 {
        lemma_trimmed_ends(v);
        assert(l.last() == v.last());
    }
    crate::text::lemma_trim_id(l);
    assert forall|j: int| 0 <= j < k.len() implies l[j] != '=' by {
        assert(l[j] == k[j]);
        if k[j] == '=' {
            assert(has_char(k, '='));
        }
    }
    crate::text::lemma_idx_of_found(l, '=', k.len() as int);
    assert(l.take(k.len() as int) =~= k);
    assert(l.skip(k.len() as int + 1) =~= v);
    if has_char(l, '\n') {
        let j = choose|j: int| 0 <= j < l.len() && l[j] == '\n';
        if j < k.len() {
            assert(k[j] == '\n');
        } else if j > k.len() {
            assert(v[j - k.len() - 1] == '\n');
        }
    }
}

/// Lines joined with line breaks, ending with one, split back into the
/// same lines.
proof fn lemma_lines_of_joined(ls: Seq<Seq<char>>)
    requires
        ls.len() > 0,
        forall|i: int| 0 <= i < ls.len() ==> !has_char(#[trigger] ls[i], '\n'),
        forall|i: int| 0 <= i < ls.len() ==> (#[trigger] ls[i]).len() > 0 && ls[i].last() != '\r',
    ensures
        lines_of(join(ls, "\n"@) + "\n"@) == ls,
    decreases ls.len(),
{
    reveal_strlit("\n");
    let first = ls[0];
    let rest_text = if ls.len() == 1 {
        "\n"@
    } else {
        join(ls.drop_first(), "\n"@) + "\n"@
    };
    let t = join(ls, "\n"@) + "\n"@;
    if ls.len() == 1 {
        assert(t =~= first + "\n"@);
    } else {
        assert(t =~= first + "\n"@ + (join(ls.drop_first(), "\n"@) + "\n"@));
    }
    assert forall|j: int| 0 <= j < first.len() implies t[j] != '\n' by {
        assert(t[j] == first[j]);
        if first[j] == '\n' {
            assert(has_char(first, '\n'));
        }
    }
    assert(t[first.len() as int] == '\n');
    crate::text::lemma_idx_of_found(t, '\n', first.len() as int);
    assert(t.take(first.len() as int) =~= first);
    if ls.len() == 1 {
        assert(t.skip(first.len() as int + 1) =~= Seq::<char>::empty());
        assert(crate::text::strip_cr(first) == first);
        assert(lines_of(Seq::<char>::empty()) =~= Seq::<Seq<char>>::empty());
        assert(lines_of(t) =~= seq![first]);
    } else {
        let rest = ls.drop_first();
        assert(t.skip(first.len() as int + 1) =~= join(rest, "\n"@) + "\n"@);
        assert forall|i: int| 0 <= i < rest.len() implies !has_char(#[trigger] rest[i], '\n') by {
            assert(rest[i] == ls[i + 1]);
        }
        assert forall|i: int| 0 <= i < rest.len() implies (#[trigger] rest[i]).len() > 0
            && rest[i].last() != '\r' by {
            assert(rest[i] == ls[i + 1]);
        }
        lemma_lines_of_joined(rest);
        assert(lines_of(t) =~= seq![first] + rest);
    }
}

/// With distinct keys, the last entry is inserted over the others.
proof fn lemma_smap_drop_last(v: Pairs)
    requires
        distinct(v),
        v.len() > 0,
    ensures
        smap(v) == smap(v.drop_last()).insert(v.last().0@, v.last().1@),
{
    let init = v.drop_last();
    let n = v.len() - 1;
    assert(distinct(init)) by {
        assert forall|a: int, b: int| 0 <= a < b < init.len() implies (#[trigger] init[a]).0@
            != (#[trigger] init[b]).0@ by {
            assert(init[a] == v[a] && init[b] == v[b]);
        }
    }
    let rhs = smap(init).insert(v.last().0@, v.last().1@);
    assert forall|k: Seq<char>| #[trigger] smap(v).contains_key(k) <==> rhs.contains_key(k) by {
        if smap(v).contains_key(k) {
            let j = choose|j: int| 0 <= j < v.len() && (#[trigger] v[j]).0@ == k;
            if j < n {
                assert(init[j] == v[j]);
            }
        }
        if smap(init).contains_key(k) {
            let j = choose|j: int| 0 <= j < init.len() && (#[trigger] init[j]).0@ == k;
            assert(v[j] == init[j]);
        }
        if k == v.last().0@ {
            assert(v[n].0@ == k);
        }
    }
    assert forall|k: Seq<char>| #[trigger] smap(v).contains_key(k) implies smap(v)[k] == rhs[k] by {
        let j = choose|j: int| 0 <= j < v.len() && (#[trigger] v[j]).0@ == k;
        lemma_smap_at(v, j);
        if j < n {
            assert(init[j] == v[j]);
            assert(v[j].0@ != v[n].0@);
            lemma_smap_at(init, j);
        }
    }
    assert(smap(v) =~= rhs);
}

proof fn lemma_boot_map_lines(s: Pairs)
    requires
        distinct(s),
        forall|i: int| 0 <= i < s.len() ==> clean_setting((#[trigger] s[i]).0@, s[i].1@),
    ensures
        boot_map(boot_lines(s)) == smap(s),
    decreases s.len(),
{
    if s.len() == 0 {
        assert(smap(s) =~= Map::<Seq<char>, Seq<char>>::empty());
    } else {
        let init = s.drop_last();
        assert(distinct(init)) by {
            assert forall|a: int, b: int| 0 <= a < b < init.len() implies (#[trigger] init[a]).0@
                != (#[trigger] init[b]).0@ by {
                assert(init[a] == s[a] && init[b] == s[b]);
            }
        }
        assert forall|i: int| 0 <= i < init.len() implies clean_setting((#[trigger] init[i]).0@, init[i].1@) by {
            assert(init[i] == s[i]);
        }
        lemma_boot_map_lines(init);
        let ls = boot_lines(s);
        assert(ls.drop_last() =~= boot_lines(init));
        let e = s.last();
        assert(clean_setting(s[s.len() - 1].0@, s[s.len() - 1].1@));
        lemma_boot_line(e.0@, e.1@);
        assert(ls.last() == e.0@ + "="@ + e.1@);
        lemma_smap_drop_last(s);
    }
}

/// Law: boot.config text written from settings that it can carry reads
/// back as the same settings (`s` is the key-ordered list that
/// `serialize_boot_config` writes for `m`).
pub proof fn written_boot_config_reads_back(m: Pairs, s: Pairs)
    requires
        distinct(m),
        forall|i: int| 0 <= i < m.len() ==> clean_setting((#[trigger] m[i]).0@, m[i].1@),
        distinct(s),
        smap(s) == smap(m),
    ensures
        boot_map(lines_of(boot_text(s))) == smap(m),
{
    assert forall|i: int| 0 <= i < s.len() implies clean_setting((#[trigger] s[i]).0@, s[i].1@) by {
        lemma_smap_at(s, i);
        let k = s[i].0@;
        assert(smap(m).contains_key(k));
        let j = choose|j: int| 0 <= j < m.len() && (#[trigger] m[j]).0@ == k;
        lemma_smap_at(m, j);
        assert(clean_setting(m[j].0@, m[j].1@));
    }
    lemma_boot_map_lines(s);
    let ls = boot_lines(s);
    reveal_strlit("\n");
    if s.len() == 0 {
        assert(boot_text(s) =~= "\n"@);
        let nl = "\n"@;
        assert(nl =~= seq!['\n']);
        let e = Seq::<char>::empty();
        assert(lines_of(nl) =~= seq![e]) by {
            crate::text::lemma_idx_of_found(nl, '\n', 0);
            assert(nl.skip(1) =~= e);
            assert(nl.take(0) =~= e);
            assert(crate::text::strip_cr(e) == e);
            assert(lines_of(e) =~= Seq::<Seq<char>>::empty());
        }
        let ls1 = seq![e];
        assert(boot_map(ls1) =~= Map::<Seq<char>, Seq<char>>::empty()) by {
            crate::text::lemma_trim_ends(e);
            assert(boot_line(e) is None);
            assert(ls1.drop_last() =~= Seq::<Seq<char>>::empty());
            assert(boot_map(ls1.drop_last()) =~= Map::<Seq<char>, Seq<char>>::empty());
            assert(ls1.last() == e);
            assert(boot_map(ls1) == boot_map(ls1.drop_last()));
        }
        assert(smap(s) =~= Map::<Seq<char>, Seq<char>>::empty());
    } else {
        assert forall|i: int| 0 <= i < ls.len() implies !has_char(#[trigger] ls[i], '\n') by {
            lemma_boot_line(s[i].0@, s[i].1@);
        }
        assert forall|i: int| 0 <= i < ls.len() implies (#[trigger] ls[i]).len() > 0 && ls[i].last()
            != '\r' by {
            lemma_boot_line(s[i].0@, s[i].1@);
        }
        lemma_lines_of_joined(ls);
    }
}

/// boot.config text: one `key=value` line per setting, in key order.
pub fn serialize_boot_config(map: &Vec<(String, String)>) -> (r: String)
    requires
        distinct(map@),
    ensures
        exists|s: Pairs| sorted_keys(s) && distinct(s) && smap(s) == smap(map@) && r@ == boot_text(s),
{
    let s = sorted_by_key(map);
    let mut lines: Vec<Vec<char>> = Vec::new();
    let mut i: usize = 0;
    while i < s.len()
        invariant
            i <= s.len(),
            views(lines@) == s@.take(i as int).map_values(|e: (String, String)| e.0@ + "="@ + e.1@),
        decreases s.len() - i,
    {
        let mut l = chars_of(s[i].0.as_str());
        l.push('=');
        crate::text::append_str(&mut l, s[i].1.as_str());
        proof {
            reveal_strlit("=");
            assert("="@ =~= seq!['=']);
            assert(l@ =~= s@[i as int].0@ + "="@ + s@[i as int].1@);
            crate::text::lemma_views_push(lines@, l);
        }
        let ghost lv_before = views(lines@);
        lines.push(l);
        assert(views(lines@) == lv_before.push(s@[i as int].0@ + "="@ + s@[i as int].1@));
        assert(views(lines@) =~= s@.take(i + 1).map_values(
            |e: (String, String)| e.0@ + "="@ + e.1@,
        ));
        i += 1;
    }
    assert(s@.take(i as int) =~= s@);
    let nl = chars_of("\n");
    let mut out = crate::text::join_vec(&lines, &nl);
    out.push('\n');
    proof {
        reveal_strlit("\n");
        assert(out@ =~= boot_text(s@));
    }
    string_of(&out)
}

pub open spec fn diff_view(e: ConfigDiffEntry) -> (Seq<char>, Seq<char>, Seq<char>, Option<Seq<char>>, Seq<char>) {
    (
        e.file@,
        e.section@,
        e.key@,
        match e.old_value {
            Some(o) => Some(o@),
            None => None,
        },
        e.new_value@,
    )
}

/// The changes that would alter boot.config, in the order given: each key
/// whose new value differs from the current one.
pub open spec fn boot_diff(old: Map<Seq<char>, Seq<char>>, changes: Pairs) -> Seq<
    (Seq<char>, Seq<char>, Seq<char>, Option<Seq<char>>, Seq<char>),
>
    decreases changes.len(),
{
    if changes.len() == 0 {
        seq![]
    } else {
        let rest = boot_diff(old, changes.drop_last());
        let (k, v) = changes.last();
        let o = if old.contains_key(k@) {
            Some(old[k@])
        } else {
            None
        };
        if o == Some(v@) {
            rest
        } else {
            rest.push(("boot.config"@, seq![], k@, o, v@))
        }
    }
}

/// The value a key has in a settings map, `None` when it is not there.
pub open spec fn current_value(old: Map<Seq<char>, Seq<char>>, k: Seq<char>) -> Option<Seq<char>> {
    if old.contains_key(k) {
        Some(old[k])
    } else {
        None
    }
}

/// Law: a boot.config diff lists real changes only and every one of them:
/// each entry is for boot.config, has the key's current value as its old
/// value, a new value different from it, and comes from a requested
/// change; and every requested change whose value differs from the
/// current one is listed, with the current value as its old value.
pub proof fn boot_diff_lists_real_changes(old: Map<Seq<char>, Seq<char>>, changes: Pairs)
    ensures
        boot_diff(old, changes).len() <= changes.len(),
        forall|j: int|
            0 <= j < boot_diff(old, changes).len() ==> {
                let e = #[trigger] boot_diff(old, changes)[j];
                &&& e.0 == "boot.config"@
                &&& e.1 == Seq::<char>::empty()
                &&& e.3 == current_value(old, e.2)
                &&& e.3 != Some(e.4)
                &&& exists|i: int|
                    0 <= i < changes.len() && (#[trigger] changes[i]).0@ == e.2 && changes[i].1@ == e.4
            },
        forall|i: int|
            0 <= i < changes.len() && current_value(old, (#[trigger] changes[i]).0@) != Some(
                changes[i].1@,
            ) ==> exists|j: int|
                0 <= j < boot_diff(old, changes).len() && #[trigger] boot_diff(old, changes)[j] == (
                    "boot.config"@,
                    Seq::<char>::empty(),
                    changes[i].0@,
                    current_value(old, changes[i].0@),
                    changes[i].1@,
                ),
    decreases changes.len(),
{
    if changes.len() > 0 {
        let init = changes.drop_last();
        boot_diff_lists_real_changes(old, init);
        let d0 = boot_diff(old, init);
        let d = boot_diff(old, changes);
        let n = changes.len() - 1;
        let (k, v) = changes.last();
        assert(changes[n] == changes.last());
        let o = current_value(old, k@);
        assert forall|j: int| 0 <= j < d.len() implies {
            let e = #[trigger] d[j];
            &&& e.0 == "boot.config"@
            &&& e.1 == Seq::<char>::empty()
            &&& e.3 == current_value(old, e.2)
            &&& e.3 != Some(e.4)
            &&& exists|i: int|
                0 <= i < changes.len() && (#[trigger] changes[i]).0@ == e.2 && changes[i].1@ == e.4
        } by {
            if j < d0.len() {
                assert(d[j] == d0[j]);
                let e = d0[j];
                let i = choose|i: int| 0 <= i < init.len() && (#[trigger] init[i]).0@ == e.2 && init[i].1@ == e.4;
                assert(changes[i] == init[i]);
            } else {
                assert(d[j] == ("boot.config"@, Seq::<char>::empty(), k@, o, v@));
                assert(changes[n].0@ == k@);
            }
        }
        assert forall|i: int|
            0 <= i < changes.len() && current_value(old, (#[trigger] changes[i]).0@) != Some(
                changes[i].1@,
            ) implies exists|j: int|
            0 <= j < d.len() && #[trigger] d[j] == (
                "boot.config"@,
                Seq::<char>::empty(),
                changes[i].0@,
                current_value(old, changes[i].0@),
                changes[i].1@,
            ) by {
            if i < n {
                assert(changes[i] == init[i]);
                let j = choose|j: int|
                    0 <= j < d0.len() && #[trigger] d0[j] == (
                        "boot.config"@,
                        Seq::<char>::empty(),
                        init[i].0@,
                        current_value(old, init[i].0@),
                        init[i].1@,
                    );
                assert(d[j] == d0[j]);
            } else {
                assert(d[d0.len() as int] == ("boot.config"@, Seq::<char>::empty(), k@, o, v@));
            }
        }
    }
}

/// The current boot.config settings: those of its text, none without one.
pub open spec fn current_boot(old_content: Option<Seq<char>>) -> Map<Seq<char>, Seq<char>> {
    match old_content {
        Some(c) => boot_map(lines_of(c)),
        None => Map::empty(),
    }
}

/// What applying `changes` to boot.config (with text `old_content`, if
/// any) would change.
pub fn preview_boot_config_diff(old_content: Option<&str>, changes: &Vec<(String, String)>) -> (r: Vec<
    ConfigDiffEntry,
>)
    ensures
        r@.map_values(|e: ConfigDiffEntry| diff_view(e)) == boot_diff(
            current_boot(
                match old_content {
                    Some(c) => Some(c@),
                    None => None,
                },
            ),
            changes@,
        ),
        forall|j: int|
            0 <= j < r@.len() ==> ((#[trigger] r@[j]).old_value matches Some(o) ==> o@
                != r@[j].new_value@),
        forall|i: int|
            0 <= i < changes@.len() && current_value(
                current_boot(
                    match old_content {
                        Some(c) => Some(c@),
                        None => None,
                    },
                ),
                (#[trigger] changes@[i]).0@,
            ) != Some(changes@[i].1@) ==> exists|j: int|
                0 <= j < r@.len() && (#[trigger] r@[j]).key@ == changes@[i].0@ && r@[j].new_value@
                    == changes@[i].1@,
{
    let old: Vec<(String, String)> = match old_content {
        Some(c) => parse_boot_config(c),
        None => Vec::new(),
    };
    let ghost om = current_boot(
        match old_content {
            Some(c) => Some(c@),
            None => None,
        },
    );
    assert(smap(old@) == om) by {
        if old_content is None {
            assert(smap(old@) =~= Map::<Seq<char>, Seq<char>>::empty());
        }
    }
    let mut out: Vec<ConfigDiffEntry> = Vec::new();
    let mut i: usize = 0;
    while i < changes.len()
        invariant
            i <= changes.len(),
            distinct(old@),
            smap(old@) == om,
            out@.map_values(|e: ConfigDiffEntry| diff_view(e)) == boot_diff(om, changes@.take(i as int)),
        decreases changes.len() - i,
    {
        assert(changes@.take(i + 1).drop_last() =~= changes@.take(i as int));
        assert(changes@.take(i + 1).last() == changes@[i as int]);
        let k = &changes[i].0;
        let v = &changes[i].1;
        let cur = get_entry(&old, k.as_str());
        let same = match cur {
            Some(o) => crate::text::str_eq(o.as_str(), v.as_str()),
            None => false,
        };
        if !same {
            let e = ConfigDiffEntry {
                file: crate::text::owned("boot.config"),
                section: String::new(),
                key: k.clone(),
                old_value: match cur {
                    Some(o) => Some(o.clone()),
                    None => None,
                },
                new_value: v.clone(),
            };
            let ghost before = out@;
            out.push(e);
            proof {
                assert(e.section@ == Seq::<char>::empty());
                assert(out@.map_values(|e: ConfigDiffEntry| diff_view(e)) =~= before.map_values(
                    |e: ConfigDiffEntry| diff_view(e),
                ).push(diff_view(e)));
            }
        }
        i += 1;
    }
    assert(changes@.take(i as int) =~= changes@);
    proof {
        boot_diff_lists_real_changes(om, changes@);
        let d = boot_diff(om, changes@);
        assert forall|j: int| 0 <= j < out@.len() implies ((#[trigger] out@[j]).old_value matches Some(
            o,
        ) ==> o@ != out@[j].new_value@) by {
            assert(diff_view(out@[j]) == d[j]);
        }
        assert forall|i: int|
            0 <= i < changes@.len() && current_value(om, (#[trigger] changes@[i]).0@) != Some(
                changes@[i].1@,
            ) implies exists|j: int|
            0 <= j < out@.len() && (#[trigger] out@[j]).key@ == changes@[i].0@ && out@[j].new_value@
                == changes@[i].1@ by {
            let j = choose|j: int|
                0 <= j < d.len() && #[trigger] d[j] == (
                    "boot.config"@,
                    Seq::<char>::empty(),
                    changes@[i].0@,
                    current_value(om, changes@[i].0@),
                    changes@[i].1@,
                );
            assert(diff_view(out@[j]) == d[j]);
        }
    }
    out
}

/// The boot.config settings after applying `changes`.
pub open spec fn applied_boot(old: Map<Seq<char>, Seq<char>>, changes: Pairs) -> Map<Seq<char>, Seq<char>>
    decreases changes.len(),
{
    if changes.len() == 0 {
        old
    } else {
        applied_boot(old, changes.drop_last()).insert(changes.last().0@, changes.last().1@)
    }
}

/// Applies changes to boot.config: the files written, what changed, and
/// the new text.
pub fn apply_boot_config(old_content: Option<&str>, changes: &Vec<(String, String)>) -> (r: (
    Vec<String>,
    Vec<ConfigDiffEntry>,
    String,
))
    ensures
        ({
            let cur = current_boot(
                match old_content {
                    Some(c) => Some(c@),
                    None => None,
                },
            );
            &&& str_views(r.0@) == seq!["boot.config"@]
            &&& r.1@.map_values(|e: ConfigDiffEntry| diff_view(e)) == boot_diff(cur, changes@)
            &&& exists|s: Pairs|
                sorted_keys(s) && distinct(s) && smap(s) == applied_boot(cur, changes@) && r.2@
                    == boot_text(s)
        }),
{
    let mut map: Vec<(String, String)> = match old_content {
        Some(c) => parse_boot_config(c),
        None => Vec::new(),
    };
    let ghost om = current_boot(
        match old_content {
            Some(c) => Some(c@),
            None => None,
        },
    );
    assert(smap(map@) == om) by {
        if old_content is None {
            assert(smap(map@) =~= Map::<Seq<char>, Seq<char>>::empty());
        }
    }
    let diff = preview_boot_config_diff(old_content, changes);
    let mut i: usize = 0;
    while i < changes.len()
        invariant
            i <= changes.len(),
            distinct(map@),
            smap(map@) == applied_boot(om, changes@.take(i as int)),
        decreases changes.len() - i,
    {
        assert(changes@.take(i + 1).drop_last() =~= changes@.take(i as int));
        set_entry(&mut map, changes[i].0.clone(), changes[i].1.clone());
        i += 1;
    }
    assert(changes@.take(i as int) =~= changes@);
    let text = serialize_boot_config(&map);
    let mut files: Vec<String> = Vec::new();
    files.push(crate::text::owned("boot.config"));
    assert(str_views(files@) =~= seq!["boot.config"@]);
    (files, diff, text)
}

/// boot.config in a config directory.
pub fn boot_config_path(config_dir: &str) -> (r: String)
    ensures
        r@ == join_spec(config_dir@, "boot.config"@),
{
    crate::paths::join(config_dir, "boot.config")
}

/// A Unity config directory holds boot.config, or is a `*_Data` directory.
pub fn is_unity_config_dir(path: &str, boot_is_file: bool, is_dir: bool) -> (r: bool)
    ensures
        r == (boot_is_file || (has_suffix(path@, "_Data"@) && is_dir)),
{
    if boot_is_file {
        return true;
    }
    let v = chars_of(path);
    crate::text::ends_with_str(&v, "_Data") && is_dir
}

// ---------------------------------------------------------------------------
// Unity presets
// ---------------------------------------------------------------------------
#[derive(Debug, Clone)]
pub struct UnityPresetDefinition {
    pub id: String,
    pub name: String,
    pub description: String,
    pub boot_config: Vec<(String, String)>,
}

pub open spec fn unity_preset_ids() -> Seq<Seq<char>> {
    seq!["ultra-low"@, "low"@, "medium"@, "high"@, "epic"@, "ultra-high"@]
}

/// The ids of the shipped Unity presets, in menu order.
pub fn unity_preset_ids_list() -> (r: Vec<&'static str>)
    ensures
        r@.map_values(|s: &str| s@) == unity_preset_ids(),
{
    let r = vec!["ultra-low", "low", "medium", "high", "epic", "ultra-high"];
    assert(r@.map_values(|s: &str| s@) =~= unity_preset_ids());
    r
}

/// Where a shipped Unity preset's JSON is.
pub fn unity_preset_file(presets_dir: &str, id: &str) -> (r: String)
    ensures
        r@ == join_spec(presets_dir@, id@ + ".json"@),
{
    let mut name = chars_of(id);
    crate::text::append_str(&mut name, ".json");
    let n = string_of(&name);
    crate::paths::join(presets_dir, n.as_str())
}

pub open spec fn pinfo(p: PresetInfo) -> (Seq<char>, Seq<char>, Seq<char>) {
    (p.id@, p.name@, p.description@)
}

/// The Unity presets offered: the cached Unity pack's, when it has any;
/// else the shipped ones that could be loaded.
pub fn list_unity_presets(
    shipped: &Vec<UnityPresetDefinition>,
    pack: Option<&crate::remote_presets::manifest::ResolvedPack>,
) -> (r: Vec<PresetInfo>)
    ensures
        match pack {
            Some(p) => if p.manifest.presets@.len() > 0 {
                r@.map_values(|x: PresetInfo| pinfo(x)) == p.manifest.presets@.map_values(
                    |e: crate::remote_presets::manifest::PackPresetEntry|
                        crate::remote_presets::manifest::entry_info(e),
                )
            } else {
                r@.map_values(|x: PresetInfo| pinfo(x)) == shipped@.map_values(
                    |d: UnityPresetDefinition| (d.id@, d.name@, d.description@),
                )
            },
            None => r@.map_values(|x: PresetInfo| pinfo(x)) == shipped@.map_values(
                |d: UnityPresetDefinition| (d.id@, d.name@, d.description@),
            ),
        },
{
    match pack {
        Some(p) => {
            if p.manifest.presets.len() > 0 {
                let r = p.manifest.presets_info();
                assert(r@.map_values(|x: PresetInfo| pinfo(x)) =~= p.manifest.presets@.map_values(
                    |e: crate::remote_presets::manifest::PackPresetEntry|
                        crate::remote_presets::manifest::entry_info(e),
                ));
                return r;
            }
        },
        None => {},
    }
    let mut out: Vec<PresetInfo> = Vec::new();
    let mut i: usize = 0;
    while i < shipped.len()
        invariant
            i <= shipped.len(),
            out@.map_values(|x: PresetInfo| pinfo(x)) == shipped@.take(i as int).map_values(
                |d: UnityPresetDefinition| (d.id@, d.name@, d.description@),
            ),
        decreases shipped.len() - i,
    {
        let d = &shipped[i];
        let info = PresetInfo { id: d.id.clone(), name: d.name.clone(), description: d.description.clone() };
        let ghost before = out@;
        out.push(info);
        assert(out@.map_values(|x: PresetInfo| pinfo(x)) =~= before.map_values(|x: PresetInfo| pinfo(x)).push(pinfo(info)));
        assert(out@.map_values(|x: PresetInfo| pinfo(x)) =~= shipped@.take(i + 1).map_values(
            |d: UnityPresetDefinition| (d.id@, d.name@, d.description@),
        ));
        i += 1;
    }
    assert(shipped@.take(i as int) =~= shipped@);
    out
}

fn copy_pairs(v: &Vec<(String, String)>) -> (r: Vec<(String, String)>)
    ensures
        r@ == v@,
{
    let mut out: Vec<(String, String)> = Vec::new();
    let mut i: usize = 0;
    while i < v.len()
        invariant
            i <= v.len(),
            out@ == v@.take(i as int),
        decreases v.len() - i,
    {
        out.push((v[i].0.clone(), v[i].1.clone()));
        assert(out@ =~= v@.take(i + 1));
        i += 1;
    }
    assert(v@.take(i as int) =~= v@);
    out
}

/// A Unity preset as a generic preset: its boot.config settings under an
/// unnamed section of `boot.config`.
pub fn unity_preset_as_definition(preset: &UnityPresetDefinition) -> (r: PresetDefinition)
    ensures
        r.id == preset.id,
        r.name == preset.name,
        r.description == preset.description,
        r.files@.len() == 1,
        r.files@[0].0@ == "boot.config"@,
        r.files@[0].1@.len() == 1,
        r.files@[0].1@[0].0@ == Seq::<char>::empty(),
        r.files@[0].1@[0].1@ == preset.boot_config@,
{
    let boot = copy_pairs(&preset.boot_config);
    let mut sections: Vec<(String, Vec<(String, String)>)> = Vec::new();
    sections.push((String::new(), boot));
    let mut files: Vec<(String, Vec<(String, Vec<(String, String)>)>)> = Vec::new();
    files.push((crate::text::owned("boot.config"), sections));
    PresetDefinition {
        id: preset.id.clone(),
        name: preset.name.clone(),
        description: preset.description.clone(),
        files,
    }
}

/// What applying a Unity preset would change.
pub fn preview_unity_preset(old_content: Option<&str>, preset: &UnityPresetDefinition) -> (r: Vec<
    ConfigDiffEntry,
>)
    ensures
        r@.map_values(|e: ConfigDiffEntry| diff_view(e)) == boot_diff(
            current_boot(
                match old_content {
                    Some(c) => Some(c@),
                    None => None,
                },
            ),
            preset.boot_config@,
        ),
{
    preview_boot_config_diff(old_content, &preset.boot_config)
}

/// Applies a Unity preset's boot.config settings to the current boot.config
/// (`old_content`, `None` when there is none): the files written, the diff,
/// and the new text.
pub fn apply_unity_preset(old_content: Option<&str>, preset: &UnityPresetDefinition) -> (r: (
    Vec<String>,
    Vec<ConfigDiffEntry>,
    String,
))
    ensures
        ({
            let cur = current_boot(
                match old_content {
                    Some(c) => Some(c@),
                    None => None,
                },
            );
            &&& str_views(r.0@) == seq!["boot.config"@]
            &&& r.1@.map_values(|e: ConfigDiffEntry| diff_view(e)) == boot_diff(cur, preset.boot_config@)
            &&& exists|s: Pairs|
                sorted_keys(s) && distinct(s) && smap(s) == applied_boot(cur, preset.boot_config@) && r.2@
                    == boot_text(s)
        }),
{
    apply_boot_config(old_content, &preset.boot_config)
}

/// Where the shipped Unity presets are under a resource root.
pub fn presets_dir(resource_root: &str) -> (r: String)
    ensures
        r@ == join_spec(join_spec(resource_root@, "presets"@), "unity"@),
{
    let p = crate::paths::join(resource_root, "presets");
    crate::paths::join(p.as_str(), "unity")
}

/// Files of a config directory that a Unity backup keeps besides
/// boot.config: JSON files and `prefs`.
pub fn is_backup_file(name: &str) -> (r: bool)
    ensures
        r == (has_suffix(name@, ".json"@) || name@ == "prefs"@),
{
    let v = chars_of(name);
    crate::text::ends_with_str(&v, ".json") || crate::text::str_eq(name, "prefs")
}

// ---------------------------------------------------------------------------
// Where a Unity game's config is
// ---------------------------------------------------------------------------
/// The config directory the known-games data gives a Unity game: its data
/// subdirectory under the install directory, else its LocalLow folder,
/// whichever exists (`existing` lists the paths that exist).
pub open spec fn known_unity_dir_spec(
    known: Seq<KnownGameEntry>,
    app_id: Seq<char>,
    install: Seq<char>,
    local_low_root: Option<Seq<char>>,
    existing: Seq<String>,
) -> Option<Seq<char>> {
    let i = crate::known_games::entry_index(known, app_id);
    if i < 0 {
        None
    } else {
        let e = known[i];
        if crate::known_games::opt_sv(e.engine_family) != Some("unity"@) {
            None
        } else {
            let from_data = match e.unity_data_subdir {
                Some(d) => if any_eq(existing, join_spec(install, d@)) {
                    Some(join_spec(install, d@))
                } else {
                    None
                },
                None => None,
            };
            if from_data is Some {
                from_data
            } else {
                match (e.local_low_folder, local_low_root) {
                    (Some(f), Some(root)) => if any_eq(existing, join_spec(root, f@)) {
                        Some(join_spec(root, f@))
                    } else {
                        None
                    },
                    _ => None,
                }
            }
        }
    }
}

pub fn known_unity_config_dir(
    known: &Vec<KnownGameEntry>,
    app_id: &str,
    install_dir: &str,
    local_low_root: Option<&str>,
    existing: &Vec<String>,
) -> (r: Option<String>)
    ensures
        crate::known_games::opt_sv(r) == known_unity_dir_spec(
            known@,
            app_id@,
            install_dir@,
            match local_low_root {
                Some(x) => Some(x@),
                None => None,
            },
            existing@,
        ),
{
    proof {
        crate::known_games::lemma_entry_index(known@, app_id@);
    }
    let av = chars_of(app_id);
    let i = match crate::known_games::entry_index_exec(known, &av) {
        Some(i) => i,
        None => {
            return None;
        },
    };
    let e = &known[i];
    let is_unity = match &e.engine_family {
        Some(f) => crate::text::str_eq(f.as_str(), "unity"),
        None => false,
    };
    if !is_unity {
        return None;
    }
    match &e.unity_data_subdir {
        Some(d) => {
            let p = crate::paths::join(install_dir, d.as_str());
            if crate::known_games::list_has(existing, &chars_of(p.as_str())) {
                return Some(p);
            }
        },
        None => {},
    }
    match (&e.local_low_folder, local_low_root) {
        (Some(f), Some(root)) => {
            let p = crate::paths::join(root, f.as_str());
            if crate::known_games::list_has(existing, &chars_of(p.as_str())) {
                Some(p)
            } else {
                None
            }
        },
        _ => None,
    }
}

/// The stem of a file name: before its last dot, unless that dot is the
/// first character.
pub open spec fn stem_of(name: Seq<char>) -> Seq<char> {
    let i = crate::text::last_idx_of(name, '.');
    if i > 0 {
        name.take(i)
    } else {
        name
    }
}

pub open spec fn without_chars(s: Seq<char>, a: char, b: char) -> Seq<char>
    decreases s.len(),
{
    if s.len() == 0 {
        seq![]
    } else if s.last() == a || s.last() == b {
        without_chars(s.drop_last(), a, b)
    } else {
        without_chars(s.drop_last(), a, b).push(s.last())
    }
}

fn without_chars_exec(v: &Vec<char>, a: char, b: char) -> (r: Vec<char>)
    ensures
        r@ == without_chars(v@, a, b),
{
    let mut out: Vec<char> = Vec::new();
    let mut i: usize = 0;
    while i < v.len()
        invariant
            i <= v.len(),
            out@ == without_chars(v@.take(i as int), a, b),
        decreases v.len() - i,
    {
        assert(v@.take(i + 1).drop_last() =~= v@.take(i as int));
        if v[i] != a && v[i] != b {
            out.push(v[i]);
        }
        i += 1;
    }
    assert(v@.take(i as int) =~= v@);
    out
}

fn stem_exec(name: &str) -> (r: Vec<char>)
    ensures
        r@ == stem_of(name@),
{
    let v = chars_of(name);
    match crate::text::last_index_of(&v, '.') {
        Some(i) => if i > 0 {
            crate::text::subvec(&v, 0, i)
        } else {
            v
        },
        None => v,
    }
}

/// Strings in strictly increasing order.
pub open spec fn sorted_strs(v: Seq<String>) -> bool {
    forall|i: int, j: int| 0 <= i < j < v.len() ==> str_lt((#[trigger] v[i])@, (#[trigger] v[j])@)
}

/// Adds a string to a sorted list unless it is there.
pub(crate) fn insert_sorted(v: &mut Vec<String>, s: String)
    requires
        sorted_strs(old(v)@),
    ensures
        sorted_strs(final(v)@),
        forall|x: Seq<char>| any_eq(final(v)@, x) <==> (any_eq(old(v)@, x) || x == s@),
{
    let mut i: usize = 0;
    while i < v.len() && crate::text::str_less(v[i].as_str(), s.as_str())
        invariant
            i <= v.len(),
            forall|j: int| 0 <= j < i ==> str_lt((#[trigger] v@[j])@, s@),
        decreases v.len() - i,
    {
        i += 1;
    }
    let ghost before = v@;
    if i < v.len() && crate::text::str_eq(v[i].as_str(), s.as_str()) {
        assert(any_eq(before, s@));
        return;
    }
    proof {
        assert forall|j: int| i <= j < before.len() implies str_lt(s@, (#[trigger] before[j])@) by {
            if j == i {
                crate::text::lemma_str_lt_total(s@, before[j]@);
            } else {
                crate::text::lemma_str_lt_total(s@, before[i as int]@);
                lemma_str_lt_trans(s@, before[i as int]@, before[j]@);
            }
        }
    }
    v.insert(i, s);
    proof {
        let after = v@;
        assert forall|a: int, b: int| 0 <= a < b < after.len() implies str_lt(
            (#[trigger] after[a])@,
            (#[trigger] after[b])@,
        ) by {
            if b < i {
                assert(after[a] == before[a] && after[b] == before[b]);
            } else if b == i {
                assert(after[a] == before[a]);
            } else if a < i {
                assert(after[a] == before[a] && after[b] == before[b - 1]);
                lemma_str_lt_trans(before[a]@, s@, before[b - 1]@);
            } else if a == i {
                assert(after[b] == before[b - 1]);
            } else {
                assert(after[a] == before[a - 1] && after[b] == before[b - 1]);
            }
        }
        assert forall|x: Seq<char>| any_eq(after, x) <==> (any_eq(before, x) || x == s@) by {
            if any_eq(after, x) {
                let k = choose|k: int| 0 <= k < after.len() && (#[trigger] after[k])@ == x;
                if k < i {
                    assert(after[k] == before[k]);
                } else if k > i {
                    assert(after[k] == before[k - 1]);
                }
            }
            if any_eq(before, x) {
                let k = choose|k: int| 0 <= k < before.len() && (#[trigger] before[k])@ == x;
                if k < i {
                    assert(after[k] == before[k]);
                } else {
                    assert(after[k + 1] == before[k]);
                }
            }
            if x == s@ {
                assert(after[i as int]@ == x);
            }
        }
    }
}

pub open spec fn spaces_removed(s: Seq<char>) -> Seq<char> {
    without_chars(s, ' ', ' ')
}

/// Names a game's LocalLow folder may carry: the executable's stem with
/// and without `-` and `_`, the game name without spaces (as is and
/// lower-cased), and the install folder's name.
pub open spec fn candidate_names(
    exe_name: Option<Seq<char>>,
    game_name: Option<Seq<char>>,
    folder: Option<Seq<char>>,
) -> Seq<Seq<char>> {
    (match exe_name {
        Some(e) => seq![stem_of(e), without_chars(stem_of(e), '-', '_')],
        None => seq![],
    }) + (match game_name {
        Some(n) => seq![spaces_removed(n), spaces_removed(crate::text::lowercase_of(n))],
        None => seq![],
    }) + (match folder {
        Some(f) => seq![f],
        None => seq![],
    })
}

/// The candidate names, sorted, without repeats.
pub fn local_low_candidates(exe_name: Option<&str>, game_name: Option<&str>, folder: Option<&str>) -> (r:
    Vec<String>)
    ensures
        sorted_strs(r@),
        forall|x: Seq<char>|
            any_eq(r@, x) <==> candidate_names(
                match exe_name {
                    Some(e) => Some(e@),
                    None => None,
                },
                match game_name {
                    Some(n) => Some(n@),
                    None => None,
                },
                match folder {
                    Some(f) => Some(f@),
                    None => None,
                },
            ).contains(x),
{
    let ghost cands = candidate_names(
        match exe_name {
            Some(e) => Some(e@),
            None => None,
        },
        match game_name {
            Some(n) => Some(n@),
            None => None,
        },
        match folder {
            Some(f) => Some(f@),
            None => None,
        },
    );
    let mut raw: Vec<String> = Vec::new();
    match exe_name {
        Some(e) => {
            let st = stem_exec(e);
            raw.push(string_of(&st));
            raw.push(string_of(&without_chars_exec(&st, '-', '_')));
        },
        None => {},
    }
    match game_name {
        Some(n) => {
            raw.push(string_of(&without_chars_exec(&chars_of(n), ' ', ' ')));
            let l = crate::text::to_lowercase(n);
            raw.push(string_of(&without_chars_exec(&chars_of(l.as_str()), ' ', ' ')));
        },
        None => {},
    }
    match folder {
        Some(f) => raw.push(crate::text::owned(f)),
        None => {},
    }
    assert(str_views(raw@) =~= cands);
    let mut out: Vec<String> = Vec::new();
    let mut i: usize = 0;
    while i < raw.len()
        invariant
            i <= raw.len(),
            sorted_strs(out@),
            forall|x: Seq<char>| any_eq(out@, x) <==> str_views(raw@).take(i as int).contains(x),
        decreases raw.len() - i,
    {
        let ghost before = out@;
        let s = raw[i].clone();
        assert(s@ == raw@[i as int]@);
        insert_sorted(&mut out, s);
        proof {
            let t0 = str_views(raw@).take(i as int);
            let t1 = str_views(raw@).take(i + 1);
            assert(t1 =~= t0.push(raw@[i as int]@));
            assert forall|x: Seq<char>| any_eq(out@, x) <==> t1.contains(x) by {
                assert(any_eq(out@, x) <==> (any_eq(before, x) || x == s@));
                assert(any_eq(before, x) <==> t0.contains(x));
                if t1.contains(x) {
                    let k = choose|k: int| 0 <= k < t1.len() && t1[k] == x;
                    if k < i {
                        assert(t0[k] == x);
                    }
                }
                if t0.contains(x) {
                    let k = choose|k: int| 0 <= k < t0.len() && t0[k] == x;
                    assert(t1[k] == x);
                }
                if x == s@ {
                    assert(t1[i as int] == x);
                }
            }
        }
        i += 1;
    }
    assert(str_views(raw@).take(i as int) =~= str_views(raw@));
    out
}

/// A LocalLow product folder matches when, lower-cased, it contains a
/// candidate or a candidate contains it.
pub open spec fn product_matches(candidates: Seq<String>, product: Seq<char>) -> bool {
    exists|i: int|
        0 <= i < candidates.len() && ({
            let c = crate::text::lowercase_of((#[trigger] candidates[i])@);
            let p = crate::text::lowercase_of(product);
            crate::text::contains(p, c) || crate::text::contains(c, p)
        })
}

pub fn local_low_product_matches(candidates: &Vec<String>, product: &str) -> (r: bool)
    ensures
        r == product_matches(candidates@, product@),
{
    let p = chars_of(crate::text::to_lowercase(product).as_str());
    let mut i: usize = 0;
    while i < candidates.len()
        invariant
            i <= candidates.len(),
            p@ == crate::text::lowercase_of(product@),
            forall|k: int|
                0 <= k < i ==> !({
                    let c = crate::text::lowercase_of((#[trigger] candidates@[k])@);
                    crate::text::contains(p@, c) || crate::text::contains(c, p@)
                }),
        decreases candidates.len() - i,
    {
        let c = chars_of(crate::text::to_lowercase(candidates[i].as_str()).as_str());
        if crate::text::contains_vec(&p, &c) || crate::text::contains_vec(&c, &p) {
            return true;
        }
        i += 1;
    }
    false
}

/// The LocalLow folder of a game: the first product directory (as
/// `(path, name)`, company by company in listing order) whose name matches
/// one of the candidates.
pub fn resolve_local_low_dir(candidates: &Vec<String>, products: &Vec<(String, String)>) -> (r: Option<
    String,
>)
    ensures
        match r {
            Some(p) => exists|i: int|
                0 <= i < products.len() && product_matches(candidates@, (#[trigger] products@[i]).1@)
                    && products@[i].0@ == p@ && forall|j: int|
                    0 <= j < i ==> !product_matches(candidates@, (#[trigger] products@[j]).1@),
            None => forall|j: int|
                0 <= j < products.len() ==> !product_matches(candidates@, (#[trigger] products@[j]).1@),
        },
{
    let mut i: usize = 0;
    while i < products.len()
        invariant
            i <= products.len(),
            forall|j: int| 0 <= j < i ==> !product_matches(candidates@, (#[trigger] products@[j]).1@),
        decreases products.len() - i,
    {
        if local_low_product_matches(candidates, products[i].1.as_str()) {
            return Some(crate::text::owned(products[i].0.as_str()));
        }
        i += 1;
    }
    None
}

/// The first config directory found: the known one, else the `*_Data`
/// directory, else the LocalLow folder.
pub fn resolve_unity_config_dir(
    known_dir: Option<String>,
    data_dir: Option<String>,
    local_low: Option<String>,
) -> (r: Option<String>)
    ensures
        r == if known_dir is Some {
            known_dir
        } else if data_dir is Some {
            data_dir
        } else {
            local_low
        },
{
    if known_dir.is_some() {
        known_dir
    } else if data_dir.is_some() {
        data_dir
    } else {
        local_low
    }
}


// ---------------------------------------------------------------------------
// Law: applied changes read back
// ---------------------------------------------------------------------------
/// Every setting that boot.config lines read as is clean.
proof fn lemma_boot_map_clean(ls: Seq<Seq<char>>)
    requires
        forall|i: int| 0 <= i < ls.len() ==> !has_char(#[trigger] ls[i], '\n'),
    ensures
        forall|k: Seq<char>| #[trigger] boot_map(ls).contains_key(k) ==> clean_setting(k, boot_map(ls)[k]),
    decreases ls.len(),
{
    if ls.len() > 0 {
        let init = ls.drop_last();
        assert forall|i: int| 0 <= i < init.len() implies !has_char(#[trigger] init[i], '\n') by {
            assert(init[i] == ls[i]);
        }
        lemma_boot_map_clean(init);
        let l = ls.last();
        assert(!has_char(l, '\n'));
        let m0 = boot_map(init);
        match boot_line(l) {
            Some((k, v)) => {
                lemma_boot_line_clean(l);
                assert(boot_map(ls) == m0.insert(k, v));
                assert forall|k2: Seq<char>| #[trigger] boot_map(ls).contains_key(k2) implies clean_setting(
                    k2,
                    boot_map(ls)[k2],
                ) by {
                    if k2 != k {
                        assert(m0.contains_key(k2));
                    }
                }
            },
            None => {
                assert(boot_map(ls) == m0);
            },
        }
    }
}

/// A line that reads as a setting gives a clean one.
proof fn lemma_boot_line_clean(l: Seq<char>)
    requires
        !has_char(l, '\n'),
        boot_line(l) is Some,
    ensures
        boot_line(l) matches Some((k, v)) && clean_setting(k, v),
{
    reveal_strlit("=");
    let t = trim(l);
    crate::text::lemma_trim_no_char(l, '\n');
    crate::text::lemma_trim_idem(l);
    lemma_trimmed_ends(t);
    crate::text::lemma_idx_of_bounds(t, '=');
    let i = crate::text::idx_of(t, '=');
    let k0 = t.take(i);
    let v0 = t.skip(i + 1);
    crate::text::lemma_sub_no_char(t, '\n', 0, i);
    crate::text::lemma_sub_no_char(t, '\n', i + 1, t.len() as int);
    assert(!has_char(k0, '=')) by {
        if has_char(k0, '=') {
            let j = choose|j: int| 0 <= j < k0.len() && k0[j] == '=';
            assert(t[j] == '=');
        }
    }
    let k = trim(k0);
    crate::text::lemma_trim_no_char(k0, '\n');
    crate::text::lemma_trim_no_char(k0, '=');
    crate::text::lemma_trim_no_char(v0, '\n');
    crate::text::lemma_trim_idem(k0);
    crate::text::lemma_trim_idem(v0);
    crate::text::lemma_trim_ends(k0);
    if k.len() > 0 {
        assert(k0[0] == t[0]);
        crate::text::lemma_lead_ws(k0, 0);
        assert(k[0] == k0[0]);
    }
}

/// Changes that boot.config text can carry keep the settings clean.
proof fn lemma_applied_clean(old: Map<Seq<char>, Seq<char>>, changes: Pairs)
    requires
        forall|k: Seq<char>| #[trigger] old.contains_key(k) ==> clean_setting(k, old[k]),
        forall|i: int| 0 <= i < changes.len() ==> clean_setting((#[trigger] changes[i]).0@, changes[i].1@),
    ensures
        forall|k: Seq<char>|
            #[trigger] applied_boot(old, changes).contains_key(k) ==> clean_setting(
                k,
                applied_boot(old, changes)[k],
            ),
    decreases changes.len(),
{
    if changes.len() > 0 {
        let init = changes.drop_last();
        assert forall|i: int| 0 <= i < init.len() implies clean_setting((#[trigger] init[i]).0@, init[i].1@) by {
            assert(init[i] == changes[i]);
        }
        lemma_applied_clean(old, init);
        let last = changes[changes.len() - 1];
        assert(clean_setting(last.0@, last.1@));
        let m0 = applied_boot(old, init);
        assert(applied_boot(old, changes) == m0.insert(last.0@, last.1@));
        assert forall|k2: Seq<char>| #[trigger] applied_boot(old, changes).contains_key(k2) implies clean_setting(
            k2,
            applied_boot(old, changes)[k2],
        ) by {
            if k2 != last.0@ {
                assert(m0.contains_key(k2));
            }
        }
    }
}

/// Law: the boot.config text that applying clean changes writes (in the
/// key order `s` that `apply_boot_config` writes) reads back as the current
/// settings with the changes applied, a later change to a key winning.
pub proof fn applied_boot_config_reads_back(old_content: Option<Seq<char>>, changes: Pairs, s: Pairs)
    requires
        forall|i: int| 0 <= i < changes.len() ==> clean_setting((#[trigger] changes[i]).0@, changes[i].1@),
        distinct(s),
        smap(s) == applied_boot(current_boot(old_content), changes),
    ensures
        boot_map(lines_of(boot_text(s))) == applied_boot(current_boot(old_content), changes),
{
    let cur = current_boot(old_content);
    match old_content {
        Some(c) => {
            crate::text::lemma_lines_no_nl(c);
            lemma_boot_map_clean(lines_of(c));
        },
        None => {},
    }
    lemma_applied_clean(cur, changes);
    assert forall|i: int| 0 <= i < s.len() implies clean_setting((#[trigger] s[i]).0@, s[i].1@) by {
        lemma_smap_at(s, i);
    }
    written_boot_config_reads_back(s, s);
}

} // verus!
