//! Checks on identifiers and INI text that comes from users, manifests and
//! install markers.
use vstd::prelude::*;
use crate::text::{chars_of, eq_ic, eq_ignore_case, has_prefix, lower};
use crate::paths::{dotdot_at, is_sep};

verus! {

pub open spec fn is_id_char(c: char) -> bool {
    ('a' <= c && c <= 'z') || ('A' <= c && c <= 'Z') || ('0' <= c && c <= '9') || c == '-' || c
        == '_'
}

/// A pack or preset id: 1 to 128 ASCII letters, digits, `-` or `_`.
pub open spec fn safe_pack_id(s: Seq<char>) -> bool {
    0 < s.len() <= 128 && forall|i: int| 0 <= i < s.len() ==> is_id_char(#[trigger] s[i])
}

pub fn is_safe_pack_id(s: &str) -> (r: bool)
    ensures
        r == safe_pack_id(s@),
{
    let v = chars_of(s);
    if v.len() == 0 || v.len() > 128 {
        return false;
    }
    let mut i: usize = 0;
    while i < v.len()
        invariant
            i <= v.len(),
            v@ == s@,
            forall|j: int| 0 <= j < i ==> is_id_char(#[trigger] v@[j]),
        decreases v.len() - i,
    {
        let c = v[i];
        if !(('a' <= c && c <= 'z') || ('A' <= c && c <= 'Z') || ('0' <= c && c <= '9') || c == '-'
            || c == '_') {
            assert(!is_id_char(v@[i as int]));
            return false;
        }
        i += 1;
    }
    true
}

/// A character that can stand in an INI key.
pub open spec fn is_key_char(c: char) -> bool {
    0x21 <= (c as u32) <= 0x7e && c != '=' && c != '[' && c != ']' && c != ';'
}

/// An INI key: 1 to 128 printable ASCII characters, none of `= [ ] ;`.
pub open spec fn safe_ini_key(s: Seq<char>) -> bool {
    0 < s.len() <= 128 && forall|i: int| 0 <= i < s.len() ==> is_key_char(#[trigger] s[i])
}

pub fn is_safe_ini_key_name(s: &str) -> (r: bool)
    ensures
        r == safe_ini_key(s@),
{
    let v = chars_of(s);
    if v.len() == 0 || v.len() > 128 {
        return false;
    }
    let mut i: usize = 0;
    while i < v.len()
        invariant
            i <= v.len(),
            v@ == s@,
            forall|j: int| 0 <= j < i ==> is_key_char(#[trigger] v@[j]),
        decreases v.len() - i,
    {
        let c = v[i];
        let u = c as u32;
        if !(0x21 <= u && u <= 0x7e && c != '=' && c != '[' && c != ']' && c != ';') {
            assert(!is_key_char(v@[i as int]));
            return false;
        }
        i += 1;
    }
    true
}

/// A character that can stand in an INI section name.
pub open spec fn is_section_char(c: char) -> bool {
    (c as u32) >= 0x20 && c != '[' && c != ']'
}

/// An INI section name: 1 to 128 characters, no control character, no
/// bracket.
pub open spec fn safe_ini_section(s: Seq<char>) -> bool {
    0 < s.len() <= 128 && forall|i: int| 0 <= i < s.len() ==> is_section_char(#[trigger] s[i])
}

pub fn is_safe_ini_section_name(s: &str) -> (r: bool)
    ensures
        r == safe_ini_section(s@),
{
    let v = chars_of(s);
    if v.len() == 0 || v.len() > 128 {
        return false;
    }
    let mut i: usize = 0;
    while i < v.len()
        invariant
            i <= v.len(),
            v@ == s@,
            forall|j: int| 0 <= j < i ==> is_section_char(#[trigger] v@[j]),
        decreases v.len() - i,
    {
        let c = v[i];
        if !((c as u32) >= 0x20 && c != '[' && c != ']') {
            assert(!is_section_char(v@[i as int]));
            return false;
        }
        i += 1;
    }
    true
}

/// A character that can stand in an INI value: a tab or no control
/// character.
pub open spec fn is_value_char(c: char) -> bool {
    c == '\t' || (c as u32) >= 0x20
}

/// An INI value: at most 1024 characters on one line.
pub open spec fn safe_ini_value(s: Seq<char>) -> bool {
    s.len() <= 1024 && forall|i: int| 0 <= i < s.len() ==> is_value_char(#[trigger] s[i])
}

pub fn is_safe_ini_value(s: &str) -> (r: bool)
    ensures
        r == safe_ini_value(s@),
{
    let v = chars_of(s);
    if v.len() > 1024 {
        return false;
    }
    let mut i: usize = 0;
    while i < v.len()
        invariant
            i <= v.len(),
            v@ == s@,
            forall|j: int| 0 <= j < i ==> is_value_char(#[trigger] v@[j]),
        decreases v.len() - i,
    {
        let c = v[i];
        if !(c == '\t' || (c as u32) >= 0x20) {
            assert(!is_value_char(v@[i as int]));
            return false;
        }
        i += 1;
    }
    true
}

/// Config files an override may touch.
pub open spec fn allowed_ini_files() -> Seq<Seq<char>> {
    seq![
        "Engine.ini"@,
        "Game.ini"@,
        "GameUserSettings.ini"@,
        "Scalability.ini"@,
        "Input.ini"@,
        "DeviceProfiles.ini"@,
    ]
}

/// One of the allowed config files, ignoring ASCII case.
pub open spec fn allowed_config_ini(s: Seq<char>) -> bool {
    exists|i: int| 0 <= i < allowed_ini_files().len() && eq_ic(s, #[trigger] allowed_ini_files()[i])
}

pub fn is_allowed_config_ini_filename(s: &str) -> (r: bool)
    ensures
        r == allowed_config_ini(s@),
{
    let v = chars_of(s);
    let names = [
        "Engine.ini",
        "Game.ini",
        "GameUserSettings.ini",
        "Scalability.ini",
        "Input.ini",
        "DeviceProfiles.ini",
    ];
    let mut i: usize = 0;
    while i < 6
        invariant
            i <= 6,
            v@ == s@,
            forall|k: int| 0 <= k < 6 ==> (#[trigger] names@[k])@ == allowed_ini_files()[k],
            forall|k: int| 0 <= k < i ==> !eq_ic(v@, #[trigger] allowed_ini_files()[k]),
        decreases 6 - i,
    {
        let n = chars_of(names[i]);
        if eq_ignore_case(&v, &n) {
            assert(eq_ic(v@, allowed_ini_files()[i as int]));
            return true;
        }
        i += 1;
    }
    false
}

/// A character that can stand in an executable's file name.
pub open spec fn is_exe_char(c: char) -> bool {
    (c as u32) >= 0x20 && !is_sep(c) && c != ':' && c != '*' && c != '?' && c != '"' && c != '<'
        && c != '>' && c != '|'
}

/// A bare executable name: 1 to 260 characters, no path, not `.` or `..`.
pub open spec fn safe_exe_basename(s: Seq<char>) -> bool {
    &&& 0 < s.len() <= 260
    &&& forall|i: int| 0 <= i < s.len() ==> is_exe_char(#[trigger] s[i])
    &&& s != seq!['.']
    &&& s != seq!['.', '.']
}

pub fn is_safe_exe_basename(s: &str) -> (r: bool)
    ensures
        r == safe_exe_basename(s@),
{
    let v = chars_of(s);
    if v.len() == 0 || v.len() > 260 {
        return false;
    }
    if v.len() == 1 && v[0] == '.' {
        assert(v@ =~= seq!['.']);
        return false;
    }
    if v.len() == 2 && v[0] == '.' && v[1] == '.' {
        assert(v@ =~= seq!['.', '.']);
        return false;
    }
    let mut i: usize = 0;
    while i < v.len()
        invariant
            i <= v.len(),
            v@ == s@,
            forall|j: int| 0 <= j < i ==> is_exe_char(#[trigger] v@[j]),
        decreases v.len() - i,
    {
        let c = v[i];
        if !((c as u32) >= 0x20 && !(c == '/' || c == '\\') && c != ':' && c != '*' && c != '?' && c
            != '"' && c != '<' && c != '>' && c != '|') {
            assert(!is_exe_char(v@[i as int]));
            return false;
        }
        i += 1;
    }
    proof {
        if v@ == seq!['.'] {
            assert(v@.len() == 1);
        }
        if v@ == seq!['.', '.'] {
            assert(v@.len() == 2);
        }
    }
    true
}

/// `path` is `root` itself, or lies under it with no `..` component.
pub open spec fn within_root(root: Seq<char>, path: Seq<char>) -> bool {
    ||| path == root
    ||| (root.len() > 0 && has_prefix(path, root) && path.len() > root.len() && (is_sep(
        root.last(),
    ) || is_sep(path[root.len() as int])) && forall|i: int| !dotdot_at(path, i))
}

pub fn path_within_root(root: &str, path: &str) -> (r: bool)
    ensures
        r == within_root(root@, path@),
{
    let rv = chars_of(root);
    let pv = chars_of(path);
    if crate::text::seq_eq(&rv, &pv) {
        return true;
    }
    if rv.len() == 0 || !crate::text::starts_with(&pv, &rv) || pv.len() <= rv.len() {
        return false;
    }
    let lastr = rv[rv.len() - 1];
    let nxt = pv[rv.len()];
    if !(lastr == '/' || lastr == '\\' || nxt == '/' || nxt == '\\') {
        return false;
    }
    let n = pv.len();
    let mut i: usize = 0;
    while i < n
        invariant
            i <= n,
            n == pv.len(),
            pv@ == path@,
            rv@ == root@,
            pv@ != rv@,
            forall|j: int| 0 <= j < i ==> !dotdot_at(pv@, j),
        decreases n - i,
    {
        if i + 1 < n && pv[i] == '.' && pv[i + 1] == '.' && (i == 0 || pv[i - 1] == '/' || pv[i
            - 1] == '\\') && (i + 2 == n || pv[i + 2] == '/' || pv[i + 2] == '\\') {
            assert(dotdot_at(pv@, i as int));
            return false;
        }
        i += 1;
    }
    assert forall|j: int| !dotdot_at(pv@, j) by {
        if 0 <= j < n {
        }
    }
    true
}


// ---------------------------------------------------------------------------
// Laws: what passes the checks cannot leave its root
// ---------------------------------------------------------------------------
/// Law: a safe relative path joined under a root without `..` components
/// stays within that root.
pub proof fn safe_relative_stays_within(root: Seq<char>, rel: Seq<char>)
    requires
        root.len() > 0,
        forall|i: int| !dotdot_at(root, i),
        crate::paths::is_safe_relative(rel),
    ensures
        within_root(root, crate::paths::join_spec(root, rel)),
{
    lemma_joined_within(root, rel);
}

/// A plain file name (not empty, no separator, no `..`) joined under a
/// root without `..` components stays within that root.
pub proof fn lemma_plain_name_within(root: Seq<char>, n: Seq<char>)
    requires
        root.len() > 0,
        forall|i: int| !dotdot_at(root, i),
        n.len() > 0,
        !crate::text::has_char(n, '/'),
        !crate::text::has_char(n, '\\'),
        !crate::text::contains(n, ".."@),
    ensures
        within_root(root, crate::paths::join_spec(root, n)),
{
    reveal_strlit("..");
    assert(!is_sep(n[0]));
    assert(!is_sep(n.last()));
    assert forall|i: int| !dotdot_at(n, i) by {
        if dotdot_at(n, i) {
            assert(n.subrange(i, i + 2) =~= ".."@);
            assert(crate::text::occurs_at(n, ".."@, i));
        }
    }
    lemma_joined_within(root, n);
}

proof fn lemma_joined_within(root: Seq<char>, rel: Seq<char>)
    requires
        root.len() > 0,
        forall|i: int| !dotdot_at(root, i),
        rel.len() > 0,
        !is_sep(rel[0]),
        !is_sep(rel.last()),
        forall|i: int| !dotdot_at(rel, i),
    ensures
        within_root(root, crate::paths::join_spec(root, rel)),
{
    let path = crate::paths::join_spec(root, rel);
    let n = root.len() as int;
    let sep_added = !is_sep(root.last());
    let off = if sep_added { n + 1 } else { n };
    if sep_added {
        assert(path =~= root + seq!['/'] + rel);
        assert(path[n] == '/');
    } else {
        assert(path =~= root + rel);
    }
    assert(path.len() == off + rel.len());
    assert(forall|j: int| 0 <= j < n ==> #[trigger] path[j] == root[j]);
    assert(forall|j: int| 0 <= j < rel.len() ==> #[trigger] path[off + j] == rel[j]);
    assert(path.take(n) =~= root);
    assert forall|i: int| !dotdot_at(path, i) by {
        if dotdot_at(path, i) {
            if i + 2 <= n {
                // Within the root, or ending where the root ends.
                if i + 2 == n {
                    assert(sep_added);
                }
                assert(root[i] == '.' && root[i + 1] == '.');
                assert(i == 0 || is_sep(root[i - 1]));
                assert(dotdot_at(root, i));
            } else if i + 1 == n {
                assert(path[i] == root.last());
                assert(sep_added);
                assert(path[i + 1] == '/');
            } else if sep_added && i == n {
                assert(path[i] == '/');
            } else {
                let k = i - off;
                assert(0 <= k < rel.len());
                assert(rel[k] == '.');
                assert(k + 1 < rel.len());
                assert(rel[k + 1] == '.');
                if k > 0 {
                    assert(path[i - 1] == rel[k - 1]);
                }
                if k + 2 < rel.len() {
                    assert(path[i + 2] == rel[k + 2]);
                }
                assert(dotdot_at(rel, k));
            }
        }
    }
}

/// Law: a safe pack id joined under a root without `..` components stays
/// within that root.
pub proof fn safe_pack_id_stays_within(root: Seq<char>, id: Seq<char>)
    requires
        root.len() > 0,
        forall|i: int| !dotdot_at(root, i),
        safe_pack_id(id),
    ensures
        within_root(root, crate::paths::join_spec(root, id)),
{
    assert(is_id_char(id[0]));
    assert(is_id_char(id.last()));
    assert forall|i: int| 0 <= i < id.len() implies crate::paths::path_char_ok(#[trigger] id[i]) by {
        assert(is_id_char(id[i]));
    }
    assert forall|i: int| !dotdot_at(id, i) by {
        if 0 <= i < id.len() {
            assert(is_id_char(id[i]));
        }
    }
    safe_relative_stays_within(root, id);
}

} // verus!
