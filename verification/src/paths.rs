//! Paths as text: joining relative names under a directory, taking the last
//! component, and lexical containment checks.
use vstd::prelude::*;
use crate::text::{append_all, chars_of, has_char, string_of, subvec};

verus! {

pub open spec fn is_sep(c: char) -> bool {
    c == '/' || c == '\\'
}

/// `base` joined with the relative path `rel`, using `/` between them.
/// Joining always writes `/`, on every platform: Windows accepts `/` as a
/// separator wherever it accepts `\`, and every check here reads both
/// (`is_sep`). A base that already ends with either separator gets none
/// added, so Windows bases keep their `\`.
pub open spec fn join_spec(base: Seq<char>, rel: Seq<char>) -> Seq<char> {
    if base.len() == 0 {
        rel
    } else if is_sep(base.last()) {
        base + rel
    } else {
        base + seq!['/'] + rel
    }
}

/// Index just after the last separator (0 when there is none).
pub open spec fn name_start(p: Seq<char>) -> int
    decreases p.len(),
{
    if p.len() == 0 {
        0
    } else if is_sep(p.last()) {
        p.len() as int
    } else {
        name_start(p.drop_last())
    }
}

/// The last component of a path (what follows the last separator).
pub open spec fn file_name_spec(p: Seq<char>) -> Seq<char> {
    p.skip(name_start(p))
}

/// A character allowed in a relative path: printable and not a drive colon.
pub open spec fn path_char_ok(c: char) -> bool {
    c != ':' && (c as u32) >= 0x20
}

/// A `..` component starts at `i`.
pub open spec fn dotdot_at(rel: Seq<char>, i: int) -> bool {
    0 <= i < rel.len() - 1 && rel[i] == '.' && rel[i + 1] == '.' && (i == 0 || is_sep(rel[i - 1]))
        && (i + 2 == rel.len() || is_sep(rel[i + 2]))
}

/// A relative path that stays inside whatever root it is joined to: not
/// empty, no root prefix or trailing separator, no drive colon, no control
/// character, no `..` component.
pub open spec fn is_safe_relative(rel: Seq<char>) -> bool {
    &&& rel.len() > 0
    &&& !is_sep(rel[0])
    &&& !is_sep(rel.last())
    &&& forall|i: int| 0 <= i < rel.len() ==> path_char_ok(#[trigger] rel[i])
    &&& forall|i: int| !dotdot_at(rel, i)
}

// ---------------------------------------------------------------------------
// Executable code
// ---------------------------------------------------------------------------
/// Joins a relative path under a directory.
pub fn join(base: &str, rel: &str) -> (r: String)
    ensures
        r@ == join_spec(base@, rel@),
{
    let b = chars_of(base);
    let rv = chars_of(rel);
    let out = join_vec(&b, &rv);
    string_of(&out)
}

pub fn join_vec(b: &Vec<char>, rv: &Vec<char>) -> (r: Vec<char>)
    ensures
        r@ == join_spec(b@, rv@),
{
    if b.len() == 0 {
        return subvec(rv, 0, rv.len());
    }
    let last = b[b.len() - 1];
    let mut out = subvec(b, 0, b.len());
    if !(last == '/' || last == '\\') {
        out.push('/');
    }
    append_all(&mut out, rv);
    proof {
        if !is_sep(b@.last()) {
            assert(out@ =~= b@ + seq!['/'] + rv@);
        } else {
            assert(out@ =~= b@ + rv@);
        }
    }
    out
}

/// The last component of a path.
pub fn file_name(p: &str) -> (r: String)
    ensures
        r@ == file_name_spec(p@),
{
    let v = chars_of(p);
    let mut i: usize = v.len();
    assert(v@.take(v.len() as int) =~= v@);
    while i > 0 && !(v[i - 1] == '/' || v[i - 1] == '\\')
        invariant
            i <= v.len(),
            name_start(v@) == name_start(v@.take(i as int)),
        decreases i,
    {
        assert(v@.take(i as int).drop_last() =~= v@.take(i - 1));
        i -= 1;
    }
    assert(v@.take(v.len() as int) =~= v@);
    let s = subvec(&v, i, v.len());
    string_of(&s)
}

/// Whether `rel` is a safe relative path (see `is_safe_relative`).
pub fn is_safe_relative_path(rel: &str) -> (r: bool)
    ensures
        r == is_safe_relative(rel@),
{
    let v = chars_of(rel);
    let n = v.len();
    if n == 0 {
        return false;
    }
    if v[0] == '/' || v[0] == '\\' || v[n - 1] == '/' || v[n - 1] == '\\' {
        return false;
    }
    let mut i: usize = 0;
    while i < n
        invariant
            i <= n,
            n == v.len(),
            n > 0,
            v@ == rel@,
            forall|j: int| 0 <= j < i ==> path_char_ok(#[trigger] v@[j]),
            forall|j: int| 0 <= j < i ==> !dotdot_at(v@, j),
        decreases n - i,
    {
        let c = v[i];
        if c == ':' || (c as u32) < 0x20 {
            assert(!path_char_ok(v@[i as int]));
            return false;
        }
        if i + 1 < n && c == '.' && v[i + 1] == '.' && (i == 0 || v[i - 1] == '/' || v[i - 1]
            == '\\') && (i + 2 == n || v[i + 2] == '/' || v[i + 2] == '\\') {
            assert(dotdot_at(v@, i as int));
            return false;
        }
        i += 1;
    }
    assert forall|j: int| !dotdot_at(v@, j) by {
        if 0 <= j < n {
        }
    }
    true
}

} // verus!
