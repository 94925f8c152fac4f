//! Character-level text helpers over `Seq<char>` views, with executable
//! counterparts working on `Vec<char>`.
use vstd::prelude::*;

verus! {

// ---------------------------------------------------------------------------
// Specifications
// ---------------------------------------------------------------------------
/// Unicode `White_Space` (the set used by `char::is_whitespace` and `str::trim`).
pub open spec fn is_ws(c: char) -> bool {
    let u = c as u32;
    (0x9 <= u && u <= 0xD) || u == 0x20 || u == 0x85 || u == 0xA0 || u == 0x1680 || (0x2000 <= u
        && u <= 0x200A) || u == 0x2028 || u == 0x2029 || u == 0x202F || u == 0x205F || u == 0x3000
}

/// Number of leading white-space characters.
pub open spec fn lead_ws(s: Seq<char>) -> nat
    decreases s.len(),
{
    if s.len() > 0 && is_ws(s[0]) {
        1 + lead_ws(s.drop_first())
    } else {
        0
    }
}

/// Number of trailing white-space characters.
pub open spec fn trail_ws(s: Seq<char>) -> nat
    decreases s.len(),
{
    if s.len() > 0 && is_ws(s.last()) {
        1 + trail_ws(s.drop_last())
    } else {
        0
    }
}

pub open spec fn trim_start(s: Seq<char>) -> Seq<char> {
    s.skip(lead_ws(s) as int)
}

pub open spec fn trim_end(s: Seq<char>) -> Seq<char> {
    s.take(s.len() - trail_ws(s))
}

/// `str::trim`: both ends stripped of white space.
pub open spec fn trim(s: Seq<char>) -> Seq<char> {
    trim_end(trim_start(s))
}

pub open spec fn lower_char(c: char) -> char {
    if 'A' <= c && c <= 'Z' {
        ((c as u32) + 32) as char
    } else {
        c
    }
}

/// `to_ascii_lowercase`.
pub open spec fn lower(s: Seq<char>) -> Seq<char> {
    s.map_values(|c: char| lower_char(c))
}

/// `eq_ignore_ascii_case`.
pub open spec fn eq_ic(a: Seq<char>, b: Seq<char>) -> bool {
    lower(a) == lower(b)
}

pub open spec fn has_prefix(s: Seq<char>, p: Seq<char>) -> bool {
    p.len() <= s.len() && s.take(p.len() as int) == p
}

pub open spec fn has_suffix(s: Seq<char>, p: Seq<char>) -> bool {
    p.len() <= s.len() && s.skip(s.len() - p.len()) == p
}

pub open spec fn occurs_at(s: Seq<char>, p: Seq<char>, i: int) -> bool {
    0 <= i && i + p.len() <= s.len() && s.subrange(i, i + p.len()) == p
}

/// `str::contains` with a string pattern.
pub open spec fn contains(s: Seq<char>, p: Seq<char>) -> bool {
    exists|i: int| occurs_at(s, p, i)
}

/// The first index at or after `i` where `p` occurs, or -1.
pub open spec fn first_occ_from(s: Seq<char>, p: Seq<char>, i: int) -> int
    decreases s.len() + 1 - i,
{
    if i < 0 || i > s.len() {
        -1
    } else if occurs_at(s, p, i) {
        i
    } else {
        first_occ_from(s, p, i + 1)
    }
}

pub open spec fn has_char(s: Seq<char>, c: char) -> bool {
    exists|i: int| 0 <= i < s.len() && s[i] == c
}

/// Index of the first occurrence of `c`, or -1.
pub open spec fn idx_of(s: Seq<char>, c: char) -> int
    decreases s.len(),
{
    if s.len() == 0 {
        -1
    } else if s[0] == c {
        0
    } else {
        let r = idx_of(s.drop_first(), c);
        if r < 0 {
            -1
        } else {
            r + 1
        }
    }
}

pub open spec fn strip_cr(l: Seq<char>) -> Seq<char> {
    if l.len() > 0 && l.last() == '\r' {
        l.drop_last()
    } else {
        l
    }
}

/// `str::lines`: split at `\n`, a `\r` before each `\n` dropped, no final
/// empty line after a trailing line ending.
pub open spec fn lines_of(s: Seq<char>) -> Seq<Seq<char>>
    decreases s.len(),
{
    if s.len() == 0 {
        seq![]
    } else {
        let i = idx_of(s, '\n');
        if i < 0 {
            seq![s]
        } else {
            proof {
                lemma_idx_of_bounds(s, '\n');
            }
            seq![strip_cr(s.take(i))] + lines_of(s.skip(i + 1))
        }
    }
}

/// `str::split` on a single character: every piece, empty ones included.
pub open spec fn split_of(s: Seq<char>, c: char) -> Seq<Seq<char>>
    decreases s.len(),
{
    let i = idx_of(s, c);
    if i < 0 {
        seq![s]
    } else {
        proof {
            lemma_idx_of_bounds(s, c);
        }
        seq![s.take(i)] + split_of(s.skip(i + 1), c)
    }
}

/// `str::split_once` on a single character.
pub open spec fn split_once_of(s: Seq<char>, c: char) -> Option<(Seq<char>, Seq<char>)> {
    let i = idx_of(s, c);
    if i < 0 {
        None
    } else {
        Some((s.take(i), s.skip(i + 1)))
    }
}

/// Views of a sequence of character vectors.
pub open spec fn views(v: Seq<Vec<char>>) -> Seq<Seq<char>> {
    v.map_values(|x: Vec<char>| x@)
}

/// View of an optional character vector.
pub open spec fn opt_view(o: Option<Vec<char>>) -> Option<Seq<char>> {
    match o {
        Some(s) => Some(s@),
        None => None,
    }
}

/// Views of a sequence of strings.
pub open spec fn str_views(v: Seq<String>) -> Seq<Seq<char>> {
    v.map_values(|x: String| x@)
}

/// Concatenation of `parts` separated by `sep` (`[T]::join`).
pub open spec fn join(parts: Seq<Seq<char>>, sep: Seq<char>) -> Seq<char>
    decreases parts.len(),
{
    if parts.len() == 0 {
        seq![]
    } else if parts.len() == 1 {
        parts[0]
    } else {
        parts[0] + sep + join(parts.drop_first(), sep)
    }
}

pub open spec fn is_digit(c: char) -> bool {
    '0' <= c && c <= '9'
}

pub open spec fn digit_val(c: char) -> int {
    (c as u32) - ('0' as u32)
}

pub open spec fn all_digits(s: Seq<char>) -> bool {
    forall|i: int| 0 <= i < s.len() ==> is_digit(#[trigger] s[i])
}

/// Decimal value of a digit string.
pub open spec fn dec_value(s: Seq<char>) -> int
    decreases s.len(),
{
    if s.len() == 0 {
        0
    } else {
        dec_value(s.drop_last()) * 10 + digit_val(s.last())
    }
}

/// `u32::from_str`: optional `+`, at least one ASCII digit, nothing else,
/// value within range.
/// The part of a number after an optional leading `+`.
pub open spec fn digits_part(s: Seq<char>) -> Seq<char> {
    if s.len() > 0 && s[0] == '+' {
        s.drop_first()
    } else {
        s
    }
}

pub open spec fn parse_u32_of(s: Seq<char>) -> Option<u32> {
    let d = digits_part(s);
    if d.len() == 0 || !all_digits(d) || dec_value(d) > u32::MAX {
        None
    } else {
        Some(dec_value(d) as u32)
    }
}

pub open spec fn digit_char(d: int) -> char {
    ((d + 48) as u32) as char
}

/// Decimal rendering of a natural number (`u64::to_string`).
pub open spec fn dec_string(n: nat) -> Seq<char>
    decreases n,
{
    if n < 10 {
        seq![digit_char(n as int)]
    } else {
        dec_string(n / 10) + seq![digit_char((n % 10) as int)]
    }
}

/// `str::trim_end_matches` with a non-empty string pattern.
pub open spec fn trim_end_matches(s: Seq<char>, p: Seq<char>) -> Seq<char>
    decreases s.len(),
{
    if p.len() > 0 && has_suffix(s, p) {
        trim_end_matches(s.take(s.len() - p.len()), p)
    } else {
        s
    }
}

/// Count of leading characters that are `a` or `b`.
pub open spec fn lead_in2(s: Seq<char>, a: char, b: char) -> nat
    decreases s.len(),
{
    if s.len() > 0 && (s[0] == a || s[0] == b) {
        1 + lead_in2(s.drop_first(), a, b)
    } else {
        0
    }
}

/// Count of trailing characters that are `a` or `b`.
pub open spec fn trail_in2(s: Seq<char>, a: char, b: char) -> nat
    decreases s.len(),
{
    if s.len() > 0 && (s.last() == a || s.last() == b) {
        1 + trail_in2(s.drop_last(), a, b)
    } else {
        0
    }
}

/// `str::trim_matches(&[a, b])`.
pub open spec fn trim_matches2(s: Seq<char>, a: char, b: char) -> Seq<char> {
    let t = s.skip(lead_in2(s, a, b) as int);
    t.take(t.len() - trail_in2(t, a, b))
}

/// `str::trim_start_matches` with a single character.
pub open spec fn trim_start_char(s: Seq<char>, c: char) -> Seq<char> {
    s.skip(lead_in2(s, c, c) as int)
}

/// The part before the first `c` (all of `s` when there is none): the first
/// item of `str::split(c)`.
pub open spec fn before_char(s: Seq<char>, c: char) -> Seq<char> {
    let i = idx_of(s, c);
    if i < 0 {
        s
    } else {
        s.take(i)
    }
}

/// Index of the last occurrence of `c`, or -1.
pub open spec fn last_idx_of(s: Seq<char>, c: char) -> int
    decreases s.len(),
{
    if s.len() == 0 {
        -1
    } else if s.last() == c {
        s.len() - 1
    } else {
        last_idx_of(s.drop_last(), c)
    }
}

/// Lexicographic order of strings by character (the order of `str`'s `<`,
/// since UTF-8 keeps the order of code points).
pub open spec fn str_lt(a: Seq<char>, b: Seq<char>) -> bool
    decreases a.len(),
{
    if a.len() == 0 {
        b.len() > 0
    } else if b.len() == 0 {
        false
    } else if a[0] != b[0] {
        a[0] < b[0]
    } else {
        str_lt(a.drop_first(), b.drop_first())
    }
}

// ---------------------------------------------------------------------------
// Lemmas
// ---------------------------------------------------------------------------

/// `str_lt` is a strict order: irreflexive and asymmetric.
pub proof fn lemma_str_lt_asym(a: Seq<char>, b: Seq<char>)
    ensures
        !(str_lt(a, b) && str_lt(b, a)),
        !str_lt(a, a),
    decreases a.len(),
{
    if a.len() > 0 && b.len() > 0 && a[0] == b[0] {
        lemma_str_lt_asym(a.drop_first(), b.drop_first());
    }
    if a.len() > 0 {
        lemma_str_lt_asym(a.drop_first(), a.drop_first());
    }
}

/// Two different strings are ordered one way or the other.
pub proof fn lemma_str_lt_total(a: Seq<char>, b: Seq<char>)
    requires
        a != b,
    ensures
        str_lt(a, b) || str_lt(b, a),
    decreases a.len(),
{
    if a.len() == 0 {
        if b.len() == 0 {
            assert(a =~= b);
        }
    } else if b.len() == 0 {
    } else if a[0] == b[0] {
        if a.drop_first() == b.drop_first() {
            assert(a =~= seq![a[0]] + a.drop_first());
            assert(b =~= seq![b[0]] + b.drop_first());
        }
        lemma_str_lt_total(a.drop_first(), b.drop_first());
    }
}

pub proof fn lemma_first_occ_tail(s: Seq<char>, p: Seq<char>, i: int)
    requires
        i > s.len() - p.len(),
    ensures
        first_occ_from(s, p, i) == -1,
    decreases s.len() + 1 - i,
{
    if !(i < 0 || i > s.len()) {
        lemma_first_occ_tail(s, p, i + 1);
    }
}

pub proof fn lemma_first_occ(s: Seq<char>, p: Seq<char>, i: int)
    requires
        0 <= i,
    ensures
        first_occ_from(s, p, i) == -1 || (i <= first_occ_from(s, p, i) && occurs_at(
            s,
            p,
            first_occ_from(s, p, i),
        )),
        first_occ_from(s, p, i) == -1 ==> forall|j: int| i <= j ==> !occurs_at(s, p, j),
    decreases s.len() + 1 - i,
{
    if i <= s.len() && !occurs_at(s, p, i) {
        lemma_first_occ(s, p, i + 1);
        if first_occ_from(s, p, i) == -1 {
            assert forall|j: int| i <= j implies !occurs_at(s, p, j) by {
                if j > i {
                }
            }
        }
    }
}

pub proof fn lemma_views_push(v: Seq<Vec<char>>, x: Vec<char>)
    ensures
        views(v.push(x)) == views(v).push(x@),
{
    assert(views(v.push(x)) =~= views(v).push(x@));
}

pub proof fn lemma_str_views_push(v: Seq<String>, x: String)
    ensures
        str_views(v.push(x)) == str_views(v).push(x@),
{
    assert(str_views(v.push(x)) =~= str_views(v).push(x@));
}

pub proof fn lemma_take_next<A>(s: Seq<A>, i: int)
    requires
        0 <= i < s.len(),
    ensures
        s.take(i + 1) == s.take(i).push(s[i]),
{
    assert(s.take(i + 1) =~= s.take(i).push(s[i]));
}

pub proof fn lemma_idx_of_bounds(s: Seq<char>, c: char)
    ensures
        -1 <= idx_of(s, c) < s.len(),
        idx_of(s, c) >= 0 ==> s[idx_of(s, c)] == c,
        idx_of(s, c) >= 0 ==> forall|j: int| 0 <= j < idx_of(s, c) ==> s[j] != c,
        idx_of(s, c) < 0 ==> forall|j: int| 0 <= j < s.len() ==> s[j] != c,
    decreases s.len(),
{
    if s.len() > 0 && s[0] != c {
        lemma_idx_of_bounds(s.drop_first(), c);
        assert forall|j: int| 1 <= j < s.len() implies s.drop_first()[j - 1] == s[j] by {}
        if idx_of(s, c) < 0 {
            assert forall|j: int| 0 <= j < s.len() implies s[j] != c by {
                if j > 0 {
                    assert(s.drop_first()[j - 1] == s[j]);
                }
            }
        } else {
            assert forall|j: int| 0 <= j < idx_of(s, c) implies s[j] != c by {
                if j > 0 {
                    assert(s.drop_first()[j - 1] == s[j]);
                }
            }
        }
    }
}

pub proof fn lemma_idx_of_found(s: Seq<char>, c: char, k: int)
    requires
        0 <= k < s.len(),
        s[k] == c,
        forall|j: int| 0 <= j < k ==> s[j] != c,
    ensures
        idx_of(s, c) == k,
    decreases k,
{
    if k > 0 {
        lemma_idx_of_found(s.drop_first(), c, k - 1);
    }
}

pub proof fn lemma_idx_of_absent(s: Seq<char>, c: char)
    requires
        forall|j: int| 0 <= j < s.len() ==> s[j] != c,
    ensures
        idx_of(s, c) == -1,
    decreases s.len(),
{
    if s.len() > 0 {
        lemma_idx_of_absent(s.drop_first(), c);
    }
}

pub proof fn lemma_lead_ws(s: Seq<char>, a: int)
    requires
        0 <= a <= s.len(),
        forall|j: int| 0 <= j < a ==> is_ws(s[j]),
        a == s.len() || !is_ws(s[a]),
    ensures
        lead_ws(s) == a,
    decreases a,
{
    if a > 0 {
        lemma_lead_ws(s.drop_first(), a - 1);
    }
}

pub proof fn lemma_trail_ws(s: Seq<char>, b: int)
    requires
        0 <= b <= s.len(),
        forall|j: int| b <= j < s.len() ==> is_ws(s[j]),
        b == 0 || !is_ws(s[b - 1]),
    ensures
        trail_ws(s) == s.len() - b,
    decreases s.len() - b,
{
    if b < s.len() {
        lemma_trail_ws(s.drop_last(), b);
    }
}

/// A sequence without white space at either end is its own trim.
pub proof fn lemma_trim_id(s: Seq<char>)
    requires
        s.len() == 0 || (!is_ws(s[0]) && !is_ws(s.last())),
    ensures
        trim(s) == s,
{
    lemma_lead_ws(s, 0);
    assert(s.skip(0) =~= s);
    lemma_trail_ws(s, s.len() as int);
    assert(s.take(s.len() as int) =~= s);
}

/// The trim of anything has no white space at either end.
pub proof fn lemma_trim_ends(s: Seq<char>)
    ensures
        trim(s).len() == 0 || (!is_ws(trim(s)[0]) && !is_ws(trim(s).last())),
        trim(s).len() <= s.len(),
        forall|i: int|
            0 <= i < trim(s).len() ==> #[trigger] trim(s)[i] == s[i + lead_ws(s)],
    decreases s.len(),
{
    lemma_lead_bound(s);
    let t = trim_start(s);
    lemma_trail_bound(t);
    if t.len() > 0 && is_ws(t[0]) {
        lemma_lead_after(s);
    }
    if trim(s).len() > 0 {
        lemma_trail_after(t);
        lemma_lead_after(s);
    }
}

pub proof fn lemma_lead_bound(s: Seq<char>)
    ensures
        lead_ws(s) <= s.len(),
    decreases s.len(),
{
    if s.len() > 0 && is_ws(s[0]) {
        lemma_lead_bound(s.drop_first());
    }
}

pub proof fn lemma_trail_bound(s: Seq<char>)
    ensures
        trail_ws(s) <= s.len(),
    decreases s.len(),
{
    if s.len() > 0 && is_ws(s.last()) {
        lemma_trail_bound(s.drop_last());
    }
}

pub proof fn lemma_lead_after(s: Seq<char>)
    ensures
        lead_ws(s) < s.len() ==> !is_ws(s[lead_ws(s) as int]),
        forall|j: int| 0 <= j < lead_ws(s) ==> is_ws(s[j]),
    decreases s.len(),
{
    lemma_lead_bound(s);
    if s.len() > 0 && is_ws(s[0]) {
        lemma_lead_after(s.drop_first());
        assert forall|j: int| 0 <= j < lead_ws(s) implies is_ws(s[j]) by {
            if j > 0 {
                assert(s.drop_first()[j - 1] == s[j]);
            }
        }
    }
}

pub proof fn lemma_trail_after(s: Seq<char>)
    ensures
        trail_ws(s) < s.len() ==> !is_ws(s[s.len() - trail_ws(s) - 1]),
        forall|j: int| s.len() - trail_ws(s) <= j < s.len() ==> is_ws(s[j]),
    decreases s.len(),
{
    lemma_trail_bound(s);
    if s.len() > 0 && is_ws(s.last()) {
        lemma_trail_after(s.drop_last());
        assert forall|j: int| s.len() - trail_ws(s) <= j < s.len() implies is_ws(s[j]) by {
            if j < s.len() - 1 {
                assert(s.drop_last()[j] == s[j]);
            }
        }
    }
}

/// A non-empty sequence that is its own trim has no white space at its ends.
pub proof fn lemma_trimmed_ends(t: Seq<char>)
    requires
        trim(t) == t,
        t.len() > 0,
    ensures
        !is_ws(t[0]),
        !is_ws(t.last()),
{
    lemma_trim_ends(t);
}

/// Splitting into lines distributes over a first part that ends with a line
/// break.
pub proof fn lemma_lines_of_concat(x: Seq<char>, y: Seq<char>)
    requires
        x.len() == 0 || x.last() == '\n',
    ensures
        lines_of(x + y) == lines_of(x) + lines_of(y),
    decreases x.len(),
{
    if x.len() == 0 {
        assert(x + y =~= y);
        assert(lines_of(x) =~= Seq::<Seq<char>>::empty());
        assert(lines_of(x) + lines_of(y) =~= lines_of(y));
    } else {
        lemma_idx_of_bounds(x, '\n');
        if idx_of(x, '\n') < 0 {
            assert(x[x.len() - 1] == '\n');
        }
        let i = idx_of(x, '\n');
        let xy = x + y;
        assert forall|j: int| 0 <= j < i implies xy[j] != '\n' by {
            assert(xy[j] == x[j]);
        }
        assert(xy[i] == x[i]);
        lemma_idx_of_found(xy, '\n', i);
        assert(xy.take(i) =~= x.take(i));
        let rest = x.skip(i + 1);
        assert(xy.skip(i + 1) =~= rest + y);
        if rest.len() > 0 {
            assert(rest.last() == x.last());
        }
        lemma_lines_of_concat(rest, y);
        assert(lines_of(xy) =~= seq![strip_cr(x.take(i))] + (lines_of(rest) + lines_of(y)));
        assert(lines_of(x) =~= seq![strip_cr(x.take(i))] + lines_of(rest));
        assert(lines_of(xy) =~= lines_of(x) + lines_of(y));
    }
}

/// A line without a line break, followed by one, is that single line.
pub proof fn lemma_lines_of_line(a: Seq<char>)
    requires
        !has_char(a, '\n'),
    ensures
        lines_of(a + seq!['\n']) == seq![strip_cr(a)],
{
    let t = a + seq!['\n'];
    assert forall|j: int| 0 <= j < a.len() implies t[j] != '\n' by {
        assert(t[j] == a[j]);
        if a[j] == '\n' {
            assert(has_char(a, '\n'));
        }
    }
    lemma_idx_of_found(t, '\n', a.len() as int);
    assert(t.take(a.len() as int) =~= a);
    assert(t.skip(a.len() as int + 1) =~= Seq::<char>::empty());
    assert(lines_of(Seq::<char>::empty()) =~= Seq::<Seq<char>>::empty());
    assert(lines_of(t) =~= seq![strip_cr(a)]);
}

/// A character in a join is in a part or in the separator.
pub proof fn lemma_join_has_char(parts: Seq<Seq<char>>, sep: Seq<char>, c: char)
    requires
        !has_char(sep, c),
        forall|i: int| 0 <= i < parts.len() ==> !has_char(#[trigger] parts[i], c),
    ensures
        !has_char(join(parts, sep), c),
    decreases parts.len(),
{
    if parts.len() > 1 {
        let rest = parts.drop_first();
        assert forall|i: int| 0 <= i < rest.len() implies !has_char(#[trigger] rest[i], c) by {
            assert(rest[i] == parts[i + 1]);
        }
        lemma_join_has_char(rest, sep, c);
        let a = parts[0];
        let j = join(parts, sep);
        assert(j =~= a + sep + join(rest, sep));
        if has_char(j, c) {
            let k = choose|k: int| 0 <= k < j.len() && j[k] == c;
            if k < a.len() {
                assert(a[k] == c);
                assert(has_char(a, c));
            } else if k < a.len() + sep.len() {
                assert(sep[k - a.len()] == c);
                assert(has_char(sep, c));
            } else {
                assert(join(rest, sep)[k - a.len() - sep.len()] == c);
                assert(has_char(join(rest, sep), c));
            }
        }
    } else if parts.len() == 1 {
        assert(parts[0] == join(parts, sep));
    }
}

/// Splitting a join of parts that do not hold the separator gives the parts.
pub proof fn lemma_split_of_join(parts: Seq<Seq<char>>, c: char)
    requires
        parts.len() > 0,
        forall|i: int| 0 <= i < parts.len() ==> !has_char(#[trigger] parts[i], c),
    ensures
        split_of(join(parts, seq![c]), c) == parts,
    decreases parts.len(),
{
    let a = parts[0];
    let j = join(parts, seq![c]);
    assert(!has_char(a, c));
    if parts.len() == 1 {
        assert(j == a);
        lemma_idx_of_absent(a, c);
        assert(split_of(a, c) =~= seq![a]);
    } else {
        let rest = parts.drop_first();
        assert forall|i: int| 0 <= i < rest.len() implies !has_char(#[trigger] rest[i], c) by {
            assert(rest[i] == parts[i + 1]);
        }
        lemma_split_of_join(rest, c);
        assert(j =~= a + seq![c] + join(rest, seq![c]));
        assert forall|k: int| 0 <= k < a.len() implies j[k] != c by {
            assert(j[k] == a[k]);
            if a[k] == c {
                assert(has_char(a, c));
            }
        }
        lemma_idx_of_found(j, c, a.len() as int);
        assert(j.take(a.len() as int) =~= a);
        assert(j.skip(a.len() as int + 1) =~= join(rest, seq![c]));
        assert(split_of(j, c) =~= seq![a] + rest);
        assert(seq![a] + rest =~= parts);
    }
}

pub proof fn lemma_split_once(s: Seq<char>, c: char)
    ensures
        split_once_of(s, c) matches Some((a, b)) ==> s == a + seq![c] + b && !has_char(a, c),
        split_once_of(s, c) is None <==> !has_char(s, c),
{
    lemma_idx_of_bounds(s, c);
    let i = idx_of(s, c);
    if i >= 0 {
        assert(s =~= s.take(i) + seq![c] + s.skip(i + 1));
        assert(has_char(s, c));
    }
}

pub proof fn lemma_dec_value_step(s: Seq<char>, i: int)
    requires
        0 <= i < s.len(),
    ensures
        dec_value(s.take(i + 1)) == dec_value(s.take(i)) * 10 + digit_val(s[i]),
{
    assert(s.take(i + 1).drop_last() =~= s.take(i));
}

// ---------------------------------------------------------------------------
// Executable helpers
// ---------------------------------------------------------------------------
/// Appends one character to a `String` (std `String::push`).
#[verifier::external_body]
pub fn push_char(s: &mut String, c: char)
    ensures
        final(s)@ == old(s)@.push(c),
{
    s.push(c);
}

/// The characters of a string slice, in order.
pub fn chars_of(s: &str) -> (v: Vec<char>)
    ensures
        v@ == s@,
{
    let mut v: Vec<char> = Vec::new();
    for c in it: s.chars()
        invariant
            v@ == it.seq().take(it.index() as int),
            it.seq() == s@,
    {
        v.push(c);
    }
    v
}

/// A `String` holding the given characters.
pub fn string_of(v: &Vec<char>) -> (s: String)
    ensures
        s@ == v@,
{
    let mut s = String::new();
    let mut i: usize = 0;
    while i < v.len()
        invariant
            i <= v.len(),
            s@ == v@.take(i as int),
        decreases v.len() - i,
    {
        push_char(&mut s, v[i]);
        assert(v@.take(i + 1) =~= v@.take(i as int).push(v@[i as int]));
        i += 1;
    }
    assert(v@.take(v.len() as int) =~= v@);
    s
}

/// A `String` with the same characters as a string slice.
pub fn owned(s: &str) -> (r: String)
    ensures
        r@ == s@,
{
    let v = chars_of(s);
    string_of(&v)
}

/// Copy of `v[a..b]`.
pub fn subvec(v: &Vec<char>, a: usize, b: usize) -> (r: Vec<char>)
    requires
        a <= b <= v.len(),
    ensures
        r@ == v@.subrange(a as int, b as int),
{
    let mut r: Vec<char> = Vec::new();
    let mut i = a;
    while i < b
        invariant
            a <= i <= b,
            b <= v.len(),
            r@ == v@.subrange(a as int, i as int),
        decreases b - i,
    {
        r.push(v[i]);
        assert(v@.subrange(a as int, i + 1) =~= v@.subrange(a as int, i as int).push(v@[i as int]));
        i += 1;
    }
    r
}

/// `a` followed by `b`.
pub fn concat(a: &Vec<char>, b: &Vec<char>) -> (r: Vec<char>)
    ensures
        r@ == a@ + b@,
{
    let mut r: Vec<char> = Vec::new();
    let mut i: usize = 0;
    while i < a.len()
        invariant
            i <= a.len(),
            r@ == a@.take(i as int),
        decreases a.len() - i,
    {
        r.push(a[i]);
        assert(a@.take(i + 1) =~= a@.take(i as int).push(a@[i as int]));
        i += 1;
    }
    let mut j: usize = 0;
    while j < b.len()
        invariant
            j <= b.len(),
            i == a.len(),
            r@ == a@ + b@.take(j as int),
        decreases b.len() - j,
    {
        r.push(b[j]);
        assert(b@.take(j + 1) =~= b@.take(j as int).push(b@[j as int]));
        j += 1;
    }
    assert(a@.take(a.len() as int) =~= a@);
    assert(b@.take(b.len() as int) =~= b@);
    r
}

/// Appends all of `b` to `a`.
pub fn append_all(a: &mut Vec<char>, b: &Vec<char>)
    ensures
        final(a)@ == old(a)@ + b@,
{
    let mut j: usize = 0;
    while j < b.len()
        invariant
            j <= b.len(),
            a@ == old(a)@ + b@.take(j as int),
        decreases b.len() - j,
    {
        a.push(b[j]);
        assert(b@.take(j + 1) =~= b@.take(j as int).push(b@[j as int]));
        j += 1;
    }
    assert(b@.take(b.len() as int) =~= b@);
}

/// Appends the characters of a string slice to `a`.
pub fn append_str(a: &mut Vec<char>, s: &str)
    ensures
        final(a)@ == old(a)@ + s@,
{
    let b = chars_of(s);
    append_all(a, &b);
}


/// The lower-case form of a string (`str::to_lowercase`, full Unicode
/// mapping).
pub uninterp spec fn lowercase_of(s: Seq<char>) -> Seq<char>;

/// Calls `str::to_lowercase`. Claimed: the result is a function of the
/// input alone, named `lowercase_of`; nothing more of the Unicode mapping
/// is stated.
#[verifier::external_body]
pub(crate) fn to_lowercase(s: &str) -> (r: String)
    ensures
        r@ == lowercase_of(s@),
{
    s.to_lowercase()
}

/// Character-wise equality.
pub fn seq_eq(a: &Vec<char>, b: &Vec<char>) -> (r: bool)
    ensures
        r == (a@ == b@),
{
    if a.len() != b.len() {
        return false;
    }
    let mut i: usize = 0;
    while i < a.len()
        invariant
            i <= a.len(),
            a.len() == b.len(),
            forall|j: int| 0 <= j < i ==> a@[j] == b@[j],
        decreases a.len() - i,
    {
        if a[i] != b[i] {
            return false;
        }
        i += 1;
    }
    assert(a@ =~= b@);
    true
}

/// Equality of two string slices.
pub fn str_eq(a: &str, b: &str) -> (r: bool)
    ensures
        r == (a@ == b@),
{
    let va = chars_of(a);
    let vb = chars_of(b);
    seq_eq(&va, &vb)
}

pub fn is_ws_char(c: char) -> (r: bool)
    ensures
        r == is_ws(c),
{
    let u = c as u32;
    (0x9 <= u && u <= 0xD) || u == 0x20 || u == 0x85 || u == 0xA0 || u == 0x1680 || (0x2000 <= u
        && u <= 0x200A) || u == 0x2028 || u == 0x2029 || u == 0x202F || u == 0x205F || u == 0x3000
}

/// `str::trim` on characters.
pub fn trim_vec(v: &Vec<char>) -> (r: Vec<char>)
    ensures
        r@ == trim(v@),
{
    let n = v.len();
    let mut a: usize = 0;
    while a < n && is_ws_char(v[a])
        invariant
            a <= n,
            n == v.len(),
            forall|j: int| 0 <= j < a ==> is_ws(v@[j]),
        decreases n - a,
    {
        a += 1;
    }
    proof {
        lemma_lead_ws(v@, a as int);
    }
    let ghost t = v@.skip(a as int);
    let mut b: usize = n;
    while b > a && is_ws_char(v[b - 1])
        invariant
            a <= b <= n,
            n == v.len(),
            forall|j: int| b <= j < n ==> is_ws(v@[j]),
        decreases b,
    {
        b -= 1;
    }
    proof {
        assert forall|j: int| b - a <= j < t.len() implies is_ws(t[j]) by {
            assert(t[j] == v@[j + a]);
        }
        if b > a {
            assert(t[b - a - 1] == v@[b - 1]);
        }
        lemma_trail_ws(t, b - a);
        assert(t.take(t.len() - trail_ws(t)) =~= v@.subrange(a as int, b as int));
    }
    subvec(v, a, b)
}

/// `str::trim_end` on characters.
pub fn trim_end_vec(v: &Vec<char>) -> (r: Vec<char>)
    ensures
        r@ == trim_end(v@),
{
    let n = v.len();
    let mut b: usize = n;
    while b > 0 && is_ws_char(v[b - 1])
        invariant
            b <= n,
            n == v.len(),
            forall|j: int| b <= j < n ==> is_ws(v@[j]),
        decreases b,
    {
        b -= 1;
    }
    proof {
        lemma_trail_ws(v@, b as int);
        assert(v@.take(v@.len() - trail_ws(v@)) =~= v@.subrange(0, b as int));
    }
    subvec(v, 0, b)
}

/// `str::trim` producing characters.
pub fn trim_str(s: &str) -> (r: Vec<char>)
    ensures
        r@ == trim(s@),
{
    let v = chars_of(s);
    trim_vec(&v)
}

pub fn lower_c(c: char) -> (r: char)
    ensures
        r == lower_char(c),
{
    if 'A' <= c && c <= 'Z' {
        let u = ((c as u32) + 32) as u8;
        u as char
    } else {
        c
    }
}

/// `to_ascii_lowercase` on characters.
pub fn lower_vec(v: &Vec<char>) -> (r: Vec<char>)
    ensures
        r@ == lower(v@),
{
    let mut r: Vec<char> = Vec::new();
    let mut i: usize = 0;
    while i < v.len()
        invariant
            i <= v.len(),
            r@ == lower(v@.take(i as int)),
        decreases v.len() - i,
    {
        r.push(lower_c(v[i]));
        assert(lower(v@.take(i + 1)) =~= lower(v@.take(i as int)).push(lower_char(v@[i as int])));
        i += 1;
    }
    assert(v@.take(v.len() as int) =~= v@);
    r
}

/// `eq_ignore_ascii_case`.
pub fn eq_ignore_case(a: &Vec<char>, b: &Vec<char>) -> (r: bool)
    ensures
        r == eq_ic(a@, b@),
{
    let la = lower_vec(a);
    let lb = lower_vec(b);
    seq_eq(&la, &lb)
}

pub fn starts_with(s: &Vec<char>, p: &Vec<char>) -> (r: bool)
    ensures
        r == has_prefix(s@, p@),
{
    if p.len() > s.len() {
        return false;
    }
    let mut i: usize = 0;
    while i < p.len()
        invariant
            i <= p.len(),
            p.len() <= s.len(),
            forall|j: int| 0 <= j < i ==> s@[j] == p@[j],
        decreases p.len() - i,
    {
        if s[i] != p[i] {
            assert(s@.take(p.len() as int)[i as int] != p@[i as int]);
            return false;
        }
        i += 1;
    }
    assert(s@.take(p.len() as int) =~= p@);
    true
}

pub fn starts_with_str(s: &Vec<char>, p: &str) -> (r: bool)
    ensures
        r == has_prefix(s@, p@),
{
    let pv = chars_of(p);
    starts_with(s, &pv)
}

pub fn ends_with(s: &Vec<char>, p: &Vec<char>) -> (r: bool)
    ensures
        r == has_suffix(s@, p@),
{
    if p.len() > s.len() {
        return false;
    }
    let off = s.len() - p.len();
    let mut i: usize = 0;
    while i < p.len()
        invariant
            i <= p.len(),
            off + p.len() == s.len(),
            forall|j: int| 0 <= j < i ==> s@[j + off] == p@[j],
        decreases p.len() - i,
    {
        if s[off + i] != p[i] {
            assert(s@.skip(off as int)[i as int] != p@[i as int]);
            return false;
        }
        i += 1;
    }
    assert(s@.skip(off as int) =~= p@);
    true
}

pub fn ends_with_str(s: &Vec<char>, p: &str) -> (r: bool)
    ensures
        r == has_suffix(s@, p@),
{
    let pv = chars_of(p);
    ends_with(s, &pv)
}

/// Whether `p` occurs in `s` at position `i`.
pub fn matches_at(s: &Vec<char>, p: &Vec<char>, i: usize) -> (r: bool)
    ensures
        r == occurs_at(s@, p@, i as int),
{
    if i > s.len() || p.len() > s.len() - i {
        return false;
    }
    let mut k: usize = 0;
    while k < p.len()
        invariant
            k <= p.len(),
            i + p.len() <= s.len(),
            forall|j: int| 0 <= j < k ==> s@[i + j] == p@[j],
        decreases p.len() - k,
    {
        if s[i + k] != p[k] {
            assert(s@.subrange(i as int, i + p.len())[k as int] != p@[k as int]);
            return false;
        }
        k += 1;
    }
    assert(s@.subrange(i as int, i + p.len()) =~= p@);
    true
}

/// Index of the first occurrence of `p` in `s` (`str::find`, by character).
pub fn find_sub(s: &Vec<char>, p: &Vec<char>) -> (r: Option<usize>)
    ensures
        match r {
            Some(i) => first_occ_from(s@, p@, 0) == i,
            None => first_occ_from(s@, p@, 0) == -1,
        },
{
    if p.len() > s.len() {
        proof {
            lemma_first_occ_tail(s@, p@, 0);
        }
        return None;
    }
    let last = s.len() - p.len();
    let mut i: usize = 0;
    while i <= last
        invariant
            last + p.len() == s.len(),
            i <= last + 1,
            first_occ_from(s@, p@, 0) == first_occ_from(s@, p@, i as int),
        decreases last + 1 - i,
    {
        if matches_at(s, p, i) {
            return Some(i);
        }
        if i == last {
            proof {
                lemma_first_occ_tail(s@, p@, i + 1);
            }
            return None;
        }
        i += 1;
    }
    proof {
        lemma_first_occ_tail(s@, p@, i as int);
    }
    None
}

/// `str::contains` with a string pattern.
pub fn contains_vec(s: &Vec<char>, p: &Vec<char>) -> (r: bool)
    ensures
        r == contains(s@, p@),
{
    if p.len() > s.len() {
        assert forall|i: int| !occurs_at(s@, p@, i) by {}
        return false;
    }
    let last = s.len() - p.len();
    let mut i: usize = 0;
    while i <= last
        invariant
            last + p.len() == s.len(),
            forall|j: int| 0 <= j < i ==> !occurs_at(s@, p@, j),
        decreases last + 1 - i,
    {
        if matches_at(s, p, i) {
            return true;
        }
        if i == last {
            assert forall|j: int| !occurs_at(s@, p@, j) by {
                if 0 <= j <= last {
                } else {
                }
            }
            return false;
        }
        i += 1;
    }
    assert forall|j: int| !occurs_at(s@, p@, j) by {}
    false
}

pub fn contains_str(s: &Vec<char>, p: &str) -> (r: bool)
    ensures
        r == contains(s@, p@),
{
    let pv = chars_of(p);
    contains_vec(s, &pv)
}

/// Index of the first `c` at or after `start` (`v.len()` if none).
pub fn find_char_from(v: &Vec<char>, c: char, start: usize) -> (r: usize)
    requires
        start <= v.len(),
    ensures
        start <= r <= v.len(),
        r < v.len() ==> idx_of(v@.skip(start as int), c) == r - start,
        r == v.len() ==> idx_of(v@.skip(start as int), c) == -1,
        r < v.len() ==> v@[r as int] == c,
        forall|j: int| start <= j < r ==> v@[j] != c,
{
    let mut j = start;
    while j < v.len()
        invariant
            start <= j <= v.len(),
            forall|k: int| start <= k < j ==> v@[k] != c,
        decreases v.len() - j,
    {
        if v[j] == c {
            proof {
                lemma_idx_of_found(v@.skip(start as int), c, (j - start) as int);
            }
            return j;
        }
        j += 1;
    }
    proof {
        lemma_idx_of_absent(v@.skip(start as int), c);
    }
    j
}

pub fn has_char_vec(v: &Vec<char>, c: char) -> (r: bool)
    ensures
        r == has_char(v@, c),
{
    let i = find_char_from(v, c, 0);
    assert(v@.skip(0) =~= v@);
    i < v.len()
}

/// `str::split_once` on a character.
pub fn split_once_vec(v: &Vec<char>, c: char) -> (r: Option<(Vec<char>, Vec<char>)>)
    ensures
        match r {
            Some((a, b)) => split_once_of(v@, c) == Some((a@, b@)),
            None => split_once_of(v@, c) is None,
        },
{
    let i = find_char_from(v, c, 0);
    assert(v@.skip(0) =~= v@);
    if i == v.len() {
        None
    } else {
        let a = subvec(v, 0, i);
        let b = subvec(v, i + 1, v.len());
        assert(a@ =~= v@.take(i as int));
        assert(b@ =~= v@.skip(i + 1));
        Some((a, b))
    }
}

/// `str::split` on a character.
pub fn split_vec(v: &Vec<char>, c: char) -> (r: Vec<Vec<char>>)
    ensures
        views(r@) == split_of(v@, c),
{
    let mut out: Vec<Vec<char>> = Vec::new();
    let mut start: usize = 0;
    assert(v@.skip(0) =~= v@);
    assert(views(out@) =~= seq![]);
    assert(views(out@) + split_of(v@, c) =~= split_of(v@, c));
    loop
        invariant
            start <= v.len(),
            split_of(v@, c) == views(out@) + split_of(v@.skip(start as int), c),
        decreases v.len() - start,
    {
        let j = find_char_from(v, c, start);
        let piece = subvec(v, start, j);
        let ghost rest = v@.skip(start as int);
        if j == v.len() {
            proof {
                assert(piece@ =~= rest);
                assert(split_of(rest, c) == seq![rest]);
                assert(views(out@.push(piece)) =~= views(out@) + seq![piece@]);
            }
            out.push(piece);
            return out;
        }
        proof {
            assert(piece@ =~= rest.take(j - start));
            assert(rest.skip(j - start + 1) =~= v@.skip(j + 1));
            assert(views(out@.push(piece)) =~= views(out@) + seq![piece@]);
        }
        out.push(piece);
        start = j + 1;
    }
}

/// `str::lines` on characters.
pub fn lines_vec(v: &Vec<char>) -> (r: Vec<Vec<char>>)
    ensures
        views(r@) == lines_of(v@),
{
    let mut out: Vec<Vec<char>> = Vec::new();
    let mut start: usize = 0;
    assert(v@.skip(0) =~= v@);
    assert(views(out@) =~= seq![]);
    while start < v.len()
        invariant
            start <= v.len(),
            lines_of(v@) == views(out@) + lines_of(v@.skip(start as int)),
        decreases v.len() - start,
    {
        let j = find_char_from(v, '\n', start);
        let ghost rest = v@.skip(start as int);
        if j == v.len() {
            let piece = subvec(v, start, j);
            proof {
                assert(piece@ =~= rest);
                assert(lines_of(rest) == seq![rest]);
                assert(views(out@.push(piece)) =~= views(out@) + seq![piece@]);
                assert(v@.skip(j as int) =~= Seq::<char>::empty());
            }
            out.push(piece);
            start = j;
        } else {
            let mut e = j;
            if e > start && v[e - 1] == '\r' {
                e = e - 1;
            }
            let piece = subvec(v, start, e);
            proof {
                assert(piece@ =~= strip_cr(rest.take(j - start)));
                assert(rest.skip(j - start + 1) =~= v@.skip(j + 1));
                assert(views(out@.push(piece)) =~= views(out@) + seq![piece@]);
            }
            out.push(piece);
            start = j + 1;
        }
    }
    assert(v@.skip(start as int) =~= Seq::<char>::empty());
    assert(views(out@) + seq![] =~= views(out@));
    out
}

/// `str::strip_prefix` with a string pattern.
pub fn strip_prefix_vec(s: &Vec<char>, p: &Vec<char>) -> (r: Option<Vec<char>>)
    ensures
        r is Some <==> has_prefix(s@, p@),
        r matches Some(t) ==> t@ == s@.skip(p@.len() as int),
{
    if starts_with(s, p) {
        Some(subvec(s, p.len(), s.len()))
    } else {
        None
    }
}

/// `str::trim_end_matches` with a non-empty pattern.
pub fn trim_end_matches_vec(s: &Vec<char>, p: &Vec<char>) -> (r: Vec<char>)
    requires
        p.len() > 0,
    ensures
        r@ == trim_end_matches(s@, p@),
{
    let mut cur = subvec(s, 0, s.len());
    assert(cur@ =~= s@);
    while ends_with(&cur, p)
        invariant
            p.len() > 0,
            trim_end_matches(cur@, p@) == trim_end_matches(s@, p@),
        decreases cur.len(),
    {
        let n = cur.len() - p.len();
        cur = subvec(&cur, 0, n);
    }
    cur
}

/// `str::trim_matches(&[a, b])`.
pub fn trim_matches2_vec(s: &Vec<char>, a: char, b: char) -> (r: Vec<char>)
    ensures
        r@ == trim_matches2(s@, a, b),
{
    let n = s.len();
    let mut i: usize = 0;
    assert(s@.skip(0) =~= s@);
    while i < n && (s[i] == a || s[i] == b)
        invariant
            i <= n,
            n == s.len(),
            lead_in2(s@, a, b) == i + lead_in2(s@.skip(i as int), a, b),
        decreases n - i,
    {
        assert(s@.skip(i as int).drop_first() =~= s@.skip(i + 1));
        i += 1;
    }
    assert(lead_in2(s@.skip(i as int), a, b) == 0);
    let t = subvec(s, i, n);
    assert(t@ =~= s@.skip(i as int));
    let mut e: usize = t.len();
    assert(t@.take(t.len() as int) =~= t@);
    while e > 0 && (t[e - 1] == a || t[e - 1] == b)
        invariant
            e <= t.len(),
            trail_in2(t@, a, b) == (t.len() - e) + trail_in2(t@.take(e as int), a, b),
        decreases e,
    {
        assert(t@.take(e as int).drop_last() =~= t@.take(e - 1));
        e -= 1;
    }
    assert(trail_in2(t@.take(e as int), a, b) == 0);
    subvec(&t, 0, e)
}


/// `str::trim_start_matches` with a single character.
pub fn trim_start_char_vec(s: &Vec<char>, c: char) -> (r: Vec<char>)
    ensures
        r@ == trim_start_char(s@, c),
{
    let n = s.len();
    let mut i: usize = 0;
    assert(s@.skip(0) =~= s@);
    while i < n && s[i] == c
        invariant
            i <= n,
            n == s.len(),
            lead_in2(s@, c, c) == i + lead_in2(s@.skip(i as int), c, c),
        decreases n - i,
    {
        assert(s@.skip(i as int).drop_first() =~= s@.skip(i + 1));
        i += 1;
    }
    assert(lead_in2(s@.skip(i as int), c, c) == 0);
    subvec(s, i, n)
}

/// The part before the first `c`.
pub fn before_char_vec(s: &Vec<char>, c: char) -> (r: Vec<char>)
    ensures
        r@ == before_char(s@, c),
{
    let i = find_char_from(s, c, 0);
    assert(s@.skip(0) =~= s@);
    subvec(s, 0, i)
}

/// Index of the last occurrence of `c`.
pub fn last_index_of(s: &Vec<char>, c: char) -> (r: Option<usize>)
    ensures
        match r {
            Some(i) => i < s.len() && last_idx_of(s@, c) == i,
            None => last_idx_of(s@, c) == -1,
        },
{
    let mut e: usize = s.len();
    assert(s@.take(e as int) =~= s@);
    while e > 0
        invariant
            e <= s.len(),
            last_idx_of(s@, c) == last_idx_of(s@.take(e as int), c),
        decreases e,
    {
        if s[e - 1] == c {
            return Some(e - 1);
        }
        assert(s@.take(e as int).drop_last() =~= s@.take(e - 1));
        e -= 1;
    }
    None
}

/// Whether `a` comes strictly before `b` (`str`'s `<`).
pub fn str_less(a: &str, b: &str) -> (r: bool)
    ensures
        r == str_lt(a@, b@),
{
    let av = chars_of(a);
    let bv = chars_of(b);
    let mut i: usize = 0;
    assert(av@.skip(0) =~= av@);
    assert(bv@.skip(0) =~= bv@);
    while i < av.len() && i < bv.len() && av[i] == bv[i]
        invariant
            i <= av.len(),
            i <= bv.len(),
            str_lt(av@, bv@) == str_lt(av@.skip(i as int), bv@.skip(i as int)),
        decreases av.len() - i,
    {
        assert(av@.skip(i as int).drop_first() =~= av@.skip(i + 1));
        assert(bv@.skip(i as int).drop_first() =~= bv@.skip(i + 1));
        i += 1;
    }
    if i == av.len() {
        i < bv.len()
    } else if i == bv.len() {
        false
    } else {
        av[i] < bv[i]
    }
}

/// `u32::from_str(..).ok()`.
pub fn parse_u32_vec(s: &Vec<char>) -> (r: Option<u32>)
    ensures
        r == parse_u32_of(s@),
{
    let d = if s.len() > 0 && s[0] == '+' {
        subvec(s, 1, s.len())
    } else {
        subvec(s, 0, s.len())
    };
    assert(d@ =~= digits_part(s@));
    if d.len() == 0 {
        return None;
    }
    let mut acc: u64 = 0;
    let mut over = false;
    let mut i: usize = 0;
    assert(d@.take(0) =~= Seq::<char>::empty());
    while i < d.len()
        invariant
            i <= d.len(),
            d@ == digits_part(s@),
            forall|j: int| 0 <= j < i ==> is_digit(d@[j]),
            !over ==> acc == dec_value(d@.take(i as int)),
            !over ==> acc <= u32::MAX,
            over ==> dec_value(d@.take(i as int)) > u32::MAX,
        decreases d.len() - i,
    {
        let c = d[i];
        if !('0' <= c && c <= '9') {
            assert(!is_digit(d@[i as int]));
            assert(!all_digits(d@));
            return None;
        }
        proof {
            lemma_dec_value_step(d@, i as int);
        }
        if !over {
            let dv = (c as u32 - '0' as u32) as u64;
            acc = acc * 10 + dv;
            if acc > u32::MAX as u64 {
                over = true;
            }
        }
        i += 1;
    }
    assert(d@.take(d.len() as int) =~= d@);
    if over {
        None
    } else {
        Some(acc as u32)
    }
}

/// Decimal rendering of a `u64`.
pub fn dec_vec(n: u64) -> (r: Vec<char>)
    ensures
        r@ == dec_string(n as nat),
    decreases n,
{
    if n < 10 {
        let c = ((n as u8) + 48) as char;
        let mut r: Vec<char> = Vec::new();
        r.push(c);
        assert(r@ =~= seq![digit_char(n as int)]);
        r
    } else {
        let mut r = dec_vec(n / 10);
        let c = (((n % 10) as u8) + 48) as char;
        r.push(c);
        r
    }
}

/// `[T]::join` over character vectors.
pub fn join_vec(parts: &Vec<Vec<char>>, sep: &Vec<char>) -> (r: Vec<char>)
    ensures
        r@ == join(views(parts@), sep@),
{
    let n = parts.len();
    if n == 0 {
        return Vec::new();
    }
    // Build from the back: acc == join(views(parts[i..]))
    let mut i: usize = n - 1;
    let mut acc = subvec(&parts[i], 0, parts[i].len());
    proof {
        assert(acc@ =~= parts@[i as int]@);
        assert(views(parts@.skip(i as int)) =~= seq![parts@[i as int]@]);
    }
    while i > 0
        invariant
            i < n,
            n == parts.len(),
            acc@ == join(views(parts@.skip(i as int)), sep@),
        decreases i,
    {
        let mut nxt = concat(&parts[i - 1], sep);
        append_all(&mut nxt, &acc);
        proof {
            let vs = views(parts@.skip(i - 1));
            assert(vs.drop_first() =~= views(parts@.skip(i as int)));
            assert(vs[0] == parts@[i - 1]@);
            assert(vs.len() >= 2);
        }
        acc = nxt;
        i -= 1;
    }
    assert(parts@.skip(0) =~= parts@);
    acc
}


/// A character missing from `s` is missing from its trim.
pub proof fn lemma_trim_no_char(s: Seq<char>, c: char)
    requires
        !has_char(s, c),
    ensures
        !has_char(trim(s), c),
{
    lemma_trim_ends(s);
    lemma_lead_bound(s);
    lemma_trail_bound(trim_start(s));
    if has_char(trim(s), c) {
        let k = choose|k: int| 0 <= k < trim(s).len() && trim(s)[k] == c;
        assert(s[k + lead_ws(s)] == c);
    }
}

/// Trimming twice is trimming once.
pub proof fn lemma_trim_idem(s: Seq<char>)
    ensures
        trim(trim(s)) == trim(s),
{
    lemma_trim_ends(s);
    lemma_trim_id(trim(s));
}

/// A character missing from `s` is missing from any part of it.
pub proof fn lemma_sub_no_char(s: Seq<char>, c: char, a: int, b: int)
    requires
        !has_char(s, c),
        0 <= a <= b <= s.len(),
    ensures
        !has_char(s.subrange(a, b), c),
        !has_char(s.take(b), c),
        !has_char(s.skip(a), c),
{
    if has_char(s.subrange(a, b), c) {
        let k = choose|k: int| 0 <= k < b - a && s.subrange(a, b)[k] == c;
        assert(s[a + k] == c);
    }
    if has_char(s.take(b), c) {
        let k = choose|k: int| 0 <= k < b && s.take(b)[k] == c;
        assert(s[k] == c);
    }
    if has_char(s.skip(a), c) {
        let k = choose|k: int| 0 <= k < s.len() - a && s.skip(a)[k] == c;
        assert(s[a + k] == c);
    }
}

/// No line holds a line break.
pub proof fn lemma_lines_no_nl(s: Seq<char>)
    ensures
        forall|i: int| 0 <= i < lines_of(s).len() ==> !has_char(#[trigger] lines_of(s)[i], '\n'),
    decreases s.len(),
{
    if s.len() > 0 {
        lemma_idx_of_bounds(s, '\n');
        let i = idx_of(s, '\n');
        if i < 0 {
            assert(lines_of(s) =~= seq![s]);
        } else {
            let first = s.take(i);
            assert(!has_char(first, '\n'));
            if first.len() > 0 {
                lemma_sub_no_char(first, '\n', 0, first.len() - 1);
                assert(first.drop_last() =~= first.take(first.len() - 1));
            }
            assert(!has_char(strip_cr(first), '\n'));
            lemma_lines_no_nl(s.skip(i + 1));
            let ls = lines_of(s);
            assert(ls =~= seq![strip_cr(first)] + lines_of(s.skip(i + 1)));
            assert forall|j: int| 0 <= j < ls.len() implies !has_char(#[trigger] ls[j], '\n') by {
                if j > 0 {
                    assert(ls[j] == lines_of(s.skip(i + 1))[j - 1]);
                }
            }
        }
    }
}

/// No piece of a split holds the separator, nor a character missing from
/// the text.
pub proof fn lemma_split_no_char(s: Seq<char>, c: char, d: char)
    ensures
        forall|i: int|
            0 <= i < split_of(s, c).len() ==> !has_char(#[trigger] split_of(s, c)[i], c) && (!has_char(
                s,
                d,
            ) ==> !has_char(split_of(s, c)[i], d)),
    decreases s.len(),
{
    lemma_idx_of_bounds(s, c);
    let i = idx_of(s, c);
    if i < 0 {
        assert(split_of(s, c) =~= seq![s]);
    } else {
        let rest = s.skip(i + 1);
        lemma_split_no_char(rest, c, d);
        let ps = split_of(s, c);
        assert(ps =~= seq![s.take(i)] + split_of(rest, c));
        if !has_char(s, d) {
            lemma_sub_no_char(s, d, i + 1, s.len() as int);
            lemma_sub_no_char(s, d, 0, i);
        }
        assert forall|j: int| 0 <= j < ps.len() implies !has_char(#[trigger] ps[j], c) && (!has_char(
            s,
            d,
        ) ==> !has_char(ps[j], d)) by {
            if j > 0 {
                assert(ps[j] == split_of(rest, c)[j - 1]);
            }
        }
    }
}


/// Stripping a suffix again and again leaves a prefix that no longer ends
/// with it.
pub proof fn lemma_trim_end_matches(s: Seq<char>, p: Seq<char>)
    requires
        p.len() > 0,
    ensures
        trim_end_matches(s, p).len() <= s.len(),
        trim_end_matches(s, p) =~= s.take(trim_end_matches(s, p).len() as int),
        !has_suffix(trim_end_matches(s, p), p),
    decreases s.len(),
{
    if has_suffix(s, p) {
        let t = s.take(s.len() - p.len());
        lemma_trim_end_matches(t, p);
        let r = trim_end_matches(t, p);
        assert(r =~= s.take(r.len() as int));
    }
}

pub proof fn lemma_lead_in2(s: Seq<char>, a: char, b: char)
    ensures
        lead_in2(s, a, b) <= s.len(),
        lead_in2(s, a, b) < s.len() ==> s[lead_in2(s, a, b) as int] != a && s[lead_in2(
            s,
            a,
            b,
        ) as int] != b,
    decreases s.len(),
{
    if s.len() > 0 && (s[0] == a || s[0] == b) {
        lemma_lead_in2(s.drop_first(), a, b);
    }
}

pub proof fn lemma_trail_in2(s: Seq<char>, a: char, b: char)
    ensures
        trail_in2(s, a, b) <= s.len(),
    decreases s.len(),
{
    if s.len() > 0 && (s.last() == a || s.last() == b) {
        lemma_trail_in2(s.drop_last(), a, b);
    }
}

/// What is left after stripping `a` and `b` from both ends starts with
/// neither, and is a piece of `s`.
pub proof fn lemma_trim_matches2(s: Seq<char>, a: char, b: char)
    ensures
        trim_matches2(s, a, b).len() > 0 ==> trim_matches2(s, a, b)[0] != a && trim_matches2(
            s,
            a,
            b,
        )[0] != b,
        lead_in2(s, a, b) + trim_matches2(s, a, b).len() <= s.len(),
        forall|j: int|
            0 <= j < trim_matches2(s, a, b).len() ==> #[trigger] trim_matches2(s, a, b)[j] == s[j
                + lead_in2(s, a, b)],
{
    lemma_lead_in2(s, a, b);
    let t = s.skip(lead_in2(s, a, b) as int);
    lemma_trail_in2(t, a, b);
}

} // verus!
