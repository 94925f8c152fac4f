//! Ordering of catalog versions (`1.5.0` against `1.4.9`) and of catalogs.
use std::cmp::Ordering;
use vstd::prelude::*;
use crate::remote_presets::manifest::PresetCatalog;
use crate::text::{parse_u32_of, parse_u32_vec, split_of, split_vec, str_less, str_lt, views};

verus! {

/// The numeric parts of a dotted version; parts that are not a `u32` are
/// left out.
pub open spec fn numeric_parts(ps: Seq<Seq<char>>) -> Seq<u32>
    decreases ps.len(),
{
    if ps.len() == 0 {
        seq![]
    } else {
        match parse_u32_of(ps[0]) {
            Some(n) => seq![n] + numeric_parts(ps.drop_first()),
            None => numeric_parts(ps.drop_first()),
        }
    }
}

pub open spec fn version_parts(v: Seq<char>) -> Seq<u32> {
    numeric_parts(split_of(v, '.'))
}

/// Part `i`, or 0 past the end.
pub open spec fn part_at(p: Seq<u32>, i: int) -> u32 {
    if 0 <= i < p.len() {
        p[i]
    } else {
        0
    }
}

/// Compares two part lists from position `i` on, missing parts counting
/// as 0.
pub open spec fn parts_order_from(pa: Seq<u32>, pb: Seq<u32>, i: int) -> Ordering
    decreases pa.len() + pb.len() - i,
{
    if i < 0 || (i >= pa.len() && i >= pb.len()) {
        Ordering::Equal
    } else if part_at(pa, i) < part_at(pb, i) {
        Ordering::Less
    } else if part_at(pa, i) > part_at(pb, i) {
        Ordering::Greater
    } else {
        parts_order_from(pa, pb, i + 1)
    }
}

pub open spec fn version_order(a: Seq<char>, b: Seq<char>) -> Ordering {
    parts_order_from(version_parts(a), version_parts(b), 0)
}

pub open spec fn flip(o: Ordering) -> Ordering {
    match o {
        Ordering::Less => Ordering::Greater,
        Ordering::Equal => Ordering::Equal,
        Ordering::Greater => Ordering::Less,
    }
}

fn numeric_parts_exec(ps: &Vec<Vec<char>>) -> (r: Vec<u32>)
    ensures
        r@ == numeric_parts(views(ps@)),
{
    let mut out: Vec<u32> = Vec::new();
    let mut i: usize = 0;
    assert(views(ps@).skip(0) =~= views(ps@));
    while i < ps.len()
        invariant
            i <= ps.len(),
            numeric_parts(views(ps@)) == out@ + numeric_parts(views(ps@).skip(i as int)),
        decreases ps.len() - i,
    {
        let ghost rest = views(ps@).skip(i as int);
        assert(rest[0] == ps@[i as int]@);
        assert(rest.drop_first() =~= views(ps@).skip(i + 1));
        match parse_u32_vec(&ps[i]) {
            Some(n) => {
                out.push(n);
                assert(numeric_parts(rest) == seq![n] + numeric_parts(rest.drop_first()));
                assert(out@ + numeric_parts(rest.drop_first()) =~= (out@.drop_last() + seq![n])
                    + numeric_parts(rest.drop_first()));
            },
            None => {},
        }
        i += 1;
    }
    assert(views(ps@).skip(i as int) =~= Seq::<Seq<char>>::empty());
    assert(out@ + Seq::<u32>::empty() =~= out@);
    out
}

/// First position at or after `i`, below the longer length, where the
/// parts differ; -1 when there is none.
pub open spec fn diff_from(pa: Seq<u32>, pb: Seq<u32>, i: int) -> int
    decreases pa.len() + pb.len() - i,
{
    if i < 0 || (i >= pa.len() && i >= pb.len()) {
        -1
    } else if part_at(pa, i) != part_at(pb, i) {
        i
    } else {
        diff_from(pa, pb, i + 1)
    }
}

proof fn lemma_diff_from(pa: Seq<u32>, pb: Seq<u32>, i: int)
    ensures
        diff_from(pa, pb, i) == -1 || (diff_from(pa, pb, i) >= i && part_at(pa, diff_from(pa, pb, i))
            != part_at(pb, diff_from(pa, pb, i))),
    decreases pa.len() + pb.len() - i,
{
    if !(i < 0 || (i >= pa.len() && i >= pb.len())) && part_at(pa, i) == part_at(pb, i) {
        lemma_diff_from(pa, pb, i + 1);
    }
}

/// The parts at the first difference, if any.
fn first_difference(pa: &Vec<u32>, pb: &Vec<u32>) -> (r: Option<(u32, u32)>)
    ensures
        match r {
            Some((x, y)) => diff_from(pa@, pb@, 0) >= 0 && x == part_at(pa@, diff_from(pa@, pb@, 0))
                && y == part_at(pb@, diff_from(pa@, pb@, 0)),
            None => diff_from(pa@, pb@, 0) == -1,
        },
{
    let len = if pa.len() > pb.len() {
        pa.len()
    } else {
        pb.len()
    };
    let mut i: usize = 0;
    while i < len
        invariant
            i <= len,
            len == pa.len() || len == pb.len(),
            pa.len() <= len,
            pb.len() <= len,
            diff_from(pa@, pb@, 0) == diff_from(pa@, pb@, i as int),
        decreases len - i,
    {
        let va: u32 = if i < pa.len() {
            pa[i]
        } else {
            0
        };
        let vb: u32 = if i < pb.len() {
            pb[i]
        } else {
            0
        };
        if va != vb {
            return Some((va, vb));
        }
        i += 1;
    }
    None
}

/// How the order of two part lists follows from their first difference.
proof fn lemma_order_by_diff(pa: Seq<u32>, pb: Seq<u32>, i: int)
    ensures
        parts_order_from(pa, pb, i) == (if diff_from(pa, pb, i) < 0 {
            Ordering::Equal
        } else if part_at(pa, diff_from(pa, pb, i)) < part_at(pb, diff_from(pa, pb, i)) {
            Ordering::Less
        } else {
            Ordering::Greater
        }),
    decreases pa.len() + pb.len() - i,
{
    if !(i < 0 || (i >= pa.len() && i >= pb.len())) && part_at(pa, i) == part_at(pb, i) {
        lemma_order_by_diff(pa, pb, i + 1);
    }
}

/// Compares dotted versions part by part (`1.5.0` > `1.4.9`), missing parts
/// counting as 0.
pub fn version_cmp(a: &str, b: &str) -> (r: Ordering)
    ensures
        r == version_order(a@, b@),
{
    let av = crate::text::chars_of(a);
    let bv = crate::text::chars_of(b);
    let sa = split_vec(&av, '.');
    let sb = split_vec(&bv, '.');
    let pa = numeric_parts_exec(&sa);
    let pb = numeric_parts_exec(&sb);
    proof {
        lemma_order_by_diff(pa@, pb@, 0);
        lemma_diff_from(pa@, pb@, 0);
    }
    match first_difference(&pa, &pb) {
        None => Ordering::Equal,
        Some((x, y)) => {
            if x < y {
                Ordering::Less
            } else {
                Ordering::Greater
            }
        },
    }
}

/// Comparing the other way round gives the opposite answer.
pub proof fn lemma_parts_order_flip(pa: Seq<u32>, pb: Seq<u32>, i: int)
    ensures
        parts_order_from(pb, pa, i) == flip(parts_order_from(pa, pb, i)),
    decreases pa.len() + pb.len() - i,
{
    if !(i < 0 || (i >= pa.len() && i >= pb.len())) && part_at(pa, i) == part_at(pb, i) {
        lemma_parts_order_flip(pa, pb, i + 1);
    }
}

pub proof fn lemma_parts_order_refl(pa: Seq<u32>, i: int)
    ensures
        parts_order_from(pa, pa, i) == Ordering::Equal,
    decreases pa.len() + pa.len() - i,
{
    if !(i < 0 || i >= pa.len()) {
        lemma_parts_order_refl(pa, i + 1);
    }
}

/// Swapping the two versions reverses the comparison.
pub proof fn version_cmp_antisymmetric(a: Seq<char>, b: Seq<char>)
    ensures
        version_order(b, a) == flip(version_order(a, b)),
{
    lemma_parts_order_flip(version_parts(a), version_parts(b), 0);
}

/// Every version is equal to itself.
pub proof fn version_cmp_reflexive(a: Seq<char>)
    ensures
        version_order(a, a) == Ordering::Equal,
{
    lemma_parts_order_refl(version_parts(a), 0);
}

/// A catalog is newer when both carry different `updated_at` stamps and its
/// stamp sorts later; otherwise when its version is greater.
pub open spec fn catalog_newer(c: PresetCatalog, b: PresetCatalog) -> bool {
    if c.updated_at is Some && b.updated_at is Some && c.updated_at->0@ != b.updated_at->0@ {
        str_lt(b.updated_at->0@, c.updated_at->0@)
    } else {
        version_order(c.version@, b.version@) == Ordering::Greater
    }
}

/// Whether `candidate` is newer than `baseline` (see `catalog_newer`).
pub fn catalog_is_newer(candidate: &PresetCatalog, baseline: &PresetCatalog) -> (r: bool)
    ensures
        r == catalog_newer(*candidate, *baseline),
{
    match (&candidate.updated_at, &baseline.updated_at) {
        (Some(c_ts), Some(b_ts)) => {
            if !crate::text::str_eq(c_ts.as_str(), b_ts.as_str()) {
                return str_less(b_ts.as_str(), c_ts.as_str());
            }
        },
        _ => {},
    }
    match version_cmp(candidate.version.as_str(), baseline.version.as_str()) {
        Ordering::Greater => true,
        _ => false,
    }
}

/// Of two catalogs, at most one is newer than the other, and none is newer
/// than itself.
pub proof fn catalog_is_newer_asymmetric(c: PresetCatalog, b: PresetCatalog)
    ensures
        !(catalog_newer(c, b) && catalog_newer(b, c)),
        !catalog_newer(c, c),
{
    version_cmp_antisymmetric(c.version@, b.version@);
    version_cmp_reflexive(c.version@);
    if c.updated_at is Some && b.updated_at is Some {
        crate::text::lemma_str_lt_asym(b.updated_at->0@, c.updated_at->0@);
    }
}


/// Before the first difference the parts agree; with none, they agree from
/// `i` on.
proof fn lemma_diff_prefix(pa: Seq<u32>, pb: Seq<u32>, i: int)
    requires
        i >= 0,
    ensures
        diff_from(pa, pb, i) >= 0 ==> forall|j: int|
            i <= j < diff_from(pa, pb, i) ==> part_at(pa, j) == part_at(pb, j),
        diff_from(pa, pb, i) < 0 ==> forall|j: int| i <= j ==> part_at(pa, j) == part_at(pb, j),
    decreases pa.len() + pb.len() - i,
{
    if !(i >= pa.len() && i >= pb.len()) && part_at(pa, i) == part_at(pb, i) {
        lemma_diff_prefix(pa, pb, i + 1);
    }
}

/// Agreeing on `[i, d)` and differing at `d` makes `d` the first difference.
proof fn lemma_diff_at(pa: Seq<u32>, pb: Seq<u32>, i: int, d: int)
    requires
        0 <= i <= d,
        forall|j: int| i <= j < d ==> part_at(pa, j) == part_at(pb, j),
        part_at(pa, d) != part_at(pb, d),
    ensures
        diff_from(pa, pb, i) == d,
    decreases d - i,
{
    if i < d {
        lemma_diff_at(pa, pb, i + 1, d);
    }
}

/// Version order is transitive: below below is below.
pub proof fn version_cmp_transitive(a: Seq<char>, b: Seq<char>, c: Seq<char>)
    requires
        version_order(a, b) == Ordering::Less,
        version_order(b, c) == Ordering::Less,
    ensures
        version_order(a, c) == Ordering::Less,
{
    let pa = version_parts(a);
    let pb = version_parts(b);
    let pc = version_parts(c);
    lemma_order_by_diff(pa, pb, 0);
    lemma_order_by_diff(pb, pc, 0);
    lemma_order_by_diff(pa, pc, 0);
    lemma_diff_prefix(pa, pb, 0);
    lemma_diff_prefix(pb, pc, 0);
    let d1 = diff_from(pa, pb, 0);
    let d2 = diff_from(pb, pc, 0);
    let d = if d1 < d2 { d1 } else { d2 };
    assert forall|j: int| 0 <= j < d implies part_at(pa, j) == part_at(pc, j) by {
        assert(part_at(pa, j) == part_at(pb, j));
        assert(part_at(pb, j) == part_at(pc, j));
    }
    assert(part_at(pa, d) < part_at(pc, d));
    lemma_diff_at(pa, pc, 0, d);
}

} // verus!
