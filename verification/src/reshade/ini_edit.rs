//! Editing ReShade preset INI text: rebuilding the technique line, setting
//! effect parameters, per-game overrides and `[GENERAL]`/`[INPUT]` behavior
//! keys in the base INI.
use vstd::prelude::*;
use vstd::utf8::encode_utf8;
use crate::reshade::presets::{
    is_section_line, param_views, params_of, parse_parameters, parse_techniques, techniques_of,
    PresetParameter,
};
use crate::text::{
    append_all, append_str, chars_of, has_char, has_prefix, has_suffix, join, join_vec, lines_of,
    lines_vec, seq_eq, split_once_of, starts_with, str_views, string_of, subvec, trim, trim_vec,
    views,
};

verus! {

#[derive(Debug, Clone)]
pub struct ReShadeBehaviorSettings {
    pub performance_mode: bool,
    pub key_overlay: Option<String>,
    pub key_toggle_effects: Option<String>,
}

/// Per-game changes to a preset: replacement technique list, parameter
/// values per effect (`(effect, [(key, value)])`), behavior keys.
#[derive(Debug, Clone)]
pub struct PresetOverrides {
    pub techniques: Option<Vec<String>>,
    pub parameters: Vec<(String, Vec<(String, String)>)>,
    pub behavior: Option<ReShadeBehaviorSettings>,
}

pub const MAX_TECHNIQUES: usize = 32;

pub const MAX_OVERRIDE_EFFECTS: usize = 32;

pub const MAX_KEYS_PER_EFFECT: usize = 64;

pub const MAX_OVERRIDE_KEY_LEN: usize = 128;

pub const MAX_OVERRIDE_VALUE_LEN: usize = 256;

/// Why a set of preset overrides is refused.
#[derive(Debug, Clone, PartialEq, Eq)]
pub enum OverridesError {
    TooManyTechniques(usize),
    InvalidTechniqueName,
    TooManyEffects(usize),
    InvalidEffectName,
    TooManyParameters { effect: String, count: usize },
    InvalidParameterKey { effect: String },
    ValueTooLong { effect: String, key: String },
    /// An effect listed twice (overrides hold one entry per effect).
    DuplicateEffect(String),
    /// A parameter listed twice for one effect.
    DuplicateParameter { effect: String, key: String },
}

/// UTF-8 length in bytes, as `str::len` reports it.
pub open spec fn byte_len(s: Seq<char>) -> usize {
    encode_utf8(s).len() as usize
}

pub open spec fn name_ok(s: Seq<char>) -> bool {
    s.len() > 0 && byte_len(s) <= MAX_OVERRIDE_KEY_LEN
}

// ---------------------------------------------------------------------------
// Specification of rebuilt preset text
// ---------------------------------------------------------------------------
pub open spec fn sorting_items(ts: Seq<Seq<char>>) -> Seq<Seq<char>> {
    ts.map_values(|t: Seq<char>| t + "@"@ + t)
}

/// The `Techniques=` / `TechniqueSorting=` header.
pub open spec fn header_text(ts: Seq<Seq<char>>) -> Seq<char> {
    if ts.len() == 0 {
        "Techniques=\nTechniqueSorting=\n"@
    } else {
        "Techniques="@ + join(ts, ","@) + "\n"@ + "TechniqueSorting="@ + join(
            sorting_items(ts),
            ","@,
        ) + "\n"@
    }
}

/// Parameter lines, with a `[Effect.fx]` header whenever the effect changes.
pub open spec fn params_text(
    ps: Seq<(Seq<char>, Seq<char>, Seq<char>)>,
    cur: Option<Seq<char>>,
) -> Seq<char>
    decreases ps.len(),
{
    if ps.len() == 0 {
        seq![]
    } else {
        let p = ps[0];
        let head = if cur == Some(p.0) {
            seq![]
        } else {
            "\n["@ + p.0 + ".fx]\n"@
        };
        head + p.1 + "="@ + p.2 + "\n"@ + params_text(ps.drop_first(), Some(p.0))
    }
}

/// A preset INI written from a technique list and parameters.
pub open spec fn preset_text(
    ts: Seq<Seq<char>>,
    ps: Seq<(Seq<char>, Seq<char>, Seq<char>)>,
) -> Seq<char> {
    header_text(ts) + params_text(ps, None)
}

/// Index of the first parameter with this effect and key, or -1.
pub open spec fn param_index(ps: Seq<(Seq<char>, Seq<char>, Seq<char>)>, e: Seq<char>, k: Seq<char>) -> int
    decreases ps.len(),
{
    if ps.len() == 0 {
        -1
    } else if ps[0].0 == e && ps[0].1 == k {
        0
    } else {
        let r = param_index(ps.drop_first(), e, k);
        if r < 0 {
            -1
        } else {
            r + 1
        }
    }
}

/// The parameter list with `(e, k)` set to `v`: the first match replaced,
/// or a new entry appended.
pub open spec fn upsert_param(
    ps: Seq<(Seq<char>, Seq<char>, Seq<char>)>,
    e: Seq<char>,
    k: Seq<char>,
    v: Seq<char>,
) -> Seq<(Seq<char>, Seq<char>, Seq<char>)> {
    let i = param_index(ps, e, k);
    if i >= 0 {
        ps.update(i, (e, k, v))
    } else {
        ps.push((e, k, v))
    }
}

pub open spec fn set_techniques_text(ini: Seq<char>, ts: Seq<Seq<char>>) -> Seq<char> {
    preset_text(ts, params_of(ini))
}

pub open spec fn set_parameter_text(ini: Seq<char>, e: Seq<char>, k: Seq<char>, v: Seq<char>) -> Seq<
    char,
> {
    preset_text(techniques_of(ini), upsert_param(params_of(ini), e, k, v))
}

/// Override parameters flattened to `(effect, key, value)` in order.
pub open spec fn flat_params(ps: Seq<(Seq<char>, Seq<(Seq<char>, Seq<char>)>)>) -> Seq<
    (Seq<char>, Seq<char>, Seq<char>),
>
    decreases ps.len(),
{
    if ps.len() == 0 {
        seq![]
    } else {
        ps[0].1.map_values(|kv: (Seq<char>, Seq<char>)| (ps[0].0, kv.0, kv.1)) + flat_params(
            ps.drop_first(),
        )
    }
}

/// Setting each parameter in turn.
pub open spec fn fold_set_params(ini: Seq<char>, ps: Seq<(Seq<char>, Seq<char>, Seq<char>)>) -> Seq<
    char,
>
    decreases ps.len(),
{
    if ps.len() == 0 {
        ini
    } else {
        fold_set_params(set_parameter_text(ini, ps[0].0, ps[0].1, ps[0].2), ps.drop_first())
    }
}

pub open spec fn kv_views(kvs: Seq<(String, String)>) -> Seq<(Seq<char>, Seq<char>)> {
    kvs.map_values(|kv: (String, String)| (kv.0@, kv.1@))
}

pub open spec fn override_param_views(ps: Seq<(String, Vec<(String, String)>)>) -> Seq<
    (Seq<char>, Seq<(Seq<char>, Seq<char>)>),
> {
    ps.map_values(|p: (String, Vec<(String, String)>)| (p.0@, kv_views(p.1@)))
}

pub open spec fn opt_str_views(o: Option<Vec<String>>) -> Option<Seq<Seq<char>>> {
    match o {
        Some(v) => Some(str_views(v@)),
        None => None,
    }
}

/// A preset with overrides applied: techniques replaced (or kept), then each
/// override parameter set.
pub open spec fn apply_overrides_text(
    base: Seq<char>,
    techniques: Option<Seq<Seq<char>>>,
    params: Seq<(Seq<char>, Seq<(Seq<char>, Seq<char>)>)>,
) -> Seq<char> {
    let ts = match techniques {
        Some(t) => t,
        None => techniques_of(base),
    };
    fold_set_params(set_techniques_text(base, ts), flat_params(params))
}

// ---------------------------------------------------------------------------
// Specification of `set_ini_value`
// ---------------------------------------------------------------------------
/// Index of the line to replace: the first `key=` line (trimmed) inside the
/// named section, or -1.
pub open spec fn replace_index(
    ls: Seq<Seq<char>>,
    header: Seq<char>,
    prefix: Seq<char>,
    in_section: bool,
) -> int
    decreases ls.len(),
{
    if ls.len() == 0 {
        -1
    } else {
        let t = trim(ls[0]);
        let r = if is_section_line(t) {
            replace_index(ls.drop_first(), header, prefix, t == header)
        } else if in_section && has_prefix(t, prefix) {
            -2
        } else {
            replace_index(ls.drop_first(), header, prefix, in_section)
        };
        if r == -2 {
            0
        } else if r < 0 {
            -1
        } else {
            r + 1
        }
    }
}

/// Index of the first line whose trim is `header`, or -1.
pub open spec fn header_index(ls: Seq<Seq<char>>, header: Seq<char>) -> int
    decreases ls.len(),
{
    if ls.len() == 0 {
        -1
    } else if trim(ls[0]) == header {
        0
    } else {
        let r = header_index(ls.drop_first(), header);
        if r < 0 {
            -1
        } else {
            r + 1
        }
    }
}

/// Lines with `key=value` set in `[section]`: an existing key line is
/// replaced, else the line goes right after the section header, else the
/// header and the line are appended.
pub open spec fn set_ini_value_spec(
    ls: Seq<Seq<char>>,
    section: Seq<char>,
    key: Seq<char>,
    value: Seq<char>,
) -> Seq<Seq<char>> {
    let header = "["@ + section + "]"@;
    let kv = key + "="@ + value;
    let i = replace_index(ls, header, key + "="@, false);
    if i >= 0 {
        ls.update(i, kv)
    } else {
        let j = header_index(ls, header);
        if j >= 0 {
            ls.insert(j + 1, kv)
        } else {
            ls.push(header).push(kv)
        }
    }
}

pub open spec fn behavior_lines(
    ls: Seq<Seq<char>>,
    performance_mode: bool,
    key_overlay: Option<Seq<char>>,
    key_toggle: Option<Seq<char>>,
) -> Seq<Seq<char>> {
    let l1 = set_ini_value_spec(
        ls,
        "GENERAL"@,
        "PerformanceMode"@,
        if performance_mode {
            "1"@
        } else {
            "0"@
        },
    );
    let l2 = match key_overlay {
        Some(k) => set_ini_value_spec(l1, "INPUT"@, "KeyOverlay"@, k),
        None => l1,
    };
    match key_toggle {
        Some(k) => set_ini_value_spec(l2, "INPUT"@, "KeyEffects"@, k),
        None => l2,
    }
}

/// Lines joined with `\n`, with a final `\n` added when missing.
pub open spec fn with_final_newline(s: Seq<char>) -> Seq<char> {
    if s.len() > 0 && s.last() == '\n' {
        s
    } else {
        s.push('\n')
    }
}

pub open spec fn opt_string_view(o: Option<String>) -> Option<Seq<char>> {
    match o {
        Some(s) => Some(s@),
        None => None,
    }
}

// ---------------------------------------------------------------------------
// Validation specification
// ---------------------------------------------------------------------------
pub open spec fn techniques_error(ts: Seq<String>) -> Option<OverridesError> {
    if ts.len() > MAX_TECHNIQUES {
        Some(OverridesError::TooManyTechniques(ts.len() as usize))
    } else if exists|i: int| 0 <= i < ts.len() && !name_ok(#[trigger] ts[i]@) {
        Some(OverridesError::InvalidTechniqueName)
    } else {
        None
    }
}

/// The first refused key or value of one effect, in order.
pub open spec fn keys_error(effect: String, kvs: Seq<(String, String)>) -> Option<OverridesError>
    decreases kvs.len(),
{
    if kvs.len() == 0 {
        None
    } else if !name_ok(kvs[0].0@) {
        Some(OverridesError::InvalidParameterKey { effect })
    } else if byte_len(kvs[0].1@) > MAX_OVERRIDE_VALUE_LEN {
        Some(OverridesError::ValueTooLong { effect, key: kvs[0].0 })
    } else {
        keys_error(effect, kvs.drop_first())
    }
}

/// The first refused effect entry, in order.
pub open spec fn effects_error(ps: Seq<(String, Vec<(String, String)>)>) -> Option<OverridesError>
    decreases ps.len(),
{
    if ps.len() == 0 {
        None
    } else if !name_ok(ps[0].0@) {
        Some(OverridesError::InvalidEffectName)
    } else if ps[0].1.len() > MAX_KEYS_PER_EFFECT {
        Some(OverridesError::TooManyParameters { effect: ps[0].0, count: ps[0].1.len() })
    } else {
        match keys_error(ps[0].0, ps[0].1@) {
            Some(e) => Some(e),
            None => effects_error(ps.drop_first()),
        }
    }
}

/// The first name listed again (by its later entry), if any.
pub open spec fn first_dup_name<X>(ps: Seq<(String, X)>) -> Option<String>
    decreases ps.len(),
{
    if ps.len() == 0 {
        None
    } else {
        match first_dup_name(ps.drop_last()) {
            Some(n) => Some(n),
            None => if exists|i: int| 0 <= i < ps.len() - 1 && (#[trigger] ps[i]).0@ == ps.last().0@ {
                Some(ps.last().0)
            } else {
                None
            },
        }
    }
}

/// The first effect, in order, with a parameter listed twice.
pub open spec fn dup_keys_error(ps: Seq<(String, Vec<(String, String)>)>) -> Option<OverridesError>
    decreases ps.len(),
{
    if ps.len() == 0 {
        None
    } else {
        match first_dup_name(ps[0].1@) {
            Some(k) => Some(OverridesError::DuplicateParameter { effect: ps[0].0, key: k }),
            None => dup_keys_error(ps.drop_first()),
        }
    }
}

/// The error `validate_preset_overrides` reports, if any.
pub open spec fn overrides_error(o: PresetOverrides) -> Option<OverridesError> {
    let t = match o.techniques {
        Some(ts) => techniques_error(ts@),
        None => None,
    };
    if t is Some {
        t
    } else if o.parameters.len() > MAX_OVERRIDE_EFFECTS {
        Some(OverridesError::TooManyEffects(o.parameters.len()))
    } else if effects_error(o.parameters@) is Some {
        effects_error(o.parameters@)
    } else {
        match first_dup_name(o.parameters@) {
            Some(e) => Some(OverridesError::DuplicateEffect(e)),
            None => dup_keys_error(o.parameters@),
        }
    }
}

// ---------------------------------------------------------------------------
// Executable code
// ---------------------------------------------------------------------------
fn to_char_vecs(v: &Vec<String>) -> (r: Vec<Vec<char>>)
    ensures
        views(r@) == str_views(v@),
{
    let mut r: Vec<Vec<char>> = Vec::new();
    let mut i: usize = 0;
    while i < v.len()
        invariant
            i <= v.len(),
            views(r@) == str_views(v@).take(i as int),
        decreases v.len() - i,
    {
        let c = chars_of(v[i].as_str());
        let ghost old_r = r@;
        r.push(c);
        proof {
            crate::text::lemma_views_push(old_r, c);
            crate::text::lemma_take_next(str_views(v@), i as int);
        }
        i += 1;
    }
    assert(str_views(v@).take(v.len() as int) =~= str_views(v@));
    r
}

fn header_exec(techniques: &Vec<String>) -> (r: Vec<char>)
    ensures
        r@ == header_text(str_views(techniques@)),
{
    let mut out: Vec<char> = Vec::new();
    if techniques.len() == 0 {
        append_str(&mut out, "Techniques=\nTechniqueSorting=\n");
        assert(out@ =~= "Techniques=\nTechniqueSorting=\n"@);
        return out;
    }
    let parts = to_char_vecs(techniques);
    let comma = chars_of(",");
    let joined = join_vec(&parts, &comma);
    let mut sorting: Vec<Vec<char>> = Vec::new();
    let mut i: usize = 0;
    while i < parts.len()
        invariant
            i <= parts.len(),
            views(parts@) == str_views(techniques@),
            views(sorting@) == sorting_items(views(parts@)).take(i as int),
        decreases parts.len() - i,
    {
        let mut item = subvec(&parts[i], 0, parts[i].len());
        append_str(&mut item, "@");
        append_all(&mut item, &parts[i]);
        let ghost old_s = sorting@;
        assert(item@ == parts@[i as int]@ + "@"@ + parts@[i as int]@);
        assert(views(parts@)[i as int] == parts@[i as int]@);
        assert(sorting_items(views(parts@))[i as int] == item@);
        sorting.push(item);
        proof {
            crate::text::lemma_views_push(old_s, item);
            crate::text::lemma_take_next(sorting_items(views(parts@)), i as int);
            assert(views(parts@)[i as int] == parts@[i as int]@);
        }
        i += 1;
    }
    assert(sorting_items(views(parts@)).take(parts.len() as int) =~= sorting_items(
        views(parts@),
    ));
    let sorted = join_vec(&sorting, &comma);
    append_str(&mut out, "Techniques=");
    append_all(&mut out, &joined);
    append_str(&mut out, "\n");
    append_str(&mut out, "TechniqueSorting=");
    append_all(&mut out, &sorted);
    append_str(&mut out, "\n");
    assert(out@ =~= header_text(str_views(techniques@)));
    out
}

/// A preset INI from a technique list and parameters.
pub fn build_preset_ini(techniques: &Vec<String>, params: &Vec<PresetParameter>) -> (r: String)
    ensures
        r@ == preset_text(str_views(techniques@), param_views(params@)),
{
    let mut out = header_exec(techniques);
    let ghost h = out@;
    let mut cur: Option<Vec<char>> = None;
    let mut i: usize = 0;
    assert(param_views(params@).skip(0) =~= param_views(params@));
    while i < params.len()
        invariant
            i <= params.len(),
            h + params_text(param_views(params@), None) == out@ + params_text(
                param_views(params@).skip(i as int),
                crate::text::opt_view(cur),
            ),
        decreases params.len() - i,
    {
        let ghost rest = param_views(params@).skip(i as int);
        let ghost before = out@;
        let e = chars_of(params[i].effect.as_str());
        let same = match &cur {
            Some(c) => seq_eq(c, &e),
            None => false,
        };
        if !same {
            append_str(&mut out, "\n[");
            append_all(&mut out, &e);
            append_str(&mut out, ".fx]\n");
        }
        append_str(&mut out, params[i].key.as_str());
        append_str(&mut out, "=");
        append_str(&mut out, params[i].value.as_str());
        append_str(&mut out, "\n");
        proof {
            assert(rest[0] == params@[i as int]@);
            assert(rest.drop_first() =~= param_views(params@).skip(i + 1));
            let p = rest[0];
            let head = if crate::text::opt_view(cur) == Some(p.0) {
                Seq::<char>::empty()
            } else {
                "\n["@ + p.0 + ".fx]\n"@
            };
            assert(out@ =~= before + (head + p.1 + "="@ + p.2 + "\n"@));
        }
        cur = Some(e);
        i += 1;
    }
    assert(param_views(params@).skip(params.len() as int) =~= Seq::<
        (Seq<char>, Seq<char>, Seq<char>),
    >::empty());
    assert(out@ + Seq::<char>::empty() =~= out@);
    string_of(&out)
}

/// Replaces the technique list of a preset INI, keeping its parameters.
pub fn set_techniques_in_ini(ini: &str, techniques: &Vec<String>) -> (r: String)
    ensures
        r@ == set_techniques_text(ini@, str_views(techniques@)),
{
    let params = parse_parameters(ini);
    build_preset_ini(techniques, &params)
}

fn find_param(params: &Vec<PresetParameter>, e: &str, k: &str) -> (r: Option<usize>)
    ensures
        match r {
            Some(i) => i < params.len() && param_index(param_views(params@), e@, k@) == i,
            None => param_index(param_views(params@), e@, k@) == -1,
        },
{
    let mut i: usize = 0;
    assert(param_views(params@).skip(0) =~= param_views(params@));
    while i < params.len()
        invariant
            i <= params.len(),
            forall|j: int|
                0 <= j < i ==> !(param_views(params@)[j].0 == e@ && param_views(params@)[j].1
                    == k@),
        decreases params.len() - i,
    {
        if crate::text::str_eq(params[i].effect.as_str(), e) && crate::text::str_eq(
            params[i].key.as_str(),
            k,
        ) {
            proof {
                lemma_param_index_found(param_views(params@), e@, k@, i as int);
            }
            return Some(i);
        }
        i += 1;
    }
    proof {
        lemma_param_index_absent(param_views(params@), e@, k@);
    }
    None
}

proof fn lemma_param_index_found(
    ps: Seq<(Seq<char>, Seq<char>, Seq<char>)>,
    e: Seq<char>,
    k: Seq<char>,
    i: int,
)
    requires
        0 <= i < ps.len(),
        ps[i].0 == e && ps[i].1 == k,
        forall|j: int| 0 <= j < i ==> !(ps[j].0 == e && ps[j].1 == k),
    ensures
        param_index(ps, e, k) == i,
    decreases i,
{
    if i > 0 {
        lemma_param_index_found(ps.drop_first(), e, k, i - 1);
    }
}

proof fn lemma_param_index_absent(ps: Seq<(Seq<char>, Seq<char>, Seq<char>)>, e: Seq<char>, k: Seq<char>)
    requires
        forall|j: int| 0 <= j < ps.len() ==> !(ps[j].0 == e && ps[j].1 == k),
    ensures
        param_index(ps, e, k) == -1,
    decreases ps.len(),
{
    if ps.len() > 0 {
        lemma_param_index_absent(ps.drop_first(), e, k);
    }
}

fn param_of(e: &str, k: &str, v: &str) -> (r: PresetParameter)
    ensures
        r@ == (e@, k@, v@),
{
    PresetParameter {
        effect: crate::text::owned(e),
        key: crate::text::owned(k),
        value: crate::text::owned(v),
    }
}

/// Sets one effect parameter, keeping the techniques; the first existing
/// entry for `(effect, key)` is replaced, else a new one is appended.
pub fn set_parameter_in_ini(ini: &str, effect: &str, key: &str, value: &str) -> (r: String)
    ensures
        r@ == set_parameter_text(ini@, effect@, key@, value@),
{
    let techniques = parse_techniques(ini);
    let mut params = parse_parameters(ini);
    let ghost old_views = param_views(params@);
    match find_param(&params, effect, key) {
        Some(i) => {
            let p = param_of(effect, key, value);
            params.set(i, p);
            assert(param_views(params@) =~= old_views.update(i as int, (effect@, key@, value@)));
        },
        None => {
            let p = param_of(effect, key, value);
            params.push(p);
            assert(param_views(params@) =~= old_views.push((effect@, key@, value@)));
        },
    }
    build_preset_ini(&techniques, &params)
}

/// Applies per-game overrides to a preset INI.
pub fn apply_overrides_to_preset(base_ini: &str, overrides: &PresetOverrides) -> (r: String)
    ensures
        r@ == apply_overrides_text(
            base_ini@,
            opt_str_views(overrides.techniques),
            override_param_views(overrides.parameters@),
        ),
{
    let techniques = match &overrides.techniques {
        Some(t) => {
            let mut c: Vec<String> = Vec::new();
            let mut i: usize = 0;
            while i < t.len()
                invariant
                    i <= t.len(),
                    str_views(c@) == str_views(t@).take(i as int),
                decreases t.len() - i,
            {
                let s = t[i].clone();
                let ghost old_c = c@;
                c.push(s);
                proof {
                    crate::text::lemma_str_views_push(old_c, s);
                    crate::text::lemma_take_next(str_views(t@), i as int);
                }
                i += 1;
            }
            assert(str_views(t@).take(t.len() as int) =~= str_views(t@));
            c
        },
        None => parse_techniques(base_ini),
    };
    let mut ini = set_techniques_in_ini(base_ini, &techniques);
    let ghost all = flat_params(override_param_views(overrides.parameters@));
    let ghost target = apply_overrides_text(
        base_ini@,
        opt_str_views(overrides.techniques),
        override_param_views(overrides.parameters@),
    );
    let mut ei: usize = 0;
    assert(override_param_views(overrides.parameters@).skip(0) =~= override_param_views(
        overrides.parameters@,
    ));
    while ei < overrides.parameters.len()
        invariant
            ei <= overrides.parameters.len(),
            target == fold_set_params(
                ini@,
                flat_params(override_param_views(overrides.parameters@).skip(ei as int)),
            ),
        decreases overrides.parameters.len() - ei,
    {
        let effect = &overrides.parameters[ei].0;
        let keys = &overrides.parameters[ei].1;
        let ghost eview = override_param_views(overrides.parameters@).skip(ei as int);
        proof {
            assert(eview[0] == (effect@, kv_views(keys@)));
            assert(eview.drop_first() =~= override_param_views(overrides.parameters@).skip(
                ei + 1,
            ));
        }
        let ghost inner_all = kv_views(keys@).map_values(
            |kv: (Seq<char>, Seq<char>)| (effect@, kv.0, kv.1),
        );
        let ghost after = flat_params(
            override_param_views(overrides.parameters@).skip(ei + 1),
        );
        let mut ki: usize = 0;
        assert(inner_all.skip(0) =~= inner_all);
        while ki < keys.len()
            invariant
                ki <= keys.len(),
                inner_all.len() == keys.len(),
                forall|j: int|
                    0 <= j < keys.len() ==> #[trigger] inner_all[j] == (effect@, keys@[j].0@, keys@[j].1@),
                target == fold_set_params(ini@, inner_all.skip(ki as int) + after),
            decreases keys.len() - ki,
        {
            let ghost seq_now = inner_all.skip(ki as int) + after;
            proof {
                assert(seq_now[0] == inner_all[ki as int]);
                assert(seq_now.drop_first() =~= inner_all.skip(ki + 1) + after);
            }
            ini = set_parameter_in_ini(
                ini.as_str(),
                effect.as_str(),
                keys[ki].0.as_str(),
                keys[ki].1.as_str(),
            );
            ki += 1;
        }
        assert(inner_all.skip(keys.len() as int) + after =~= after);
        ei += 1;
    }
    assert(override_param_views(overrides.parameters@).skip(overrides.parameters.len() as int)
        =~= Seq::<(Seq<char>, Seq<(Seq<char>, Seq<char>)>)>::empty());
    ini
}

fn replace_index_exec(ls: &Vec<Vec<char>>, header: &Vec<char>, prefix: &Vec<char>) -> (r: Option<
    usize,
>)
    ensures
        match r {
            Some(i) => i < ls.len() && replace_index(views(ls@), header@, prefix@, false) == i,
            None => replace_index(views(ls@), header@, prefix@, false) < 0,
        },
{
    // walk backwards through the recursion: r(i) for suffix i
    let mut in_section = false;
    let mut i: usize = 0;
    assert(views(ls@).skip(0) =~= views(ls@));
    while i < ls.len()
        invariant
            i <= ls.len(),
            replace_index(views(ls@), header@, prefix@, false) == (if replace_index(
                views(ls@).skip(i as int),
                header@,
                prefix@,
                in_section,
            ) < 0 {
                -1
            } else {
                replace_index(views(ls@).skip(i as int), header@, prefix@, in_section) + i
            }),
        decreases ls.len() - i,
    {
        let t = trim_vec(&ls[i]);
        let ghost rest = views(ls@).skip(i as int);
        proof {
            assert(rest[0] == ls@[i as int]@);
            assert(rest.drop_first() =~= views(ls@).skip(i + 1));
            lemma_replace_index_range(rest.drop_first(), header@, prefix@, t@ == header@);
            lemma_replace_index_range(rest.drop_first(), header@, prefix@, in_section);
        }
        if t.len() > 0 && t[0] == '[' && t[t.len() - 1] == ']' {
            in_section = seq_eq(&t, header);
        } else if in_section && starts_with(&t, prefix) {
            return Some(i);
        }
        i += 1;
    }
    None
}

proof fn lemma_replace_index_range(ls: Seq<Seq<char>>, header: Seq<char>, prefix: Seq<char>, s: bool)
    ensures
        -1 <= replace_index(ls, header, prefix, s) < ls.len(),
    decreases ls.len(),
{
    if ls.len() > 0 {
        lemma_replace_index_range(ls.drop_first(), header, prefix, trim(ls[0]) == header);
        lemma_replace_index_range(ls.drop_first(), header, prefix, s);
    }
}

fn header_index_exec(ls: &Vec<Vec<char>>, header: &Vec<char>) -> (r: Option<usize>)
    ensures
        match r {
            Some(i) => i < ls.len() && header_index(views(ls@), header@) == i,
            None => header_index(views(ls@), header@) == -1,
        },
{
    let mut i: usize = 0;
    assert(views(ls@).skip(0) =~= views(ls@));
    while i < ls.len()
        invariant
            i <= ls.len(),
            header_index(views(ls@), header@) == (if header_index(
                views(ls@).skip(i as int),
                header@,
            ) < 0 {
                -1
            } else {
                header_index(views(ls@).skip(i as int), header@) + i
            }),
        decreases ls.len() - i,
    {
        let t = trim_vec(&ls[i]);
        let ghost rest = views(ls@).skip(i as int);
        assert(rest[0] == ls@[i as int]@);
        assert(rest.drop_first() =~= views(ls@).skip(i + 1));
        if seq_eq(&t, header) {
            return Some(i);
        }
        i += 1;
    }
    assert(views(ls@).skip(ls.len() as int) =~= Seq::<Seq<char>>::empty());
    None
}

/// Sets `key=value` in `[section]` of a line list (see `set_ini_value_spec`).
pub fn set_ini_value(lines: &mut Vec<Vec<char>>, section: &str, key: &str, value: &str)
    ensures
        views(final(lines)@) == set_ini_value_spec(views(old(lines)@), section@, key@, value@),
{
    let mut header: Vec<char> = Vec::new();
    append_str(&mut header, "[");
    append_str(&mut header, section);
    append_str(&mut header, "]");
    let mut prefix = chars_of(key);
    append_str(&mut prefix, "=");
    let mut kv = subvec(&prefix, 0, prefix.len());
    append_str(&mut kv, value);
    assert(header@ =~= "["@ + section@ + "]"@);
    assert(kv@ =~= key@ + "="@ + value@);
    let ghost ls0 = views(lines@);
    match replace_index_exec(lines, &header, &prefix) {
        Some(i) => {
            lines.set(i, kv);
            assert(views(lines@) =~= ls0.update(i as int, key@ + "="@ + value@));
        },
        None => {
            match header_index_exec(lines, &header) {
                Some(j) => {
                    lines.insert(j + 1, kv);
                    assert(views(lines@) =~= ls0.insert(j + 1, key@ + "="@ + value@));
                },
                None => {
                    lines.push(header);
                    lines.push(kv);
                    assert(views(lines@) =~= ls0.push("["@ + section@ + "]"@).push(
                        key@ + "="@ + value@,
                    ));
                },
            }
        },
    }
}

/// Writes the behavior settings into the `[GENERAL]` and `[INPUT]`
/// sections of the base INI.
pub fn apply_behavior_to_base(base_ini: &str, behavior: &ReShadeBehaviorSettings) -> (r: String)
    ensures
        r@ == with_final_newline(
            join(
                behavior_lines(
                    lines_of(base_ini@),
                    behavior.performance_mode,
                    opt_string_view(behavior.key_overlay),
                    opt_string_view(behavior.key_toggle_effects),
                ),
                "\n"@,
            ),
        ),
        (behavior.key_overlay matches Some(k) ==> !has_char(k@, '\n')) && (
        behavior.key_toggle_effects matches Some(k) ==> !has_char(k@, '\n')) ==> ini_value(
            r@,
            "GENERAL"@,
            "PerformanceMode"@,
        ) == Some(
            if behavior.performance_mode {
                "1"@
            } else {
                "0"@
            },
        ),
        (behavior.key_overlay matches Some(k) ==> !has_char(k@, '\n')) && (
        behavior.key_toggle_effects matches Some(k) ==> !has_char(k@, '\n')) ==> ((
        behavior.key_overlay matches Some(k) && (k@.len() == 0 || !crate::text::is_ws(k@.last())))
            ==> ini_value(r@, "INPUT"@, "KeyOverlay"@) == opt_string_view(behavior.key_overlay)),
        (behavior.key_overlay matches Some(k) ==> !has_char(k@, '\n')) && (
        behavior.key_toggle_effects matches Some(k) ==> !has_char(k@, '\n')) ==> ((
        behavior.key_toggle_effects matches Some(k) && (k@.len() == 0 || !crate::text::is_ws(
            k@.last(),
        ))) ==> ini_value(r@, "INPUT"@, "KeyEffects"@) == opt_string_view(
            behavior.key_toggle_effects,
        )),
{
    proof {
        let ko = opt_string_view(behavior.key_overlay);
        let kt = opt_string_view(behavior.key_toggle_effects);
        if (ko matches Some(k) ==> !has_char(k, '\n')) && (kt matches Some(k) ==> !has_char(k, '\n')) {
            behavior_sets_performance_mode(
                base_ini@,
                behavior.performance_mode,
                opt_string_view(behavior.key_overlay),
                opt_string_view(behavior.key_toggle_effects),
            );
            behavior_sets_key_bindings(
                base_ini@,
                behavior.performance_mode,
                opt_string_view(behavior.key_overlay),
                opt_string_view(behavior.key_toggle_effects),
            );
        }
    }
    let v = chars_of(base_ini);
    let mut lines = lines_vec(&v);
    if behavior.performance_mode {
        set_ini_value(&mut lines, "GENERAL", "PerformanceMode", "1");
    } else {
        set_ini_value(&mut lines, "GENERAL", "PerformanceMode", "0");
    }
    match &behavior.key_overlay {
        Some(k) => set_ini_value(&mut lines, "INPUT", "KeyOverlay", k.as_str()),
        None => {},
    }
    match &behavior.key_toggle_effects {
        Some(k) => set_ini_value(&mut lines, "INPUT", "KeyEffects", k.as_str()),
        None => {},
    }
    let nl = chars_of("\n");
    let mut out = join_vec(&lines, &nl);
    if !(out.len() > 0 && out[out.len() - 1] == '\n') {
        out.push('\n');
    }
    string_of(&out)
}

fn techniques_check(ts: &Vec<String>) -> (r: Option<OverridesError>)
    ensures
        r == techniques_error(ts@),
{
    if ts.len() > MAX_TECHNIQUES {
        return Some(OverridesError::TooManyTechniques(ts.len()));
    }
    let mut i: usize = 0;
    while i < ts.len()
        invariant
            i <= ts.len(),
            ts.len() <= MAX_TECHNIQUES,
            forall|j: int| 0 <= j < i ==> name_ok(#[trigger] ts@[j]@),
        decreases ts.len() - i,
    {
        let s = ts[i].as_str();
        if s.is_empty() || s.len() > MAX_OVERRIDE_KEY_LEN {
            assert(!name_ok(ts@[i as int]@));
            return Some(OverridesError::InvalidTechniqueName);
        }
        i += 1;
    }
    None
}

fn keys_check(effect: &String, kvs: &Vec<(String, String)>) -> (r: Option<OverridesError>)
    ensures
        r == keys_error(*effect, kvs@),
{
    let mut i: usize = 0;
    assert(kvs@.skip(0) =~= kvs@);
    while i < kvs.len()
        invariant
            i <= kvs.len(),
            keys_error(*effect, kvs@) == keys_error(*effect, kvs@.skip(i as int)),
        decreases kvs.len() - i,
    {
        let ghost rest = kvs@.skip(i as int);
        assert(rest[0] == kvs@[i as int]);
        assert(rest.drop_first() =~= kvs@.skip(i + 1));
        let k = kvs[i].0.as_str();
        let v = kvs[i].1.as_str();
        if k.is_empty() || k.len() > MAX_OVERRIDE_KEY_LEN {
            return Some(OverridesError::InvalidParameterKey { effect: effect.clone() });
        }
        if v.len() > MAX_OVERRIDE_VALUE_LEN {
            return Some(
                OverridesError::ValueTooLong { effect: effect.clone(), key: kvs[i].0.clone() },
            );
        }
        i += 1;
    }
    assert(kvs@.skip(kvs.len() as int) =~= Seq::<(String, String)>::empty());
    None
}

/// Bounds on an override payload; the first violation found is reported.
pub fn validate_preset_overrides(overrides: &PresetOverrides) -> (r: Result<(), OverridesError>)
    ensures
        r is Ok <==> overrides_error(*overrides) is None,
        r matches Err(e) ==> overrides_error(*overrides) == Some(e),
{
    match &overrides.techniques {
        Some(ts) => {
            match techniques_check(ts) {
                Some(e) => {
                    return Err(e);
                },
                None => {},
            }
        },
        None => {},
    }
    if overrides.parameters.len() > MAX_OVERRIDE_EFFECTS {
        return Err(OverridesError::TooManyEffects(overrides.parameters.len()));
    }
    let ps = &overrides.parameters;
    let mut i: usize = 0;
    assert(ps@.skip(0) =~= ps@);
    while i < ps.len()
        invariant
            i <= ps.len(),
            ps == &overrides.parameters,
            effects_error(ps@) == effects_error(ps@.skip(i as int)),
            overrides_error(*overrides) == (if effects_error(ps@) is Some {
                effects_error(ps@)
            } else {
                match first_dup_name(ps@) {
                    Some(e) => Some(OverridesError::DuplicateEffect(e)),
                    None => dup_keys_error(ps@),
                }
            }),
        decreases ps.len() - i,
    {
        let ghost rest = ps@.skip(i as int);
        assert(rest[0] == ps@[i as int]);
        assert(rest.drop_first() =~= ps@.skip(i + 1));
        let effect = &ps[i].0;
        let keys = &ps[i].1;
        let es = effect.as_str();
        if es.is_empty() || es.len() > MAX_OVERRIDE_KEY_LEN {
            return Err(OverridesError::InvalidEffectName);
        }
        if keys.len() > MAX_KEYS_PER_EFFECT {
            return Err(
                OverridesError::TooManyParameters { effect: effect.clone(), count: keys.len() },
            );
        }
        match keys_check(effect, keys) {
            Some(e) => {
                return Err(e);
            },
            None => {},
        }
        i += 1;
    }
    assert(ps@.skip(ps.len() as int) =~= Seq::<(String, Vec<(String, String)>)>::empty());
    match find_dup_name(ps) {
        Some(e) => {
            return Err(OverridesError::DuplicateEffect(e));
        },
        None => {},
    }
    let mut j: usize = 0;
    assert(ps@.skip(0) =~= ps@);
    while j < ps.len()
        invariant
            j <= ps.len(),
            ps == &overrides.parameters,
            overrides_error(*overrides) == dup_keys_error(ps@),
            dup_keys_error(ps@) == dup_keys_error(ps@.skip(j as int)),
        decreases ps.len() - j,
    {
        let ghost rest = ps@.skip(j as int);
        assert(rest[0] == ps@[j as int]);
        assert(rest.drop_first() =~= ps@.skip(j + 1));
        match find_dup_name(&ps[j].1) {
            Some(k) => {
                return Err(OverridesError::DuplicateParameter { effect: ps[j].0.clone(), key: k });
            },
            None => {},
        }
        j += 1;
    }
    assert(ps@.skip(j as int) =~= Seq::<(String, Vec<(String, String)>)>::empty());
    Ok(())
}

/// The first name listed again (see `first_dup_name`).
fn find_dup_name<X>(ps: &Vec<(String, X)>) -> (r: Option<String>)
    ensures
        r == first_dup_name(ps@),
{
    let mut j: usize = 0;
    assert(ps@.take(0) =~= Seq::<(String, X)>::empty());
    while j < ps.len()
        invariant
            j <= ps.len(),
            first_dup_name(ps@.take(j as int)) is None,
        decreases ps.len() - j,
    {
        let ghost t1 = ps@.take(j + 1);
        let mut i: usize = 0;
        while i < j
            invariant
                i <= j < ps.len(),
                t1 == ps@.take(j + 1),
                first_dup_name(ps@.take(j as int)) is None,
                forall|k: int| 0 <= k < i ==> (#[trigger] ps@[k]).0@ != ps@[j as int].0@,
            decreases j - i,
        {
            if crate::text::str_eq(ps[i].0.as_str(), ps[j].0.as_str()) {
                let n = ps[j].0.clone();
                proof {
                    assert(t1.drop_last() =~= ps@.take(j as int));
                    assert(t1[i as int] == ps@[i as int]);
                    assert(t1.last() == ps@[j as int]);
                    assert(first_dup_name(t1) == Some(n));
                    lemma_dup_prefix(ps@, j + 1);
                }
                return Some(n);
            }
            i += 1;
        }
        proof {
            assert(t1.drop_last() =~= ps@.take(j as int));
            assert forall|k: int| 0 <= k < t1.len() - 1 implies (#[trigger] t1[k]).0@ != t1.last().0@ by {
                assert(t1[k] == ps@[k]);
            }
        }
        j += 1;
    }
    assert(ps@.take(j as int) =~= ps@);
    None
}

proof fn lemma_dup_prefix<X>(ps: Seq<(String, X)>, k: int)
    requires
        0 <= k <= ps.len(),
        first_dup_name(ps.take(k)) is Some,
    ensures
        first_dup_name(ps) == first_dup_name(ps.take(k)),
    decreases ps.len() - k,
{
    if k == ps.len() {
        assert(ps.take(k) =~= ps);
    } else {
        assert(ps.drop_last().take(k) =~= ps.take(k));
        lemma_dup_prefix(ps.drop_last(), k);
    }
}


// ---------------------------------------------------------------------------
// Reading back a written preset
// ---------------------------------------------------------------------------
/// A technique that a `Techniques=` line can carry: not empty, its own trim,
/// without `,` or a line break.
pub open spec fn clean_technique(t: Seq<char>) -> bool {
    t.len() > 0 && trim(t) == t && !has_char(t, ',') && !has_char(t, '\n')
}

/// A parameter that a preset can carry: no part holds a line break; the
/// effect does not start with `[` or `]` nor end with `.fx`; key and value
/// are their own trim, the key holds no `=` and does not start a comment,
/// and the `key=value` line does not read as a section header.
pub open spec fn clean_param(p: (Seq<char>, Seq<char>, Seq<char>)) -> bool {
    let (e, k, v) = p;
    let line = k + "="@ + v;
    &&& !has_char(e, '\n')
    &&& !has_char(k, '\n')
    &&& !has_char(v, '\n')
    &&& !(e.len() > 0 && (e[0] == '[' || e[0] == ']'))
    &&& !has_suffix(e, ".fx"@)
    &&& trim(k) == k
    &&& trim(v) == v
    &&& !has_char(k, '=')
    &&& !(k.len() > 0 && k[0] == ';')
    &&& !(line[0] == '[' && line.last() == ']')
}

/// The lines of the parameter part of a written preset.
pub open spec fn param_lines(ps: Seq<(Seq<char>, Seq<char>, Seq<char>)>, cur: Option<Seq<char>>) -> Seq<
    Seq<char>,
>
    decreases ps.len(),
{
    if ps.len() == 0 {
        seq![]
    } else {
        let p = ps[0];
        let head = if cur == Some(p.0) {
            Seq::<Seq<char>>::empty()
        } else {
            seq![Seq::<char>::empty(), "["@ + p.0 + ".fx]"@]
        };
        head + seq![p.1 + "="@ + p.2] + param_lines(ps.drop_first(), Some(p.0))
    }
}

proof fn lemma_no_nl_concat(a: Seq<char>, b: Seq<char>)
    requires
        !has_char(a, '\n'),
        !has_char(b, '\n'),
    ensures
        !has_char(a + b, '\n'),
{
    if has_char(a + b, '\n') {
        let k = choose|k: int| 0 <= k < (a + b).len() && (a + b)[k] == '\n';
        if k < a.len() {
            assert(a[k] == '\n');
        } else {
            assert(b[k - a.len()] == '\n');
        }
    }
}

proof fn lemma_literals()
    ensures
        "="@ =~= seq!['='],
        ".fx"@ =~= seq!['.', 'f', 'x'],
        "["@ =~= seq!['['],
        ".fx]"@ =~= seq!['.', 'f', 'x', ']'],
        "\n"@ =~= seq!['\n'],
        "\n["@ =~= seq!['\n', '['],
        ".fx]\n"@ =~= seq!['.', 'f', 'x', ']', '\n'],
{
    reveal_strlit("=");
    reveal_strlit(".fx");
    reveal_strlit("[");
    reveal_strlit(".fx]");
    reveal_strlit("\n");
    reveal_strlit("\n[");
    reveal_strlit(".fx]\n");
}

proof fn lemma_no_nl_lit(s: Seq<char>)
    requires
        forall|i: int| 0 <= i < s.len() ==> s[i] != '\n',
    ensures
        !has_char(s, '\n'),
{
}

/// A clean parameter's `key=value` line, then anything.
proof fn lemma_kv_lines(p: (Seq<char>, Seq<char>, Seq<char>), tail: Seq<char>)
    requires
        clean_param(p),
    ensures
        lines_of(p.1 + "="@ + p.2 + "\n"@ + tail) == seq![p.1 + "="@ + p.2] + lines_of(tail),
{
    lemma_literals();
    let kv = p.1 + "="@ + p.2;
    lemma_no_nl_lit("="@);
    lemma_no_nl_concat(p.1, "="@);
    lemma_no_nl_concat(p.1 + "="@, p.2);
    crate::text::lemma_lines_of_line(kv);
    if p.2.len() > 0 {
        crate::text::lemma_trimmed_ends(p.2);
        assert(kv.last() == p.2.last());
    }
    assert(crate::text::strip_cr(kv) == kv);
    let kvn = kv + seq!['\n'];
    crate::text::lemma_lines_of_concat(kvn, tail);
    assert(p.1 + "="@ + p.2 + "\n"@ + tail =~= kvn + tail);
}

/// A section header preceded by an empty line, then anything.
proof fn lemma_head_lines(e: Seq<char>, x: Seq<char>)
    requires
        !has_char(e, '\n'),
    ensures
        lines_of("\n["@ + e + ".fx]\n"@ + x) == seq![Seq::<char>::empty(), "["@ + e + ".fx]"@]
            + lines_of(x),
{
    lemma_literals();
    let hl = "["@ + e + ".fx]"@;
    lemma_no_nl_lit("["@);
    lemma_no_nl_lit(".fx]"@);
    lemma_no_nl_concat("["@, e);
    lemma_no_nl_concat("["@ + e, ".fx]"@);
    crate::text::lemma_lines_of_line(hl);
    assert(hl.last() == ']');
    assert(crate::text::strip_cr(hl) == hl);
    let z = Seq::<char>::empty();
    crate::text::lemma_lines_of_line(z);
    assert(z + seq!['\n'] =~= seq!['\n']);
    assert(crate::text::strip_cr(z) =~= z);
    crate::text::lemma_lines_of_concat(hl + seq!['\n'], x);
    crate::text::lemma_lines_of_concat(seq!['\n'], (hl + seq!['\n']) + x);
    assert("\n["@ + e + ".fx]\n"@ + x =~= seq!['\n'] + ((hl + seq!['\n']) + x));
}

proof fn lemma_params_text_lines(ps: Seq<(Seq<char>, Seq<char>, Seq<char>)>, cur: Option<Seq<char>>)
    requires
        forall|i: int| 0 <= i < ps.len() ==> clean_param(#[trigger] ps[i]),
    ensures
        lines_of(params_text(ps, cur)) == param_lines(ps, cur),
    decreases ps.len(),
{
    if ps.len() == 0 {
        assert(lines_of(Seq::<char>::empty()) =~= Seq::<Seq<char>>::empty());
    } else {
        let p = ps[0];
        assert(clean_param(p));
        let rest = ps.drop_first();
        assert forall|i: int| 0 <= i < rest.len() implies clean_param(#[trigger] rest[i]) by {
            assert(rest[i] == ps[i + 1]);
        }
        lemma_params_text_lines(rest, Some(p.0));
        let tail = params_text(rest, Some(p.0));
        let body = p.1 + "="@ + p.2 + "\n"@ + tail;
        lemma_kv_lines(p, tail);
        if cur == Some(p.0) {
            assert(params_text(ps, cur) =~= body);
        } else {
            lemma_head_lines(p.0, body);
            assert(params_text(ps, cur) =~= "\n["@ + p.0 + ".fx]\n"@ + body);
        }
        assert(lines_of(params_text(ps, cur)) =~= param_lines(ps, cur));
    }
}

/// A clean `key=value` line reads as that key and value.
proof fn lemma_kv_line(p: (Seq<char>, Seq<char>, Seq<char>))
    requires
        clean_param(p),
    ensures
        ({
            let t = trim(p.1 + "="@ + p.2);
            &&& t == p.1 + "="@ + p.2
            &&& !crate::reshade::presets::is_skipped(t)
            &&& !is_section_line(t)
            &&& split_once_of(t, '=') == Some((p.1, p.2))
        }),
{
    lemma_literals();
    let (e, k, v) = p;
    let l = k + "="@ + v;
    assert(l[k.len() as int] == '=');
    if k.len() > 0 {
        crate::text::lemma_trimmed_ends(k);
        assert(l[0] == k[0]);
    }
    if v.len() > 0 {
        crate::text::lemma_trimmed_ends(v);
        assert(l.last() == v.last());
    }
    crate::text::lemma_trim_id(l);
    assert forall|j: int| 0 <= j < k.len() implies l[j] != '=' by {
        assert(l[j] == k[j]);
        if k[j] == '=' {
            assert(has_char(k, '='));
        }
    }
    crate::text::lemma_idx_of_found(l, '=', k.len() as int);
    assert(l.take(k.len() as int) =~= k);
    assert(l.skip(k.len() as int + 1) =~= v);
}

/// The header `[e.fx]` opens the section `e.fx`.
proof fn lemma_header_line(e: Seq<char>)
    requires
        !(e.len() > 0 && (e[0] == '[' || e[0] == ']')),
        !has_suffix(e, ".fx"@),
    ensures
        ({
            let h = "["@ + e + ".fx]"@;
            &&& trim(h) == h
            &&& !crate::reshade::presets::is_skipped(h)
            &&& is_section_line(h)
            &&& crate::reshade::presets::section_name(h) == e + ".fx"@
            &&& has_suffix(e + ".fx"@, ".fx"@)
            &&& crate::text::trim_end_matches(e + ".fx"@, ".fx"@) == e
        }),
{
    lemma_literals();
    let h = "["@ + e + ".fx]"@;
    let n = h.len();
    let ef = e + ".fx"@;
    assert(h =~= seq!['['] + ef + seq![']']);
    assert(h[0] == '[');
    assert(h[n - 1] == ']');
    assert(h[n - 2] == 'x');
    assert(h[1] == if e.len() > 0 { e[0] } else { '.' });
    crate::text::lemma_trim_id(h);
    assert(!crate::reshade::presets::is_skipped(h));
    assert(is_section_line(h));
    // Leading brackets: exactly one.
    let d = h.drop_first();
    assert(d[0] == h[1]);
    assert(crate::text::lead_in2(d, '[', ']') == 0);
    assert(crate::text::lead_in2(h, '[', ']') == 1 + crate::text::lead_in2(d, '[', ']'));
    let t = h.skip(1);
    assert(t =~= ef + seq![']']);
    // Trailing brackets: exactly one.
    let tl = t.drop_last();
    assert(tl =~= ef);
    assert(tl.last() == 'x');
    assert(crate::text::trail_in2(tl, '[', ']') == 0);
    assert(t.last() == ']');
    assert(crate::text::trail_in2(t, '[', ']') == 1 + crate::text::trail_in2(tl, '[', ']'));
    assert(t.take(t.len() - 1) =~= ef);
    assert(crate::reshade::presets::section_name(h) == ef);
    // Stripping `.fx` once leaves `e`, which does not end with `.fx`.
    assert(ef.skip(ef.len() - 3) =~= ".fx"@);
    assert(has_suffix(ef, ".fx"@));
    assert(ef.take(ef.len() - 3) =~= e);
    assert(crate::text::trim_end_matches(e, ".fx"@) == e);
    assert(crate::text::trim_end_matches(ef, ".fx"@) == crate::text::trim_end_matches(e, ".fx"@));
}

proof fn lemma_parse_param_lines(
    ps: Seq<(Seq<char>, Seq<char>, Seq<char>)>,
    cur: Option<Seq<char>>,
    sec: Option<Seq<char>>,
)
    requires
        forall|i: int| 0 <= i < ps.len() ==> clean_param(#[trigger] ps[i]),
        sec == match cur {
            Some(e) => Some(e + ".fx"@),
            None => None::<Seq<char>>,
        },
        cur matches Some(e) ==> !has_suffix(e, ".fx"@),
    ensures
        crate::reshade::presets::params_of_lines(param_lines(ps, cur), sec) == ps,
    decreases ps.len(),
{
    lemma_literals();
    if ps.len() == 0 {
        assert(param_lines(ps, cur) =~= Seq::<Seq<char>>::empty());
        assert(ps =~= Seq::<(Seq<char>, Seq<char>, Seq<char>)>::empty());
    } else {
        let p = ps[0];
        assert(clean_param(p));
        let rest = ps.drop_first();
        assert forall|i: int| 0 <= i < rest.len() implies clean_param(#[trigger] rest[i]) by {
            assert(rest[i] == ps[i + 1]);
        }
        let sec2 = Some(p.0 + ".fx"@);
        lemma_parse_param_lines(rest, Some(p.0), sec2);
        lemma_kv_line(p);
        lemma_header_line(p.0);
        let kv = p.1 + "="@ + p.2;
        let tail = param_lines(rest, Some(p.0));
        let from_kv = seq![kv] + tail;
        // The key line, read in section `e.fx`, gives the parameter.
        assert(from_kv[0] == kv);
        assert(from_kv.drop_first() =~= tail);
        assert(crate::reshade::presets::params_of_lines(from_kv, sec2) =~= seq![p] + rest);
        if cur == Some(p.0) {
            assert(param_lines(ps, cur) =~= from_kv);
        } else {
            let h = "["@ + p.0 + ".fx]"@;
            let ls = param_lines(ps, cur);
            assert(ls =~= seq![Seq::<char>::empty(), h] + from_kv);
            let e = Seq::<char>::empty();
            crate::text::lemma_trim_ends(e);
            assert(ls[0] == e);
            assert(ls.drop_first() =~= seq![h] + from_kv);
            assert((seq![h] + from_kv)[0] == h);
            assert((seq![h] + from_kv).drop_first() =~= from_kv);
            assert(crate::reshade::presets::params_of_lines(seq![h] + from_kv, sec) == crate::reshade::presets::params_of_lines(
                from_kv,
                sec2,
            ));
        }
        assert(seq![p] + rest =~= ps);
    }
}

proof fn lemma_nonempty_trims(ts: Seq<Seq<char>>)
    requires
        forall|i: int| 0 <= i < ts.len() ==> (#[trigger] ts[i]).len() > 0 && trim(ts[i]) == ts[i],
    ensures
        crate::reshade::presets::nonempty_trims(ts) == ts,
    decreases ts.len(),
{
    if ts.len() > 0 {
        let rest = ts.drop_first();
        assert forall|i: int| 0 <= i < rest.len() implies (#[trigger] rest[i]).len() > 0 && trim(rest[i])
            == rest[i] by {
            assert(rest[i] == ts[i + 1]);
        }
        lemma_nonempty_trims(rest);
        assert(seq![ts[0]] + rest =~= ts);
    }
}

/// Law: a preset written from clean techniques and parameters reads back as
/// the same techniques and the same parameters, in order.
pub proof fn written_preset_reads_back(ts: Seq<Seq<char>>, ps: Seq<(Seq<char>, Seq<char>, Seq<char>)>)
    requires
        forall|i: int| 0 <= i < ts.len() ==> clean_technique(#[trigger] ts[i]),
        forall|i: int| 0 <= i < ps.len() ==> clean_param(#[trigger] ps[i]),
    ensures
        techniques_of(preset_text(ts, ps)) == ts,
        params_of(preset_text(ts, ps)) == ps,
{
    reveal_strlit("Techniques=");
    reveal_strlit("TechniqueSorting=");
    reveal_strlit(",");
    reveal_strlit("@");
    reveal_strlit("\n");
    reveal_strlit("Techniques=\nTechniqueSorting=\n");
    lemma_literals();
    let h1 = "Techniques="@ + join(ts, ","@);
    let h2 = "TechniqueSorting="@ + join(sorting_items(ts), ","@);
    assert(","@ =~= seq![',']);
    // No header line holds a line break.
    assert forall|i: int| 0 <= i < ts.len() implies !has_char(#[trigger] ts[i], '\n') by {
        assert(clean_technique(ts[i]));
    }
    lemma_no_nl_lit(","@);
    crate::text::lemma_join_has_char(ts, ","@, '\n');
    let si = sorting_items(ts);
    assert forall|i: int| 0 <= i < si.len() implies !has_char(#[trigger] si[i], '\n') by {
        assert(si[i] == ts[i] + "@"@ + ts[i]);
        assert(clean_technique(ts[i]));
        lemma_no_nl_lit("@"@);
        lemma_no_nl_concat(ts[i], "@"@);
        lemma_no_nl_concat(ts[i] + "@"@, ts[i]);
    }
    crate::text::lemma_join_has_char(si, ","@, '\n');
    lemma_no_nl_lit("Techniques="@);
    lemma_no_nl_lit("TechniqueSorting="@);
    lemma_no_nl_concat("Techniques="@, join(ts, ","@));
    lemma_no_nl_concat("TechniqueSorting="@, join(si, ","@));
    if ts.len() == 0 {
        assert(join(ts, ","@) =~= Seq::<char>::empty());
        assert(join(si, ","@) =~= Seq::<char>::empty());
        assert(header_text(ts) =~= h1 + seq!['\n'] + (h2 + seq!['\n']));
    } else {
        assert(header_text(ts) =~= h1 + seq!['\n'] + (h2 + seq!['\n']));
    }
    // The last characters of the header lines are not `\r`.
    if ts.len() > 0 {
        let jt = join(ts, ","@);
        crate::text::lemma_trimmed_ends(ts[ts.len() - 1]);
        lemma_join_last(ts, ","@);
        assert(h1.last() == jt.last());
        let js = join(si, ","@);
        lemma_join_last(si, ","@);
        assert(si[si.len() - 1] == ts[ts.len() - 1] + "@"@ + ts[ts.len() - 1]);
        assert(h2.last() == js.last());
    }
    assert(crate::text::strip_cr(h1) == h1);
    assert(crate::text::strip_cr(h2) == h2);
    crate::text::lemma_lines_of_line(h1);
    crate::text::lemma_lines_of_line(h2);
    crate::text::lemma_lines_of_concat(h1 + seq!['\n'], h2 + seq!['\n']);
    let pt = params_text(ps, None);
    let text = preset_text(ts, ps);
    assert(text =~= (h1 + seq!['\n']) + ((h2 + seq!['\n']) + pt));
    crate::text::lemma_lines_of_concat(h2 + seq!['\n'], pt);
    crate::text::lemma_lines_of_concat(h1 + seq!['\n'], (h2 + seq!['\n']) + pt);
    lemma_params_text_lines(ps, None);
    let ls = lines_of(text);
    assert(ls =~= seq![h1, h2] + param_lines(ps, None));
    // Techniques: the first line decides.
    crate::text::lemma_trim_id(h1);
    assert(h1[0] == 'T');
    assert(has_prefix(h1, "Techniques="@)) by {
        assert(h1.take(11) =~= "Techniques="@);
    }
    assert(h1.skip(11) =~= join(ts, ","@));
    if ts.len() == 0 {
        let e = Seq::<char>::empty();
        crate::text::lemma_idx_of_absent(e, ',');
        assert(crate::text::split_of(e, ',') =~= seq![e]);
        crate::text::lemma_trim_ends(e);
        let z = Seq::<Seq<char>>::empty();
        assert(crate::reshade::presets::nonempty_trims(z) =~= z);
        assert(seq![e].drop_first() =~= z);
        assert(trim(seq![e][0]).len() == 0);
        assert(crate::reshade::presets::nonempty_trims(seq![e]) =~= z);
    } else {
        assert forall|i: int| 0 <= i < ts.len() implies !has_char(#[trigger] ts[i], ',') by {
            assert(clean_technique(ts[i]));
        }
        crate::text::lemma_split_of_join(ts, ',');
        assert forall|i: int| 0 <= i < ts.len() implies (#[trigger] ts[i]).len() > 0 && trim(ts[i]) == ts[i] by {
            assert(clean_technique(ts[i]));
        }
        lemma_nonempty_trims(ts);
    }
    assert(ls[0] == h1);
    // Parameters: the header lines lie outside any section.
    crate::text::lemma_trim_id(h2);
    assert(h2[0] == 'T');
    assert(ls.drop_first() =~= seq![h2] + param_lines(ps, None));
    assert((seq![h2] + param_lines(ps, None))[0] == h2);
    assert((seq![h2] + param_lines(ps, None)).drop_first() =~= param_lines(ps, None));
    lemma_parse_param_lines(ps, None, None);
    let pl = param_lines(ps, None);
    assert(!is_section_line(h1));
    assert(!is_section_line(h2));
    assert(crate::reshade::presets::params_of_lines(seq![h2] + pl, None)
        == crate::reshade::presets::params_of_lines(pl, None));
    assert(crate::reshade::presets::params_of_lines(ls, None)
        == crate::reshade::presets::params_of_lines(seq![h2] + pl, None));
}

proof fn lemma_join_last(parts: Seq<Seq<char>>, sep: Seq<char>)
    requires
        parts.len() > 0,
        parts[parts.len() - 1].len() > 0,
    ensures
        join(parts, sep).len() > 0,
        join(parts, sep).last() == parts[parts.len() - 1].last(),
    decreases parts.len(),
{
    if parts.len() > 1 {
        let rest = parts.drop_first();
        assert(rest[rest.len() - 1] == parts[parts.len() - 1]);
        lemma_join_last(rest, sep);
        assert(join(parts, sep) =~= parts[0] + sep + join(rest, sep));
    }
}


// ---------------------------------------------------------------------------
// What a preset reads as is clean
// ---------------------------------------------------------------------------
proof fn lemma_nonempty_trims_clean(parts: Seq<Seq<char>>)
    requires
        forall|i: int|
            0 <= i < parts.len() ==> !has_char(#[trigger] parts[i], ',') && !has_char(parts[i], '\n'),
    ensures
        forall|i: int|
            0 <= i < crate::reshade::presets::nonempty_trims(parts).len() ==> clean_technique(
                #[trigger] crate::reshade::presets::nonempty_trims(parts)[i],
            ),
    decreases parts.len(),
{
    if parts.len() > 0 {
        let rest = parts.drop_first();
        assert forall|i: int| 0 <= i < rest.len() implies !has_char(#[trigger] rest[i], ',')
            && !has_char(rest[i], '\n') by {
            assert(rest[i] == parts[i + 1]);
        }
        lemma_nonempty_trims_clean(rest);
        let t = trim(parts[0]);
        assert(!has_char(parts[0], ',') && !has_char(parts[0], '\n'));
        crate::text::lemma_trim_no_char(parts[0], ',');
        crate::text::lemma_trim_no_char(parts[0], '\n');
        crate::text::lemma_trim_idem(parts[0]);
        let r = crate::reshade::presets::nonempty_trims(parts);
        let rr = crate::reshade::presets::nonempty_trims(rest);
        if t.len() > 0 {
            assert(r =~= seq![t] + rr);
            assert forall|i: int| 0 <= i < r.len() implies clean_technique(#[trigger] r[i]) by {
                if i > 0 {
                    assert(r[i] == rr[i - 1]);
                }
            }
        }
    }
}

proof fn lemma_techniques_clean(ls: Seq<Seq<char>>)
    requires
        forall|i: int| 0 <= i < ls.len() ==> !has_char(#[trigger] ls[i], '\n'),
    ensures
        forall|i: int|
            0 <= i < crate::reshade::presets::techniques_of_lines(ls).len() ==> clean_technique(
                #[trigger] crate::reshade::presets::techniques_of_lines(ls)[i],
            ),
    decreases ls.len(),
{
    if ls.len() > 0 {
        let t = trim(ls[0]);
        assert(!has_char(ls[0], '\n'));
        crate::text::lemma_trim_no_char(ls[0], '\n');
        reveal_strlit("Techniques=");
        if !crate::reshade::presets::is_skipped(t) && has_prefix(t, "Techniques="@) {
            let rest = t.skip(11);
            crate::text::lemma_sub_no_char(t, '\n', 11, t.len() as int);
            crate::text::lemma_split_no_char(rest, ',', '\n');
            lemma_nonempty_trims_clean(crate::text::split_of(rest, ','));
            assert("Techniques="@.len() == 11);
            assert(crate::reshade::presets::techniques_of_lines(ls)
                == crate::reshade::presets::nonempty_trims(crate::text::split_of(rest, ',')));
        } else {
            let tail = ls.drop_first();
            assert forall|i: int| 0 <= i < tail.len() implies !has_char(#[trigger] tail[i], '\n') by {
                assert(tail[i] == ls[i + 1]);
            }
            lemma_techniques_clean(tail);
            assert(crate::reshade::presets::techniques_of_lines(ls)
                == crate::reshade::presets::techniques_of_lines(tail));
        }
    }
}

/// A current section that parameters can be read under: no line break, not
/// starting with a bracket.
spec fn section_ok(sec: Option<Seq<char>>) -> bool {
    match sec {
        Some(e) => !has_char(e, '\n') && !(e.len() > 0 && (e[0] == '[' || e[0] == ']')),
        None => true,
    }
}

/// A `key=value` line read under an `.fx` section gives a clean parameter.
proof fn lemma_read_param_clean(l: Seq<char>, e: Seq<char>)
    requires
        !has_char(l, '\n'),
        section_ok(Some(e)),
        !crate::reshade::presets::is_skipped(trim(l)),
        !is_section_line(trim(l)),
        split_once_of(trim(l), '=') is Some,
    ensures
        ({
            let (k0, v0) = split_once_of(trim(l), '=').unwrap();
            clean_param((crate::text::trim_end_matches(e, ".fx"@), trim(k0), trim(v0)))
        }),
{
    reveal_strlit(".fx");
    reveal_strlit("=");
    let t = trim(l);
    crate::text::lemma_trim_no_char(l, '\n');
    crate::text::lemma_trim_idem(l);
    crate::text::lemma_trimmed_ends(t);
    crate::text::lemma_idx_of_bounds(t, '=');
    let i = idx_of_eq(t);
    let k0 = t.take(i);
    let v0 = t.skip(i + 1);
    assert(split_once_of(t, '=') == Some((k0, v0)));
    crate::text::lemma_sub_no_char(t, '\n', 0, i);
    crate::text::lemma_sub_no_char(t, '\n', i + 1, t.len() as int);
    assert(!has_char(k0, '=')) by {
        if has_char(k0, '=') {
            let j = choose|j: int| 0 <= j < k0.len() && k0[j] == '=';
            assert(t[j] == '=');
        }
    }
    // The effect: `e` without its `.fx` endings.
    let ef = crate::text::trim_end_matches(e, ".fx"@);
    crate::text::lemma_trim_end_matches(e, ".fx"@);
    crate::text::lemma_sub_no_char(e, '\n', 0, ef.len() as int);
    if ef.len() > 0 {
        assert(ef[0] == e[0]);
    }
    // Key and value are trimmed pieces of the line.
    let k = trim(k0);
    let v = trim(v0);
    crate::text::lemma_trim_no_char(k0, '\n');
    crate::text::lemma_trim_no_char(k0, '=');
    crate::text::lemma_trim_no_char(v0, '\n');
    crate::text::lemma_trim_idem(k0);
    crate::text::lemma_trim_idem(v0);
    crate::text::lemma_trim_ends(k0);
    crate::text::lemma_trim_ends(v0);
    if k.len() > 0 {
        assert(k0[0] == t[0]);
        crate::text::lemma_lead_ws(k0, 0);
        assert(k[0] == k0[0]);
    }
    if v.len() > 0 {
        assert(v0.last() == t.last());
        crate::text::lemma_lead_bound(v0);
        let st = crate::text::trim_start(v0);
        crate::text::lemma_lead_after(v0);
        assert(st.len() > 0);
        assert(st.last() == v0.last());
        assert(crate::text::trail_ws(st) == 0);
        assert(v =~= st);
        assert(v.last() == t.last());
    }
    let line = k + "="@ + v;
    if k.len() > 0 {
        assert(line[0] == k[0]);
    } else {
        assert(line[0] == '=');
    }
    if v.len() > 0 {
        assert(line.last() == v.last());
    } else {
        assert(line.last() == '=');
    }
}

spec fn idx_of_eq(t: Seq<char>) -> int {
    crate::text::idx_of(t, '=')
}

proof fn lemma_params_clean(ls: Seq<Seq<char>>, sec: Option<Seq<char>>)
    requires
        forall|i: int| 0 <= i < ls.len() ==> !has_char(#[trigger] ls[i], '\n'),
        section_ok(sec),
    ensures
        forall|i: int|
            0 <= i < crate::reshade::presets::params_of_lines(ls, sec).len() ==> clean_param(
                #[trigger] crate::reshade::presets::params_of_lines(ls, sec)[i],
            ),
    decreases ls.len(),
{
    if ls.len() > 0 {
        let t = trim(ls[0]);
        let tail = ls.drop_first();
        assert forall|i: int| 0 <= i < tail.len() implies !has_char(#[trigger] tail[i], '\n') by {
            assert(tail[i] == ls[i + 1]);
        }
        assert(!has_char(ls[0], '\n'));
        crate::text::lemma_trim_no_char(ls[0], '\n');
        let r = crate::reshade::presets::params_of_lines(ls, sec);
        if crate::reshade::presets::is_skipped(t) {
            lemma_params_clean(tail, sec);
            assert(r == crate::reshade::presets::params_of_lines(tail, sec));
        } else if is_section_line(t) {
            let name = crate::reshade::presets::section_name(t);
            crate::text::lemma_trim_matches2(t, '[', ']');
            if has_char(name, '\n') {
                let j = choose|j: int| 0 <= j < name.len() && name[j] == '\n';
                assert(t[j + crate::text::lead_in2(t, '[', ']')] == '\n');
            }
            lemma_params_clean(tail, Some(name));
            assert(section_ok(Some(name)));
            assert(r == crate::reshade::presets::params_of_lines(tail, Some(name)));
        } else {
            lemma_params_clean(tail, sec);
            let rr = crate::reshade::presets::params_of_lines(tail, sec);
            match split_once_of(t, '=') {
                Some((k, v)) => match sec {
                    Some(e) => if has_suffix(e, ".fx"@) {
                        lemma_read_param_clean(ls[0], e);
                        assert(r =~= seq![
                            (crate::text::trim_end_matches(e, ".fx"@), trim(k), trim(v)),
                        ] + rr);
                        assert forall|i: int| 0 <= i < r.len() implies clean_param(#[trigger] r[i]) by {
                            if i > 0 {
                                assert(r[i] == rr[i - 1]);
                            }
                        }
                    } else {
                        assert(r == rr);
                    },
                    None => {
                        assert(r == rr);
                    },
                },
                None => {
                    assert(r == rr);
                },
            }
        }
    }
}

// ---------------------------------------------------------------------------
// Laws: what an edited preset reads back as
// ---------------------------------------------------------------------------
/// Law: setting a clean parameter in any preset, then reading the preset,
/// gives its old parameters with that one set (the first entry for the
/// same effect and key replaced, else one appended), and its old techniques.
pub proof fn set_parameter_reads_back(ini: Seq<char>, e: Seq<char>, k: Seq<char>, v: Seq<char>)
    requires
        clean_param((e, k, v)),
    ensures
        params_of(set_parameter_text(ini, e, k, v)) == upsert_param(params_of(ini), e, k, v),
        techniques_of(set_parameter_text(ini, e, k, v)) == techniques_of(ini),
{
    crate::text::lemma_lines_no_nl(ini);
    lemma_techniques_clean(lines_of(ini));
    lemma_params_clean(lines_of(ini), None);
    let old_ps = params_of(ini);
    let ps = upsert_param(old_ps, e, k, v);
    assert forall|i: int| 0 <= i < ps.len() implies clean_param(#[trigger] ps[i]) by {
        let j = param_index(old_ps, e, k);
        if j >= 0 {
            lemma_param_index_range(old_ps, e, k);
            if i != j {
                assert(ps[i] == old_ps[i]);
            }
        } else if i < old_ps.len() {
            assert(ps[i] == old_ps[i]);
        }
    }
    written_preset_reads_back(techniques_of(ini), ps);
}

/// Law: replacing the techniques of any preset with clean ones, then
/// reading it, gives those techniques and its old parameters.
pub proof fn set_techniques_reads_back(ini: Seq<char>, ts: Seq<Seq<char>>)
    requires
        forall|i: int| 0 <= i < ts.len() ==> clean_technique(#[trigger] ts[i]),
    ensures
        techniques_of(set_techniques_text(ini, ts)) == ts,
        params_of(set_techniques_text(ini, ts)) == params_of(ini),
{
    crate::text::lemma_lines_no_nl(ini);
    lemma_params_clean(lines_of(ini), None);
    written_preset_reads_back(ts, params_of(ini));
}

proof fn lemma_param_index_range(ps: Seq<(Seq<char>, Seq<char>, Seq<char>)>, e: Seq<char>, k: Seq<char>)
    ensures
        -1 <= param_index(ps, e, k) < ps.len(),
    decreases ps.len(),
{
    if ps.len() > 0 {
        lemma_param_index_range(ps.drop_first(), e, k);
    }
}


/// The parameter list with each `(effect, key, value)` of `qs` set in turn.
pub open spec fn upsert_all(
    ps: Seq<(Seq<char>, Seq<char>, Seq<char>)>,
    qs: Seq<(Seq<char>, Seq<char>, Seq<char>)>,
) -> Seq<(Seq<char>, Seq<char>, Seq<char>)>
    decreases qs.len(),
{
    if qs.len() == 0 {
        ps
    } else {
        upsert_all(upsert_param(ps, qs[0].0, qs[0].1, qs[0].2), qs.drop_first())
    }
}

proof fn lemma_fold_set_params(ini: Seq<char>, qs: Seq<(Seq<char>, Seq<char>, Seq<char>)>)
    requires
        forall|i: int| 0 <= i < qs.len() ==> clean_param(#[trigger] qs[i]),
    ensures
        params_of(fold_set_params(ini, qs)) == upsert_all(params_of(ini), qs),
        techniques_of(fold_set_params(ini, qs)) == techniques_of(ini),
    decreases qs.len(),
{
    if qs.len() > 0 {
        assert(clean_param(qs[0]));
        set_parameter_reads_back(ini, qs[0].0, qs[0].1, qs[0].2);
        let rest = qs.drop_first();
        assert forall|i: int| 0 <= i < rest.len() implies clean_param(#[trigger] rest[i]) by {
            assert(rest[i] == qs[i + 1]);
        }
        lemma_fold_set_params(set_parameter_text(ini, qs[0].0, qs[0].1, qs[0].2), rest);
    }
}

/// Law: applying overrides with clean techniques and parameters, then
/// reading the preset, gives the override techniques (the base's when none
/// are given) and the base's parameters with each override parameter set
/// in turn.
pub proof fn overrides_read_back(
    base: Seq<char>,
    techniques: Option<Seq<Seq<char>>>,
    params: Seq<(Seq<char>, Seq<(Seq<char>, Seq<char>)>)>,
)
    requires
        techniques matches Some(ts) ==> forall|i: int|
            0 <= i < ts.len() ==> clean_technique(#[trigger] ts[i]),
        forall|i: int|
            0 <= i < flat_params(params).len() ==> clean_param(#[trigger] flat_params(params)[i]),
    ensures
        techniques_of(apply_overrides_text(base, techniques, params)) == match techniques {
            Some(ts) => ts,
            None => techniques_of(base),
        },
        params_of(apply_overrides_text(base, techniques, params)) == upsert_all(
            params_of(base),
            flat_params(params),
        ),
{
    let ts = match techniques {
        Some(t) => t,
        None => techniques_of(base),
    };
    if techniques is None {
        crate::text::lemma_lines_no_nl(base);
        lemma_techniques_clean(lines_of(base));
    }
    set_techniques_reads_back(base, ts);
    lemma_fold_set_params(set_techniques_text(base, ts), flat_params(params));
}


// ---------------------------------------------------------------------------
// Law: setting an INI key again overwrites the first setting
// ---------------------------------------------------------------------------
/// A `key=value` line that reads as itself: its own trim, and not a section
/// header.
pub open spec fn plain_line(l: Seq<char>) -> bool {
    trim(l) == l && !is_section_line(l)
}

/// Putting a matching plain line where the match was keeps the match there.
proof fn lemma_replace_index_update(
    ls: Seq<Seq<char>>,
    h: Seq<char>,
    p: Seq<char>,
    s: bool,
    l: Seq<char>,
)
    requires
        replace_index(ls, h, p, s) >= 0,
        plain_line(l),
        has_prefix(l, p),
    ensures
        replace_index(ls.update(replace_index(ls, h, p, s), l), h, p, s) == replace_index(ls, h, p, s),
    decreases ls.len(),
{
    let i = replace_index(ls, h, p, s);
    lemma_replace_index_range(ls, h, p, s);
    let ls2 = ls.update(i, l);
    let t = trim(ls[0]);
    if i == 0 {
        assert(ls2[0] == l);
        if is_section_line(t) {
            lemma_replace_index_range(ls.drop_first(), h, p, t == h);
        } else {
            lemma_replace_index_range(ls.drop_first(), h, p, s);
        }
        assert(!is_section_line(t) && s && has_prefix(t, p));
    } else {
        assert(ls2[0] == ls[0]);
        assert(ls2.drop_first() =~= ls.drop_first().update(i - 1, l));
        let s2 = if is_section_line(t) {
            t == h
        } else {
            s
        };
        lemma_replace_index_update(ls.drop_first(), h, p, s2, l);
    }
}

/// With no match, a matching plain line right after the section header is
/// the match.
proof fn lemma_replace_index_insert(
    ls: Seq<Seq<char>>,
    h: Seq<char>,
    p: Seq<char>,
    s: bool,
    l: Seq<char>,
)
    requires
        replace_index(ls, h, p, s) < 0,
        header_index(ls, h) >= 0,
        is_section_line(h),
        plain_line(l),
        has_prefix(l, p),
    ensures
        replace_index(ls.insert(header_index(ls, h) + 1, l), h, p, s) == header_index(ls, h) + 1,
    decreases ls.len(),
{
    let j = header_index(ls, h);
    lemma_header_index_range(ls, h);
    let ls2 = ls.insert(j + 1, l);
    let t = trim(ls[0]);
    assert(ls2[0] == ls[0]);
    if j == 0 {
        assert(t == h);
        assert(ls2.drop_first() =~= seq![l] + ls.drop_first());
        let rest = seq![l] + ls.drop_first();
        assert(rest[0] == l);
        assert(replace_index(rest, h, p, true) == 0);
    } else {
        assert(ls2.drop_first() =~= ls.drop_first().insert(j, l));
        let s2 = if is_section_line(t) {
            t == h
        } else {
            s
        };
        lemma_replace_index_range(ls.drop_first(), h, p, s2);
        lemma_replace_index_insert(ls.drop_first(), h, p, s2, l);
    }
}

/// With no match, a section header then a matching plain line at the end:
/// the line is the match.
proof fn lemma_replace_index_push(
    ls: Seq<Seq<char>>,
    h: Seq<char>,
    p: Seq<char>,
    s: bool,
    l: Seq<char>,
)
    requires
        replace_index(ls, h, p, s) < 0,
        is_section_line(h),
        trim(h) == h,
        plain_line(l),
        has_prefix(l, p),
    ensures
        replace_index(ls.push(h).push(l), h, p, s) == ls.len() + 1,
    decreases ls.len(),
{
    let ls2 = ls.push(h).push(l);
    if ls.len() == 0 {
        assert(ls2[0] == h);
        let rest = ls2.drop_first();
        assert(rest =~= seq![l]);
        assert(rest[0] == l);
        assert(replace_index(rest, h, p, true) == 0);
    } else {
        let t = trim(ls[0]);
        assert(ls2[0] == ls[0]);
        assert(ls2.drop_first() =~= ls.drop_first().push(h).push(l));
        let s2 = if is_section_line(t) {
            t == h
        } else {
            s
        };
        lemma_replace_index_range(ls.drop_first(), h, p, s2);
        lemma_replace_index_push(ls.drop_first(), h, p, s2, l);
    }
}

proof fn lemma_header_index_range(ls: Seq<Seq<char>>, h: Seq<char>)
    ensures
        -1 <= header_index(ls, h) < ls.len(),
        header_index(ls, h) >= 0 ==> trim(ls[header_index(ls, h)]) == h,
    decreases ls.len(),
{
    if ls.len() > 0 && trim(ls[0]) != h {
        lemma_header_index_range(ls.drop_first(), h);
    }
}

/// Law: setting a key of an INI section twice is setting it to the second
/// value once, when the first `key=value` line reads as itself.
pub proof fn set_ini_value_last_wins(
    ls: Seq<Seq<char>>,
    section: Seq<char>,
    key: Seq<char>,
    v1: Seq<char>,
    v2: Seq<char>,
)
    requires
        plain_line(key + "="@ + v1),
    ensures
        set_ini_value_spec(set_ini_value_spec(ls, section, key, v1), section, key, v2)
            == set_ini_value_spec(ls, section, key, v2),
{
    reveal_strlit("[");
    reveal_strlit("]");
    reveal_strlit("=");
    let h = "["@ + section + "]"@;
    let p = key + "="@;
    let kv1 = key + "="@ + v1;
    let kv2 = key + "="@ + v2;
    assert(kv1.take(p.len() as int) =~= p);
    assert(has_prefix(kv1, p));
    assert(h[0] == '[');
    assert(h.last() == ']');
    let i = replace_index(ls, h, p, false);
    lemma_replace_index_range(ls, h, p, false);
    let once = set_ini_value_spec(ls, section, key, v1);
    if i >= 0 {
        lemma_replace_index_update(ls, h, p, false, kv1);
        assert(once == ls.update(i, kv1));
        assert(ls.update(i, kv1).update(i, kv2) =~= ls.update(i, kv2));
    } else {
        let j = header_index(ls, h);
        lemma_header_index_range(ls, h);
        if j >= 0 {
            lemma_replace_index_insert(ls, h, p, false, kv1);
            assert(once == ls.insert(j + 1, kv1));
            assert(ls.insert(j + 1, kv1).update(j + 1, kv2) =~= ls.insert(j + 1, kv2));
        } else {
            crate::text::lemma_trim_id(h);
            lemma_replace_index_push(ls, h, p, false, kv1);
            assert(once == ls.push(h).push(kv1));
            assert(ls.push(h).push(kv1).update(ls.len() + 1int, kv2) =~= ls.push(h).push(kv2));
        }
    }
}

// ---------------------------------------------------------------------------
// Reading a key of an INI section; law: the behavior settings read back
// ---------------------------------------------------------------------------
/// The value a reader finds for a key among INI lines: on the first line
/// (trimmed) inside the section headed `header` that starts with `prefix`
/// (`key=`), the text after the prefix. `in_section` tells whether the
/// lines start inside that section.
pub open spec fn section_value(
    ls: Seq<Seq<char>>,
    header: Seq<char>,
    prefix: Seq<char>,
    in_section: bool,
) -> Option<Seq<char>>
    decreases ls.len(),
{
    if ls.len() == 0 {
        None
    } else {
        let t = trim(ls[0]);
        if is_section_line(t) {
            section_value(ls.drop_first(), header, prefix, t == header)
        } else if in_section && has_prefix(t, prefix) {
            Some(t.skip(prefix.len() as int))
        } else {
            section_value(ls.drop_first(), header, prefix, in_section)
        }
    }
}

/// The value of `key` in `[section]` of an INI text, as a reader finds it.
pub open spec fn ini_value(text: Seq<char>, section: Seq<char>, key: Seq<char>) -> Option<Seq<char>> {
    section_value(lines_of(text), "["@ + section + "]"@, key + "="@, false)
}

/// The base INI text with the behavior settings written into it.
pub open spec fn behavior_text(
    base: Seq<char>,
    performance_mode: bool,
    key_overlay: Option<Seq<char>>,
    key_toggle: Option<Seq<char>>,
) -> Seq<char> {
    with_final_newline(
        join(behavior_lines(lines_of(base), performance_mode, key_overlay, key_toggle), "\n"@),
    )
}

/// A line a reader passes over when looking for `prefix`: no section
/// header, and not starting with the prefix.
pub open spec fn neutral_line(l: Seq<char>, p: Seq<char>) -> bool {
    !is_section_line(trim(l)) && !has_prefix(trim(l), p)
}

proof fn lemma_section_value_index(ls: Seq<Seq<char>>, h: Seq<char>, p: Seq<char>, s: bool)
    ensures
        replace_index(ls, h, p, s) >= 0 ==> section_value(ls, h, p, s) == Some(
            trim(ls[replace_index(ls, h, p, s)]).skip(p.len() as int),
        ),
        replace_index(ls, h, p, s) < 0 ==> section_value(ls, h, p, s) is None,
    decreases ls.len(),
{
    lemma_replace_index_range(ls, h, p, s);
    if ls.len() > 0 {
        let t = trim(ls[0]);
        let rest = ls.drop_first();
        if is_section_line(t) {
            lemma_section_value_index(rest, h, p, t == h);
            lemma_replace_index_range(rest, h, p, t == h);
            let r = replace_index(rest, h, p, t == h);
            if r >= 0 {
                assert(ls[r + 1] == rest[r]);
            }
        } else if s && has_prefix(t, p) {
        } else {
            lemma_section_value_index(rest, h, p, s);
            lemma_replace_index_range(rest, h, p, s);
            let r = replace_index(rest, h, p, s);
            if r >= 0 {
                assert(ls[r + 1] == rest[r]);
            }
        }
    }
}

/// The line `replace_index` picks starts with the prefix and is no header.
proof fn lemma_replace_index_match(ls: Seq<Seq<char>>, h: Seq<char>, p: Seq<char>, s: bool)
    requires
        replace_index(ls, h, p, s) >= 0,
    ensures
        has_prefix(trim(ls[replace_index(ls, h, p, s)]), p),
        !is_section_line(trim(ls[replace_index(ls, h, p, s)])),
    decreases ls.len(),
{
    lemma_replace_index_range(ls, h, p, s);
    let t = trim(ls[0]);
    let rest = ls.drop_first();
    if is_section_line(t) {
        lemma_replace_index_range(rest, h, p, t == h);
        let r = replace_index(rest, h, p, t == h);
        lemma_replace_index_match(rest, h, p, t == h);
        assert(ls[r + 1] == rest[r]);
    } else if s && has_prefix(t, p) {
    } else {
        lemma_replace_index_range(rest, h, p, s);
        let r = replace_index(rest, h, p, s);
        lemma_replace_index_match(rest, h, p, s);
        assert(ls[r + 1] == rest[r]);
    }
}

/// Setting `key` in `[section]` makes a reader find the value set, when the
/// `key=value` line reads as itself.
proof fn lemma_set_reads_value(ls: Seq<Seq<char>>, section: Seq<char>, key: Seq<char>, v: Seq<char>)
    requires
        plain_line(key + "="@ + v),
    ensures
        section_value(set_ini_value_spec(ls, section, key, v), "["@ + section + "]"@, key + "="@, false)
            == Some(v),
{
    reveal_strlit("[");
    reveal_strlit("]");
    reveal_strlit("=");
    let h = "["@ + section + "]"@;
    let p = key + "="@;
    let kv = key + "="@ + v;
    assert(kv.take(p.len() as int) =~= p);
    assert(has_prefix(kv, p));
    assert(h[0] == '[');
    assert(h.last() == ']');
    assert(kv.skip(p.len() as int) =~= v);
    let i = replace_index(ls, h, p, false);
    lemma_replace_index_range(ls, h, p, false);
    let ls2 = set_ini_value_spec(ls, section, key, v);
    if i >= 0 {
        lemma_replace_index_update(ls, h, p, false, kv);
        assert(ls2 == ls.update(i, kv));
        lemma_section_value_index(ls2, h, p, false);
        assert(ls2[i] == kv);
    } else {
        let j = header_index(ls, h);
        lemma_header_index_range(ls, h);
        if j >= 0 {
            lemma_replace_index_insert(ls, h, p, false, kv);
            assert(ls2 == ls.insert(j + 1, kv));
            lemma_section_value_index(ls2, h, p, false);
            assert(ls2[j + 1] == kv);
        } else {
            crate::text::lemma_trim_id(h);
            lemma_replace_index_push(ls, h, p, false, kv);
            assert(ls2 == ls.push(h).push(kv));
            lemma_section_value_index(ls2, h, p, false);
            assert(ls2[ls.len() + 1int] == kv);
        }
    }
}

proof fn lemma_section_value_insert(
    ls: Seq<Seq<char>>,
    h: Seq<char>,
    p: Seq<char>,
    s: bool,
    i: int,
    l: Seq<char>,
)
    requires
        0 <= i <= ls.len(),
        neutral_line(l, p),
    ensures
        section_value(ls.insert(i, l), h, p, s) == section_value(ls, h, p, s),
    decreases ls.len(),
{
    let ls2 = ls.insert(i, l);
    if i == 0 {
        assert(ls2[0] == l);
        assert(ls2.drop_first() =~= ls);
    } else {
        assert(ls2[0] == ls[0]);
        assert(ls2.drop_first() =~= ls.drop_first().insert(i - 1, l));
        let t = trim(ls[0]);
        let s2 = if is_section_line(t) {
            t == h
        } else {
            s
        };
        lemma_section_value_insert(ls.drop_first(), h, p, s2, i - 1, l);
    }
}

proof fn lemma_section_value_update(
    ls: Seq<Seq<char>>,
    h: Seq<char>,
    p: Seq<char>,
    s: bool,
    i: int,
    l: Seq<char>,
)
    requires
        0 <= i < ls.len(),
        neutral_line(l, p),
        neutral_line(ls[i], p),
    ensures
        section_value(ls.update(i, l), h, p, s) == section_value(ls, h, p, s),
    decreases ls.len(),
{
    let ls2 = ls.update(i, l);
    if i == 0 {
        assert(ls2[0] == l);
        assert(ls2.drop_first() =~= ls.drop_first());
    } else {
        assert(ls2[0] == ls[0]);
        assert(ls2.drop_first() =~= ls.drop_first().update(i - 1, l));
        assert(ls.drop_first()[i - 1] == ls[i]);
        let t = trim(ls[0]);
        let s2 = if is_section_line(t) {
            t == h
        } else {
            s
        };
        lemma_section_value_update(ls.drop_first(), h, p, s2, i - 1, l);
    }
}

proof fn lemma_section_value_push(ls: Seq<Seq<char>>, h: Seq<char>, p: Seq<char>, s: bool, x: Seq<char>)
    requires
        section_value(ls, h, p, s) is Some,
    ensures
        section_value(ls.push(x), h, p, s) == section_value(ls, h, p, s),
    decreases ls.len(),
{
    let ls2 = ls.push(x);
    assert(ls.len() > 0);
    assert(ls2[0] == ls[0]);
    assert(ls2.drop_first() =~= ls.drop_first().push(x));
    let t = trim(ls[0]);
    if is_section_line(t) {
        lemma_section_value_push(ls.drop_first(), h, p, t == h, x);
    } else if s && has_prefix(t, p) {
    } else {
        lemma_section_value_push(ls.drop_first(), h, p, s, x);
    }
}

/// A sequence starting with a non-white-space character keeps, when
/// trimmed, its first `n` characters when the `n`-th is no white space.
proof fn lemma_trim_keeps_head(s: Seq<char>, n: int)
    requires
        0 < n <= s.len(),
        !crate::text::is_ws(s[0]),
        !crate::text::is_ws(s[n - 1]),
    ensures
        trim(s).len() >= n,
        forall|j: int| 0 <= j < n ==> #[trigger] trim(s)[j] == s[j],
{
    crate::text::lemma_lead_ws(s, 0);
    assert(crate::text::trim_start(s) =~= s);
    crate::text::lemma_trail_bound(s);
    crate::text::lemma_trail_after(s);
    if crate::text::trail_ws(s) > s.len() - n {
        assert(crate::text::is_ws(s[n - 1]));
    }
}

/// Setting a key that differs from the key of `p` at some place `d` (and
/// starts with neither white space nor `[`) leaves what a reader finds for
/// `p` as it was, once it finds something.
proof fn lemma_set_other_keeps_value(
    ls: Seq<Seq<char>>,
    h: Seq<char>,
    p: Seq<char>,
    section2: Seq<char>,
    key2: Seq<char>,
    v2: Seq<char>,
    d: int,
)
    requires
        section_value(ls, h, p, false) is Some,
        0 <= d < key2.len(),
        d < p.len(),
        !crate::text::is_ws(key2[0]),
        key2[0] != '[',
        key2[d] != p[d],
    ensures
        section_value(set_ini_value_spec(ls, section2, key2, v2), h, p, false) == section_value(
            ls,
            h,
            p,
            false,
        ),
{
    reveal_strlit("[");
    reveal_strlit("]");
    reveal_strlit("=");
    let h2 = "["@ + section2 + "]"@;
    let p2 = key2 + "="@;
    let kv = key2 + "="@ + v2;
    assert(kv[0] == key2[0]);
    assert(kv[d] == key2[d]);
    assert(kv[key2.len() as int] == '=');
    assert(!crate::text::is_ws('='));
    lemma_trim_keeps_head(kv, key2.len() + 1int);
    assert(trim(kv)[0] == kv[0]);
    assert(trim(kv)[d] == kv[d]);
    if has_prefix(trim(kv), p) {
        assert(trim(kv).take(p.len() as int)[d] == p[d]);
        assert(trim(kv).take(p.len() as int)[d] == trim(kv)[d]);
    }
    assert(neutral_line(kv, p));
    let i = replace_index(ls, h2, p2, false);
    lemma_replace_index_range(ls, h2, p2, false);
    let ls2 = set_ini_value_spec(ls, section2, key2, v2);
    if i >= 0 {
        lemma_replace_index_match(ls, h2, p2, false);
        let t = trim(ls[i]);
        assert(t.take(p2.len() as int) == p2);
        assert(t[0] == t.take(p2.len() as int)[0]);
        assert(t[d] == t.take(p2.len() as int)[d]);
        assert(t[0] == key2[0]);
        assert(t[d] == key2[d]);
        if has_prefix(t, p) {
            assert(t.take(p.len() as int)[d] == p[d]);
            assert(t.take(p.len() as int)[d] == t[d]);
        }
        assert(neutral_line(ls[i], p));
        assert(ls2 == ls.update(i, kv));
        lemma_section_value_update(ls, h, p, false, i, kv);
    } else {
        let j = header_index(ls, h2);
        lemma_header_index_range(ls, h2);
        if j >= 0 {
            assert(ls2 == ls.insert(j + 1, kv));
            lemma_section_value_insert(ls, h, p, false, j + 1, kv);
        } else {
            assert(ls2 == ls.push(h2).push(kv));
            lemma_section_value_push(ls, h, p, false, h2);
            lemma_section_value_push(ls.push(h2), h, p, false, kv);
        }
    }
}

proof fn lemma_trim_drop_ws_last(s: Seq<char>)
    requires
        s.len() > 0,
        crate::text::is_ws(s.last()),
    ensures
        trim(s.drop_last()) == trim(s),
{
    let d = s.drop_last();
    crate::text::lemma_lead_after(s);
    crate::text::lemma_lead_bound(s);
    let a = crate::text::lead_ws(s) as int;
    if a < s.len() {
        assert(a < d.len());
        assert forall|j: int| 0 <= j < a implies crate::text::is_ws(d[j]) by {
            assert(d[j] == s[j]);
        }
        assert(d[a] == s[a]);
        crate::text::lemma_lead_ws(d, a);
        let t = s.skip(a);
        assert(crate::text::trim_start(s) == t);
        assert(crate::text::trim_start(d) =~= t.drop_last());
        assert(t.len() > 0 && t.last() == s.last());
        assert(crate::text::trail_ws(t) == 1 + crate::text::trail_ws(t.drop_last()));
        crate::text::lemma_trail_bound(t.drop_last());
        assert(crate::text::trim_end(t.drop_last()) =~= crate::text::trim_end(t));
    } else {
        assert forall|j: int| 0 <= j < d.len() implies crate::text::is_ws(d[j]) by {
            assert(d[j] == s[j]);
        }
        crate::text::lemma_lead_ws(d, d.len() as int);
        assert(crate::text::trim_start(d) =~= Seq::<char>::empty());
        assert(crate::text::trim_start(s) =~= Seq::<char>::empty());
    }
}

proof fn lemma_trim_strip_cr(l: Seq<char>)
    ensures
        trim(crate::text::strip_cr(l)) == trim(l),
{
    if l.len() > 0 && l.last() == '\r' {
        assert(crate::text::is_ws('\r'));
        lemma_trim_drop_ws_last(l);
    }
}

proof fn lemma_section_value_same_trims(
    ls: Seq<Seq<char>>,
    ls2: Seq<Seq<char>>,
    h: Seq<char>,
    p: Seq<char>,
    s: bool,
)
    requires
        ls.len() == ls2.len(),
        forall|i: int| 0 <= i < ls.len() ==> trim(#[trigger] ls[i]) == trim(ls2[i]),
    ensures
        section_value(ls, h, p, s) == section_value(ls2, h, p, s),
    decreases ls.len(),
{
    if ls.len() > 0 {
        assert(trim(ls[0]) == trim(ls2[0]));
        let r = ls.drop_first();
        let r2 = ls2.drop_first();
        assert forall|i: int| 0 <= i < r.len() implies trim(#[trigger] r[i]) == trim(r2[i]) by {
            assert(r[i] == ls[i + 1]);
            assert(r2[i] == ls2[i + 1]);
        }
        let t = trim(ls[0]);
        lemma_section_value_same_trims(r, r2, h, p, t == h);
        lemma_section_value_same_trims(r, r2, h, p, s);
    }
}

proof fn lemma_lines_of_joined(ls: Seq<Seq<char>>)
    requires
        ls.len() > 0,
        forall|i: int| 0 <= i < ls.len() ==> !has_char(#[trigger] ls[i], '\n'),
    ensures
        lines_of(join(ls, "\n"@) + "\n"@) == ls.map_values(|l: Seq<char>| crate::text::strip_cr(l)),
    decreases ls.len(),
{
    reveal_strlit("\n");
    assert("\n"@ =~= seq!['\n']);
    assert(!has_char(ls[0], '\n'));
    crate::text::lemma_lines_of_line(ls[0]);
    if ls.len() == 1 {
        assert(join(ls, "\n"@) == ls[0]);
        assert(ls.map_values(|l: Seq<char>| crate::text::strip_cr(l)) =~= seq![
            crate::text::strip_cr(ls[0]),
        ]);
    } else {
        let rest = ls.drop_first();
        assert forall|i: int| 0 <= i < rest.len() implies !has_char(#[trigger] rest[i], '\n') by {
            assert(rest[i] == ls[i + 1]);
        }
        lemma_lines_of_joined(rest);
        let x = ls[0] + "\n"@;
        let y = join(rest, "\n"@) + "\n"@;
        assert(join(ls, "\n"@) + "\n"@ =~= x + y);
        assert(x.last() == '\n');
        crate::text::lemma_lines_of_concat(x, y);
        assert(ls.map_values(|l: Seq<char>| crate::text::strip_cr(l)) =~= seq![
            crate::text::strip_cr(ls[0]),
        ] + rest.map_values(|l: Seq<char>| crate::text::strip_cr(l)));
    }
}

proof fn lemma_join_drop_last(ls: Seq<Seq<char>>, sep: Seq<char>)
    requires
        ls.len() >= 2,
    ensures
        join(ls, sep) == join(ls.drop_last(), sep) + sep + ls.last(),
    decreases ls.len(),
{
    let rest = ls.drop_first();
    if ls.len() == 2 {
        assert(ls.drop_last() =~= seq![ls[0]]);
        assert(rest =~= seq![ls[1]]);
        assert(join(rest, sep) == ls[1]);
    } else {
        lemma_join_drop_last(rest, sep);
        assert(rest.drop_last() =~= ls.drop_last().drop_first());
        assert(rest.last() == ls.last());
        assert(join(ls.drop_last(), sep) == ls.drop_last()[0] + sep + join(ls.drop_last().drop_first(), sep));
    }
}

/// Reading lines joined into a text, with a final line break, finds what
/// reading the lines finds.
proof fn lemma_section_value_text(ls: Seq<Seq<char>>, h: Seq<char>, p: Seq<char>)
    requires
        ls.len() > 0,
        p.len() > 0,
        forall|i: int| 0 <= i < ls.len() ==> !has_char(#[trigger] ls[i], '\n'),
    ensures
        section_value(lines_of(with_final_newline(join(ls, "\n"@))), h, p, false) == section_value(
            ls,
            h,
            p,
            false,
        ),
{
    reveal_strlit("\n");
    assert("\n"@ =~= seq!['\n']);
    let j = join(ls, "\n"@);
    let text = with_final_newline(j);
    if j.len() > 0 && j.last() == '\n' {
        let last = ls[ls.len() - 1];
        assert(!has_char(last, '\n'));
        if ls.len() == 1 {
            assert(j == ls[0]);
            assert(ls[0][ls[0].len() - 1] == '\n');
            assert(false);
        }
        if last.len() > 0 {
            lemma_join_last(ls, "\n"@);
            assert(last[last.len() - 1] == '\n');
            assert(false);
        }
        let init = ls.drop_last();
        lemma_join_drop_last(ls, "\n"@);
        assert(last =~= Seq::<char>::empty());
        assert(text =~= join(init, "\n"@) + "\n"@);
        assert forall|i: int| 0 <= i < init.len() implies !has_char(#[trigger] init[i], '\n') by {
            assert(init[i] == ls[i]);
        }
        lemma_lines_of_joined(init);
        let m = init.map_values(|l: Seq<char>| crate::text::strip_cr(l));
        assert forall|i: int| 0 <= i < m.len() implies trim(#[trigger] m[i]) == trim(init[i]) by {
            lemma_trim_strip_cr(init[i]);
        }
        lemma_section_value_same_trims(m, init, h, p, false);
        crate::text::lemma_trim_ends(last);
        assert(trim(last).len() == 0);
        assert(neutral_line(last, p));
        lemma_section_value_insert(init, h, p, false, init.len() as int, last);
        assert(init.insert(init.len() as int, last) =~= ls);
    } else {
        assert(text =~= j + "\n"@);
        lemma_lines_of_joined(ls);
        let m = ls.map_values(|l: Seq<char>| crate::text::strip_cr(l));
        assert forall|i: int| 0 <= i < m.len() implies trim(#[trigger] m[i]) == trim(ls[i]) by {
            lemma_trim_strip_cr(ls[i]);
        }
        lemma_section_value_same_trims(m, ls, h, p, false);
    }
}

/// Setting a key keeps every line free of line breaks, when the section,
/// the key and the value have none.
proof fn lemma_set_no_nl(ls: Seq<Seq<char>>, section: Seq<char>, key: Seq<char>, v: Seq<char>)
    requires
        forall|i: int| 0 <= i < ls.len() ==> !has_char(#[trigger] ls[i], '\n'),
        !has_char(section, '\n'),
        !has_char(key, '\n'),
        !has_char(v, '\n'),
    ensures
        forall|i: int|
            0 <= i < set_ini_value_spec(ls, section, key, v).len() ==> !has_char(
                #[trigger] set_ini_value_spec(ls, section, key, v)[i],
                '\n',
            ),
{
    reveal_strlit("[");
    reveal_strlit("]");
    reveal_strlit("=");
    lemma_no_nl_lit("["@);
    lemma_no_nl_lit("]"@);
    lemma_no_nl_lit("="@);
    lemma_no_nl_concat("["@, section);
    lemma_no_nl_concat("["@ + section, "]"@);
    lemma_no_nl_concat(key, "="@);
    lemma_no_nl_concat(key + "="@, v);
    let h = "["@ + section + "]"@;
    let kv = key + "="@ + v;
    let ls2 = set_ini_value_spec(ls, section, key, v);
    let i = replace_index(ls, h, key + "="@, false);
    lemma_replace_index_range(ls, h, key + "="@, false);
    let j = header_index(ls, h);
    lemma_header_index_range(ls, h);
    assert forall|k: int| 0 <= k < ls2.len() implies !has_char(#[trigger] ls2[k], '\n') by {
        if i >= 0 {
            if k != i {
                assert(ls2[k] == ls[k]);
            }
        } else if j >= 0 {
            if k < j + 1 {
                assert(ls2[k] == ls[k]);
            } else if k > j + 1 {
                assert(ls2[k] == ls[k - 1]);
            }
        } else if k < ls.len() {
            assert(ls2[k] == ls[k]);
        }
    }
}

/// Law: the base INI with the behavior settings written reads back with
/// `PerformanceMode` in `[GENERAL]` set to `1` when performance mode is on
/// and to `0` when it is off, whatever the base held, when the key bindings
/// hold no line break.
pub proof fn behavior_sets_performance_mode(
    base: Seq<char>,
    performance_mode: bool,
    key_overlay: Option<Seq<char>>,
    key_toggle: Option<Seq<char>>,
)
    requires
        key_overlay matches Some(k) ==> !has_char(k, '\n'),
        key_toggle matches Some(k) ==> !has_char(k, '\n'),
    ensures
        ini_value(
            behavior_text(base, performance_mode, key_overlay, key_toggle),
            "GENERAL"@,
            "PerformanceMode"@,
        ) == Some(
            if performance_mode {
                "1"@
            } else {
                "0"@
            },
        ),
{
    reveal_strlit("[");
    reveal_strlit("]");
    reveal_strlit("=");
    reveal_strlit("1");
    reveal_strlit("0");
    reveal_strlit("GENERAL");
    reveal_strlit("INPUT");
    reveal_strlit("PerformanceMode");
    reveal_strlit("KeyOverlay");
    reveal_strlit("KeyEffects");
    let v = if performance_mode {
        "1"@
    } else {
        "0"@
    };
    let key = "PerformanceMode"@;
    let h = "["@ + "GENERAL"@ + "]"@;
    let p = key + "="@;
    let kv = key + "="@ + v;
    assert(kv[0] == 'P');
    assert(kv.last() == v[0]);
    crate::text::lemma_trim_id(kv);
    assert(plain_line(kv));
    assert(p[0] == 'P');
    let ls0 = lines_of(base);
    let l1 = set_ini_value_spec(ls0, "GENERAL"@, key, v);
    lemma_set_reads_value(ls0, "GENERAL"@, key, v);
    crate::text::lemma_lines_no_nl(base);
    lemma_no_nl_lit("GENERAL"@);
    lemma_no_nl_lit("INPUT"@);
    lemma_no_nl_lit(key);
    lemma_no_nl_lit(v);
    lemma_no_nl_lit("KeyOverlay"@);
    lemma_no_nl_lit("KeyEffects"@);
    lemma_set_no_nl(ls0, "GENERAL"@, key, v);
    let l2 = match key_overlay {
        Some(k) => set_ini_value_spec(l1, "INPUT"@, "KeyOverlay"@, k),
        None => l1,
    };
    match key_overlay {
        Some(k) => {
            lemma_set_other_keeps_value(l1, h, p, "INPUT"@, "KeyOverlay"@, k, 0);
            lemma_set_no_nl(l1, "INPUT"@, "KeyOverlay"@, k);
        },
        None => {},
    }
    let l3 = match key_toggle {
        Some(k) => set_ini_value_spec(l2, "INPUT"@, "KeyEffects"@, k),
        None => l2,
    };
    match key_toggle {
        Some(k) => {
            lemma_set_other_keeps_value(l2, h, p, "INPUT"@, "KeyEffects"@, k, 0);
            lemma_set_no_nl(l2, "INPUT"@, "KeyEffects"@, k);
        },
        None => {},
    }
    assert(l3 == behavior_lines(ls0, performance_mode, key_overlay, key_toggle));
    assert(section_value(l3, h, p, false) == Some(v));
    if l3.len() == 0 {
        assert(section_value(l3, h, p, false) is None);
    }
    lemma_section_value_text(l3, h, p);
}

/// A `key=value` line whose key starts with neither white space nor `[`,
/// and whose value is empty or ends without white space, reads as itself.
proof fn lemma_key_line_plain(key: Seq<char>, v: Seq<char>)
    requires
        key.len() > 0,
        !crate::text::is_ws(key[0]),
        key[0] != '[',
        v.len() == 0 || !crate::text::is_ws(v.last()),
    ensures
        plain_line(key + "="@ + v),
{
    reveal_strlit("=");
    let kv = key + "="@ + v;
    assert(kv[0] == key[0]);
    if v.len() == 0 {
        assert(kv.last() == '=');
        assert(!crate::text::is_ws('='));
    } else {
        assert(kv.last() == v.last());
    }
    crate::text::lemma_trim_id(kv);
}

/// Law: the base INI with the behavior settings written reads back, in
/// `[INPUT]`, with `KeyOverlay` and `KeyEffects` set to the bindings given,
/// when no binding holds a line break and the one read ends without white
/// space.
pub proof fn behavior_sets_key_bindings(
    base: Seq<char>,
    performance_mode: bool,
    key_overlay: Option<Seq<char>>,
    key_toggle: Option<Seq<char>>,
)
    requires
        key_overlay matches Some(k) ==> !has_char(k, '\n'),
        key_toggle matches Some(k) ==> !has_char(k, '\n'),
    ensures
        (key_overlay matches Some(k) && (k.len() == 0 || !crate::text::is_ws(k.last()))) ==> ini_value(
            behavior_text(base, performance_mode, key_overlay, key_toggle),
            "INPUT"@,
            "KeyOverlay"@,
        ) == key_overlay,
        (key_toggle matches Some(k) && (k.len() == 0 || !crate::text::is_ws(k.last()))) ==> ini_value(
            behavior_text(base, performance_mode, key_overlay, key_toggle),
            "INPUT"@,
            "KeyEffects"@,
        ) == key_toggle,
{
    reveal_strlit("[");
    reveal_strlit("]");
    reveal_strlit("=");
    reveal_strlit("1");
    reveal_strlit("0");
    reveal_strlit("GENERAL");
    reveal_strlit("INPUT");
    reveal_strlit("PerformanceMode");
    reveal_strlit("KeyOverlay");
    reveal_strlit("KeyEffects");
    let v = if performance_mode {
        "1"@
    } else {
        "0"@
    };
    let hi = "["@ + "INPUT"@ + "]"@;
    let po = "KeyOverlay"@ + "="@;
    let pe = "KeyEffects"@ + "="@;
    assert(po[3] == 'O');
    assert("KeyEffects"@[3] == 'E');
    let ls0 = lines_of(base);
    let l1 = set_ini_value_spec(ls0, "GENERAL"@, "PerformanceMode"@, v);
    crate::text::lemma_lines_no_nl(base);
    lemma_no_nl_lit("GENERAL"@);
    lemma_no_nl_lit("INPUT"@);
    lemma_no_nl_lit("PerformanceMode"@);
    lemma_no_nl_lit(v);
    lemma_no_nl_lit("KeyOverlay"@);
    lemma_no_nl_lit("KeyEffects"@);
    lemma_set_no_nl(ls0, "GENERAL"@, "PerformanceMode"@, v);
    let l2 = match key_overlay {
        Some(k) => set_ini_value_spec(l1, "INPUT"@, "KeyOverlay"@, k),
        None => l1,
    };
    match key_overlay {
        Some(k) => {
            lemma_set_no_nl(l1, "INPUT"@, "KeyOverlay"@, k);
            if k.len() == 0 || !crate::text::is_ws(k.last()) {
                lemma_key_line_plain("KeyOverlay"@, k);
                lemma_set_reads_value(l1, "INPUT"@, "KeyOverlay"@, k);
            }
        },
        None => {},
    }
    let l3 = match key_toggle {
        Some(k) => set_ini_value_spec(l2, "INPUT"@, "KeyEffects"@, k),
        None => l2,
    };
    match key_toggle {
        Some(k) => {
            lemma_set_no_nl(l2, "INPUT"@, "KeyEffects"@, k);
            if key_overlay matches Some(ko) && (ko.len() == 0 || !crate::text::is_ws(ko.last())) {
                lemma_set_other_keeps_value(l2, hi, po, "INPUT"@, "KeyEffects"@, k, 3);
            }
            if k.len() == 0 || !crate::text::is_ws(k.last()) {
                lemma_key_line_plain("KeyEffects"@, k);
                lemma_set_reads_value(l2, "INPUT"@, "KeyEffects"@, k);
            }
        },
        None => {},
    }
    assert(l3 == behavior_lines(ls0, performance_mode, key_overlay, key_toggle));
    if l3.len() > 0 {
        lemma_section_value_text(l3, hi, po);
        lemma_section_value_text(l3, hi, pe);
    } else {
        assert(section_value(l3, hi, po, false) is None);
        assert(section_value(l3, hi, pe, false) is None);
    }
}

} // verus!
