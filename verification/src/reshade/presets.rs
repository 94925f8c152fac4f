//! Built-in ReShade presets and the preset-INI reader (`Techniques=` line and
//! `[Effect.fx]` parameter sections).
use vstd::prelude::*;
use crate::text::{
    append_all, chars_of, ends_with, has_prefix, has_suffix, lines_of, lines_vec, owned, split_of,
    opt_view, split_once_of, split_once_vec, split_vec, starts_with, str_eq, str_views, string_of, subvec,
    trim, trim_end_matches, trim_end_matches_vec, trim_matches2, trim_matches2_vec, trim_vec,
    views,
};

verus! {

#[derive(Debug, Clone)]
pub struct ReShadePresetInfo {
    pub id: String,
    pub name: String,
    pub description: String,
    pub author: bool,
}

#[derive(Debug, Clone)]
pub struct PresetParameter {
    pub effect: String,
    pub key: String,
    pub value: String,
}

impl View for PresetParameter {
    type V = (Seq<char>, Seq<char>, Seq<char>);

    open spec fn view(&self) -> (Seq<char>, Seq<char>, Seq<char>) {
        (self.effect@, self.key@, self.value@)
    }
}

#[derive(Debug, Clone)]
pub struct PresetDetails {
    pub id: String,
    pub techniques: Vec<String>,
    pub parameters: Vec<PresetParameter>,
    pub shaders_available: bool,
}

/// Views of a sequence of parameters.
pub open spec fn param_views(ps: Seq<PresetParameter>) -> Seq<(Seq<char>, Seq<char>, Seq<char>)> {
    ps.map_values(|p: PresetParameter| p@)
}

/// Ids of the presets shipped with the application.
pub open spec fn builtin_preset_ids() -> Seq<Seq<char>> {
    seq!["performance"@, "clarity"@, "cinematic"@]
}

pub open spec fn preset_info_ids(ps: Seq<ReShadePresetInfo>) -> Seq<Seq<char>> {
    ps.map_values(|p: ReShadePresetInfo| p.id@)
}

/// A preset description as plain values: id, name, description, author.
pub open spec fn pinfo_view(p: ReShadePresetInfo) -> (Seq<char>, Seq<char>, Seq<char>, bool) {
    (p.id@, p.name@, p.description@, p.author)
}

pub open spec fn pinfo_views(ps: Seq<ReShadePresetInfo>) -> Seq<(Seq<char>, Seq<char>, Seq<char>, bool)> {
    ps.map_values(|p: ReShadePresetInfo| pinfo_view(p))
}

/// The presets shipped with the application.
pub open spec fn builtin_infos() -> Seq<(Seq<char>, Seq<char>, Seq<char>, bool)> {
    seq![
        ("performance"@, "Performance"@, "Лёгкое повышение резкости без тяжёлых эффектов — минимум нагрузки на GPU."@, false),
        ("clarity"@, "Clarity"@, "Баланс чёткости и контраста для повседневной игры."@, false),
        ("cinematic"@, "Cinematic"@, "Мягкая цветокоррекция и виньетка — чуть кинематографичнее картинка."@, false),
    ]
}

// ---------------------------------------------------------------------------
// INI reading specification
// ---------------------------------------------------------------------------
/// A trimmed line that is skipped by both readers.
pub open spec fn is_skipped(t: Seq<char>) -> bool {
    t.len() == 0 || t[0] == ';'
}

/// A trimmed line that opens a section.
pub open spec fn is_section_line(t: Seq<char>) -> bool {
    t.len() > 0 && t[0] == '[' && t.last() == ']'
}

/// Trimmed, non-empty pieces, in order.
pub open spec fn nonempty_trims(parts: Seq<Seq<char>>) -> Seq<Seq<char>>
    decreases parts.len(),
{
    if parts.len() == 0 {
        seq![]
    } else {
        let t = trim(parts[0]);
        if t.len() > 0 {
            seq![t] + nonempty_trims(parts.drop_first())
        } else {
            nonempty_trims(parts.drop_first())
        }
    }
}

/// The technique list written after `Techniques=`.
pub open spec fn techniques_from_rest(rest: Seq<char>) -> Seq<Seq<char>> {
    nonempty_trims(split_of(rest, ','))
}

/// The first non-comment line starting with `Techniques=` decides.
pub open spec fn techniques_of_lines(ls: Seq<Seq<char>>) -> Seq<Seq<char>>
    decreases ls.len(),
{
    if ls.len() == 0 {
        seq![]
    } else {
        let t = trim(ls[0]);
        if !is_skipped(t) && has_prefix(t, "Techniques="@) {
            techniques_from_rest(t.skip("Techniques="@.len() as int))
        } else {
            techniques_of_lines(ls.drop_first())
        }
    }
}

/// Technique names of a preset INI.
pub open spec fn techniques_of(ini: Seq<char>) -> Seq<Seq<char>> {
    techniques_of_lines(lines_of(ini))
}

/// The effect name of a section, when it is an `.fx` section.
pub open spec fn section_name(t: Seq<char>) -> Seq<char> {
    trim_matches2(t, '[', ']')
}

/// `key=value` lines inside `[Name.fx]` sections, in order, as
/// `(Name, key, value)`; `section` is the current section name.
pub open spec fn params_of_lines(ls: Seq<Seq<char>>, section: Option<Seq<char>>) -> Seq<
    (Seq<char>, Seq<char>, Seq<char>),
>
    decreases ls.len(),
{
    if ls.len() == 0 {
        seq![]
    } else {
        let t = trim(ls[0]);
        let rest = ls.drop_first();
        if is_skipped(t) {
            params_of_lines(rest, section)
        } else if is_section_line(t) {
            params_of_lines(rest, Some(section_name(t)))
        } else {
            match split_once_of(t, '=') {
                Some((k, v)) => match section {
                    Some(e) => if has_suffix(e, ".fx"@) {
                        seq![(trim_end_matches(e, ".fx"@), trim(k), trim(v))] + params_of_lines(
                            rest,
                            section,
                        )
                    } else {
                        params_of_lines(rest, section)
                    },
                    None => params_of_lines(rest, section),
                },
                None => params_of_lines(rest, section),
            }
        }
    }
}

/// Effect parameters of a preset INI.
pub open spec fn params_of(ini: Seq<char>) -> Seq<(Seq<char>, Seq<char>, Seq<char>)> {
    params_of_lines(lines_of(ini), None)
}

// ---------------------------------------------------------------------------
// Executable code
// ---------------------------------------------------------------------------
fn info(id: &str, name: &str, description: &str) -> (r: ReShadePresetInfo)
    ensures
        r.id@ == id@,
        r.name@ == name@,
        r.description@ == description@,
        !r.author,
{
    ReShadePresetInfo {
        id: owned(id),
        name: owned(name),
        description: owned(description),
        author: false,
    }
}

/// The built-in presets: performance, clarity, cinematic.
pub fn list_presets() -> (r: Vec<ReShadePresetInfo>)
    ensures
        preset_info_ids(r@) == builtin_preset_ids(),
        pinfo_views(r@) == builtin_infos(),
        forall|i: int| 0 <= i < r@.len() ==> !(#[trigger] r@[i]).author,
{
    let mut r: Vec<ReShadePresetInfo> = Vec::new();
    r.push(
        info(
            "performance",
            "Performance",
            "Лёгкое повышение резкости без тяжёлых эффектов — минимум нагрузки на GPU.",
        ),
    );
    r.push(info("clarity", "Clarity", "Баланс чёткости и контраста для повседневной игры."));
    r.push(
        info(
            "cinematic",
            "Cinematic",
            "Мягкая цветокоррекция и виньетка — чуть кинематографичнее картинка.",
        ),
    );
    assert(preset_info_ids(r@) =~= builtin_preset_ids());
    assert(pinfo_views(r@) =~= builtin_infos());
    r
}

/// Whether `id` names a built-in preset.
pub fn preset_exists(id: &str) -> (r: bool)
    ensures
        r == builtin_preset_ids().contains(id@),
{
    let list = list_presets();
    let mut i: usize = 0;
    while i < list.len()
        invariant
            i <= list.len(),
            preset_info_ids(list@) == builtin_preset_ids(),
            forall|j: int| 0 <= j < i ==> builtin_preset_ids()[j] != id@,
        decreases list.len() - i,
    {
        if str_eq(list[i].id.as_str(), id) {
            assert(builtin_preset_ids()[i as int] == id@);
            return true;
        }
        i += 1;
    }
    false
}

fn trimmed_pieces(parts: &Vec<Vec<char>>) -> (r: Vec<String>)
    ensures
        str_views(r@) == nonempty_trims(views(parts@)),
{
    let mut out: Vec<String> = Vec::new();
    let mut i: usize = 0;
    assert(views(parts@).skip(0) =~= views(parts@));
    while i < parts.len()
        invariant
            i <= parts.len(),
            nonempty_trims(views(parts@)) == str_views(out@) + nonempty_trims(
                views(parts@).skip(i as int),
            ),
        decreases parts.len() - i,
    {
        let t = trim_vec(&parts[i]);
        let ghost rest = views(parts@).skip(i as int);
        assert(rest[0] == parts@[i as int]@);
        assert(rest.drop_first() =~= views(parts@).skip(i + 1));
        if t.len() > 0 {
            let s = string_of(&t);
            assert(str_views(out@.push(s)) =~= str_views(out@) + seq![t@]);
            out.push(s);
        }
        i += 1;
    }
    assert(views(parts@).skip(parts.len() as int) =~= Seq::<Seq<char>>::empty());
    assert(str_views(out@) + seq![] =~= str_views(out@));
    out
}

fn techniques_from_rest_exec(rest: &Vec<char>) -> (r: Vec<String>)
    ensures
        str_views(r@) == techniques_from_rest(rest@),
{
    let parts = split_vec(rest, ',');
    trimmed_pieces(&parts)
}

/// Techniques listed on the first `Techniques=` line (comments skipped).
pub fn parse_techniques(ini: &str) -> (r: Vec<String>)
    ensures
        str_views(r@) == techniques_of(ini@),
{
    let v = chars_of(ini);
    let ls = lines_vec(&v);
    let key = chars_of("Techniques=");
    let mut i: usize = 0;
    assert(views(ls@).skip(0) =~= views(ls@));
    while i < ls.len()
        invariant
            i <= ls.len(),
            key@ == "Techniques="@,
            techniques_of(ini@) == techniques_of_lines(views(ls@).skip(i as int)),
            views(ls@) == lines_of(v@),
            v@ == ini@,
        decreases ls.len() - i,
    {
        let t = trim_vec(&ls[i]);
        let ghost rest = views(ls@).skip(i as int);
        assert(rest[0] == ls@[i as int]@);
        assert(rest.drop_first() =~= views(ls@).skip(i + 1));
        if !(t.len() == 0 || t[0] == ';') && starts_with(&t, &key) {
            let r = subvec(&t, key.len(), t.len());
            assert(r@ =~= t@.skip(key@.len() as int));
            return techniques_from_rest_exec(&r);
        }
        i += 1;
    }
    Vec::new()
}

/// Parameters (`key=value`) of `[Effect.fx]` sections, in file order.
pub fn parse_parameters(ini: &str) -> (r: Vec<PresetParameter>)
    ensures
        param_views(r@) == params_of(ini@),
{
    let v = chars_of(ini);
    let ls = lines_vec(&v);
    let fx = chars_of(".fx");
    proof {
        reveal_strlit(".fx");
    }
    assert(fx.len() == 3);
    let mut section: Option<Vec<char>> = None;
    let mut out: Vec<PresetParameter> = Vec::new();
    let mut i: usize = 0;
    assert(views(ls@).skip(0) =~= views(ls@));
    assert(param_views(out@) =~= seq![]);
    while i < ls.len()
        invariant
            i <= ls.len(),
            fx@ == ".fx"@,
            fx.len() == 3,
            params_of(ini@) == param_views(out@) + params_of_lines(
                views(ls@).skip(i as int),
                opt_view(section),
            ),
            views(ls@) == lines_of(v@),
            v@ == ini@,
        decreases ls.len() - i,
    {
        let t = trim_vec(&ls[i]);
        let ghost rest = views(ls@).skip(i as int);
        assert(rest[0] == ls@[i as int]@);
        assert(rest.drop_first() =~= views(ls@).skip(i + 1));
        if t.len() == 0 || t[0] == ';' {
        } else if t[0] == '[' && t[t.len() - 1] == ']' {
            let name = trim_matches2_vec(&t, '[', ']');
            section = Some(name);
        } else {
            match split_once_vec(&t, '=') {
                Some((k, val)) => {
                    match &section {
                        Some(e) => {
                            if ends_with(e, &fx) {
                                let eff = trim_end_matches_vec(e, &fx);
                                let kk = trim_vec(&k);
                                let vv = trim_vec(&val);
                                let p = PresetParameter {
                                    effect: string_of(&eff),
                                    key: string_of(&kk),
                                    value: string_of(&vv),
                                };
                                proof {
                                    assert(param_views(out@.push(p)) =~= param_views(out@) + seq![
                                        p@,
                                    ]);
                                }
                                out.push(p);
                            }
                        },
                        None => {},
                    }
                },
                None => {},
            }
        }
        proof {
            assert(params_of(ini@) == param_views(out@) + params_of_lines(
                views(ls@).skip(i + 1),
                opt_view(section),
            ));
        }
        i += 1;
    }
    assert(views(ls@).skip(ls.len() as int) =~= Seq::<Seq<char>>::empty());
    assert(param_views(out@) + seq![] =~= param_views(out@));
    out
}

/// Directory of the ReShade bundle under a resource root.
pub fn reshade_bundle_dir(resource_root: &str) -> (r: String)
    ensures
        r@ == crate::paths::join_spec(resource_root@, "presets/reshade"@),
{
    crate::paths::join(resource_root, "presets/reshade")
}

/// Where a built-in preset's INI is in the bundle, for a known preset.
pub fn preset_ini_path(bundle_dir: &str, preset_id: &str) -> (r: Result<String, String>)
    ensures
        builtin_preset_ids().contains(preset_id@) ==> (r matches Ok(p) && p@
            == crate::paths::join_spec(
            crate::paths::join_spec(crate::paths::join_spec(bundle_dir@, "presets"@), preset_id@),
            "ReShade.ini"@,
        )),
        !builtin_preset_ids().contains(preset_id@) ==> (r matches Err(m) && m@
            == "Неизвестный пресет ReShade: "@ + preset_id@),
{
    if !preset_exists(preset_id) {
        let mut m = chars_of("Неизвестный пресет ReShade: ");
        crate::text::append_str(&mut m, preset_id);
        return Err(string_of(&m));
    }
    let a = crate::paths::join(bundle_dir, "presets");
    let b = crate::paths::join(a.as_str(), preset_id);
    Ok(crate::paths::join(b.as_str(), "ReShade.ini"))
}

/// A file in the bundle's `bin` directory.
pub fn bundled_file(bundle_dir: &str, name: &str) -> (r: String)
    ensures
        r@ == crate::paths::join_spec(crate::paths::join_spec(bundle_dir@, "bin"@), name@),
{
    let b = crate::paths::join(bundle_dir, "bin");
    crate::paths::join(b.as_str(), name)
}

/// The base `ReShade.ini` in the bundle.
pub fn base_ini_path(bundle_dir: &str) -> (r: String)
    ensures
        r@ == crate::paths::join_spec(crate::paths::join_spec(bundle_dir@, "bin"@), "ReShade.ini"@),
{
    bundled_file(bundle_dir, "ReShade.ini")
}

/// The shader pack shipped with the bundle.
pub fn bundled_shaders_dir(bundle_dir: &str) -> (r: String)
    ensures
        r@ == crate::paths::join_spec(bundle_dir@, "shaders"@),
{
    crate::paths::join(bundle_dir, "shaders")
}

/// The effects directory of the bundled shaders.
pub fn bundled_shaders_effects_dir(bundle_dir: &str) -> (r: String)
    ensures
        r@ == crate::paths::join_spec(crate::paths::join_spec(bundle_dir@, "shaders"@), "Shaders"@),
{
    let b = bundled_shaders_dir(bundle_dir);
    crate::paths::join(b.as_str(), "Shaders")
}

/// A directory entry whose extension is `fx` (`x.fx`; a bare `.fx` has no
/// extension).
pub open spec fn is_fx_name(name: Seq<char>) -> bool {
    name.len() > 3 && has_suffix(name, ".fx"@)
}

/// Shaders are available when the effects directory exists and holds at
/// least one `.fx` entry (`entry_names` are its direct entries).
pub fn shaders_available_in_bundle(effects_is_dir: bool, entry_names: &Vec<String>) -> (r: bool)
    ensures
        r == (effects_is_dir && exists|i: int|
            0 <= i < entry_names.len() && is_fx_name((#[trigger] entry_names@[i])@)),
{
    if !effects_is_dir {
        return false;
    }
    let fx = chars_of(".fx");
    proof {
        reveal_strlit(".fx");
    }
    let mut i: usize = 0;
    while i < entry_names.len()
        invariant
            i <= entry_names.len(),
            effects_is_dir,
            fx@ == ".fx"@,
            forall|k: int| 0 <= k < i ==> !is_fx_name((#[trigger] entry_names@[k])@),
        decreases entry_names.len() - i,
    {
        let n = chars_of(entry_names[i].as_str());
        if n.len() > 3 && ends_with(&n, &fx) {
            assert(is_fx_name(entry_names@[i as int]@));
            return true;
        }
        i += 1;
    }
    false
}

/// The fingerprint of the shipped shaders: `<count>:<bytes>` of the `.fx`
/// files anywhere under the effects directory (`fx_count`, `fx_bytes`,
/// nested folders included), given only when shaders are available (see
/// `shaders_available_in_bundle`: the directory's own entries hold a `.fx`
/// file, which the count then includes). `None` otherwise.
pub fn shaders_bundle_fingerprint(
    effects_is_dir: bool,
    entry_names: &Vec<String>,
    fx_count: u64,
    fx_bytes: u64,
) -> (r: Option<String>)
    ensures
        ({
            let available = effects_is_dir && exists|i: int|
                0 <= i < entry_names.len() && is_fx_name((#[trigger] entry_names@[i])@);
            &&& r is Some <==> (available && fx_count > 0)
            &&& r matches Some(s) ==> s@ == crate::text::dec_string(fx_count as nat) + ":"@
                + crate::text::dec_string(fx_bytes as nat)
        }),
{
    if !shaders_available_in_bundle(effects_is_dir, entry_names) || fx_count == 0 {
        return None;
    }
    let mut m = crate::text::dec_vec(fx_count);
    m.push(':');
    let b = crate::text::dec_vec(fx_bytes);
    append_all(&mut m, &b);
    assert(m@ =~= crate::text::dec_string(fx_count as nat) + ":"@ + crate::text::dec_string(
        fx_bytes as nat,
    )) by {
        reveal_strlit(":");
    }
    Some(string_of(&m))
}

/// The shader files (`<technique>.fx`) a preset needs.
pub open spec fn required_shaders(ini: Seq<char>) -> Seq<Seq<char>> {
    techniques_of(ini).map_values(|t: Seq<char>| t + ".fx"@)
}

pub fn required_shader_files_for(ini: &str) -> (r: Vec<String>)
    ensures
        str_views(r@) == required_shaders(ini@),
{
    let ts = parse_techniques(ini);
    let mut out: Vec<String> = Vec::new();
    let mut i: usize = 0;
    while i < ts.len()
        invariant
            i <= ts.len(),
            str_views(ts@) == techniques_of(ini@),
            str_views(out@) == required_shaders(ini@).take(i as int),
        decreases ts.len() - i,
    {
        let mut v = chars_of(ts[i].as_str());
        crate::text::append_str(&mut v, ".fx");
        let f = string_of(&v);
        proof {
            crate::text::lemma_str_views_push(out@, f);
        }
        out.push(f);
        assert(str_views(out@) =~= required_shaders(ini@).take(i + 1));
        i += 1;
    }
    assert(required_shaders(ini@).take(i as int) =~= required_shaders(ini@));
    out
}

/// A preset's shaders are ready when it needs none, or the bundle has
/// shaders and every needed file is among `effects` (the files of the
/// effects directory).
pub open spec fn shaders_ready(required: Seq<Seq<char>>, bundle_has_shaders: bool, effects: Seq<String>) -> bool {
    required.len() == 0 || (bundle_has_shaders && forall|i: int|
        0 <= i < required.len() ==> crate::known_games::any_eq(effects, #[trigger] required[i]))
}

pub fn preset_shaders_ready_for(ini: &str, bundle_has_shaders: bool, effects: &Vec<String>) -> (r: bool)
    ensures
        r == shaders_ready(required_shaders(ini@), bundle_has_shaders, effects@),
{
    let required = required_shader_files_for(ini);
    if required.len() == 0 {
        return true;
    }
    if !bundle_has_shaders {
        return false;
    }
    let mut i: usize = 0;
    while i < required.len()
        invariant
            i <= required.len(),
            str_views(required@) == required_shaders(ini@),
            forall|k: int|
                0 <= k < i ==> crate::known_games::any_eq(effects@, #[trigger] required_shaders(ini@)[k]),
        decreases required.len() - i,
    {
        let c = chars_of(required[i].as_str());
        assert(str_views(required@)[i as int] == required@[i as int]@);
        if !crate::known_games::list_has(effects, &c) {
            return false;
        }
        i += 1;
    }
    true
}

/// A preset's details from its INI text.
pub fn preset_details(preset_id: &str, ini: &str, shaders_available: bool) -> (r: PresetDetails)
    ensures
        r.id@ == preset_id@,
        str_views(r.techniques@) == techniques_of(ini@),
        param_views(r.parameters@) == params_of(ini@),
        r.shaders_available == shaders_available,
{
    PresetDetails {
        id: owned(preset_id),
        techniques: parse_techniques(ini),
        parameters: parse_parameters(ini),
        shaders_available,
    }
}

} // verus!
