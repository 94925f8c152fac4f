//! The decisions of removing ReShade from a game directory: which proxies
//! to take away (never a game's own DLLs), when the Vulkan layer is
//! involved, and the messages shown.
use vstd::prelude::*;
use crate::known_games::any_eq;
use crate::reshade::api::{all_apis, api_files, api_id, strs_view, GraphicsApi};
use crate::reshade::detect::{marker_files, InstallMarker};
use crate::reshade::install::join_texts;
use crate::paths::join_spec;
use crate::text::{append_str, chars_of, contains, dec_string, eq_ic, join, str_views, string_of};

verus! {

#[derive(Debug, Clone)]
pub struct RemoveResult {
    pub target_dir: String,
    pub restored_files: Vec<String>,
    pub removed_files: Vec<String>,
    pub warnings: Vec<String>,
}

/// The proxy file names of every API, in API order.
pub open spec fn all_proxy_names() -> Seq<Seq<char>> {
    api_files(GraphicsApi::Dx9) + api_files(GraphicsApi::Dx11) + api_files(GraphicsApi::Dx12)
        + api_files(GraphicsApi::OpenGL) + api_files(GraphicsApi::Vulkan)
}

/// The names of `xs` that are among `ys`, in order.
pub open spec fn names_among(xs: Seq<Seq<char>>, ys: Seq<String>) -> Seq<Seq<char>>
    decreases xs.len(),
{
    if xs.len() == 0 {
        seq![]
    } else if any_eq(ys, xs.last()) {
        names_among(xs.drop_last(), ys).push(xs.last())
    } else {
        names_among(xs.drop_last(), ys)
    }
}

fn keep_among(xs: &Vec<String>, ys: &Vec<String>) -> (r: Vec<String>)
    ensures
        str_views(r@) == names_among(str_views(xs@), ys@),
{
    let ghost v = str_views(xs@);
    let mut out: Vec<String> = Vec::new();
    let mut i: usize = 0;
    while i < xs.len()
        invariant
            i <= xs.len(),
            v == str_views(xs@),
            str_views(out@) == names_among(v.take(i as int), ys@),
        decreases xs.len() - i,
    {
        assert(v.take(i + 1).drop_last() =~= v.take(i as int));
        assert(v.take(i + 1).last() == xs@[i as int]@);
        let c = chars_of(xs[i].as_str());
        if crate::known_games::list_has(ys, &c) {
            proof {
                crate::text::lemma_str_views_push(out@, xs@[i as int]);
            }
            out.push(xs[i].clone());
        }
        i += 1;
    }
    assert(v.take(i as int) =~= v);
    out
}

fn all_proxy_file_names() -> (r: Vec<String>)
    ensures
        str_views(r@) == all_proxy_names(),
{
    let mut out: Vec<String> = Vec::new();
    let apis = GraphicsApi::all();
    let mut i: usize = 0;
    while i < apis.len()
        invariant
            i <= apis.len(),
            apis@ == all_apis(),
            str_views(out@) == proxy_names_upto(i as int),
        decreases apis.len() - i,
    {
        let names = crate::reshade::install::installed_file_names(apis[i]);
        let ghost before = out@;
        let mut j: usize = 0;
        while j < names.len()
            invariant
                j <= names.len(),
                str_views(names@) == api_files(all_apis()[i as int]),
                out@ == before + names@.take(j as int),
            decreases names.len() - j,
        {
            out.push(names[j].clone());
            assert(out@ =~= before + names@.take(j + 1));
            j += 1;
        }
        assert(names@.take(j as int) =~= names@);
        assert(str_views(before + names@) =~= str_views(before) + str_views(names@));
        i += 1;
    }
    assert(proxy_names_upto(5) =~= all_proxy_names()) by {
        reveal_with_fuel(proxy_names_upto, 6);
    }
    out
}

/// The proxy names of the first `n` APIs.
pub open spec fn proxy_names_upto(n: int) -> Seq<Seq<char>>
    decreases n,
{
    if n <= 0 {
        seq![]
    } else {
        proxy_names_upto(n - 1) + api_files(all_apis()[n - 1])
    }
}

/// The known proxy files present in a game directory (`existing` lists the
/// names that exist there), in API order.
pub fn known_proxy_files_present(existing: &Vec<String>) -> (r: Vec<String>)
    ensures
        str_views(r@) == names_among(all_proxy_names(), existing@),
{
    let all = all_proxy_file_names();
    keep_among(&all, existing)
}

/// Some known proxy present in the directory fails the proxy check
/// (`valid` lists the names that pass it).
pub fn broken_proxy_files_present(present: &Vec<String>, valid: &Vec<String>) -> (r: bool)
    ensures
        r == exists|i: int| 0 <= i < present@.len() && !any_eq(valid@, (#[trigger] present@[i])@),
{
    let mut i: usize = 0;
    while i < present.len()
        invariant
            i <= present.len(),
            forall|k: int| 0 <= k < i ==> any_eq(valid@, (#[trigger] present@[k])@),
        decreases present.len() - i,
    {
        let c = chars_of(present[i].as_str());
        if !crate::known_games::list_has(valid, &c) {
            return true;
        }
        i += 1;
    }
    false
}

/// GSM has left traces in the directory: a marker or a backup directory.
pub fn gsm_managed_proxy_artifacts(marker_present: bool, backup_is_dir: bool) -> (r: bool)
    ensures
        r == (marker_present || backup_is_dir),
{
    marker_present || backup_is_dir
}

/// The proxies removal takes away: the marker's; without a marker, the
/// known proxies present when GSM left a backup; otherwise only those that
/// are valid ReShade proxies (a game's own DLLs stay).
pub open spec fn removal_files(
    marker: Option<InstallMarker>,
    present: Seq<Seq<char>>,
    valid: Seq<String>,
    has_backup: bool,
) -> Seq<Seq<char>> {
    match marker {
        Some(m) => marker_files(m),
        None => if has_backup {
            present
        } else {
            names_among(present, valid)
        },
    }
}

pub fn proxy_files_to_remove(
    marker: Option<&InstallMarker>,
    present: Vec<String>,
    valid: &Vec<String>,
    has_backup: bool,
) -> (r: Vec<String>)
    ensures
        str_views(r@) == removal_files(
            match marker {
                Some(m) => Some(*m),
                None => None,
            },
            str_views(present@),
            valid@,
            has_backup,
        ),
{
    match marker {
        Some(m) => m.files(),
        None => if has_backup {
            present
        } else {
            keep_among(&present, valid)
        },
    }
}

/// Removal touches the Vulkan layer for a Vulkan marker, a layer manifest
/// in the directory, or a layer manifest among the files removed.
pub fn touches_vulkan(marker: Option<&InstallMarker>, vulkan_json_is_file: bool, files: &Vec<String>) -> (r:
    bool)
    ensures
        r == ((marker is Some && marker->0.graphics_api@ == api_id(GraphicsApi::Vulkan))
            || vulkan_json_is_file || any_eq(files@, "ReShade64.json"@)),
{
    let vk = match marker {
        Some(m) => crate::text::str_eq(m.graphics_api.as_str(), GraphicsApi::Vulkan.as_str()),
        None => false,
    };
    if vk || vulkan_json_is_file {
        return true;
    }
    let c = chars_of("ReShade64.json");
    crate::known_games::list_has(files, &c)
}

/// The warning when the Vulkan layer could not be unregistered.
pub fn vulkan_unregister_warning(err: &str) -> (r: String)
    ensures
        r@ == "Не удалось снять регистрацию Vulkan-слоя ReShade в реестре: "@ + err@
            + ". Файлы proxy всё равно удалены. Если игра на Vulkan не запускается — запустите GSM от администратора и нажмите «Удалить» ещё раз."@,
{
    let mut m = chars_of("Не удалось снять регистрацию Vulkan-слоя ReShade в реестре: ");
    append_str(&mut m, err);
    append_str(
        &mut m,
        ". Файлы proxy всё равно удалены. Если игра на Vulkan не запускается — запустите GSM от администратора и нажмите «Удалить» ещё раз.",
    );
    string_of(&m)
}

/// The error when proxies are still there after removal.
pub fn incomplete_removal_message(left: &Vec<String>) -> (r: String)
    ensures
        r@ == "Не удалось полностью удалить proxy ReShade: "@ + join(str_views(left@), ", "@),
{
    let mut m = chars_of("Не удалось полностью удалить proxy ReShade: ");
    let j = join_texts(left, ", ");
    append_str(&mut m, j.as_str());
    string_of(&m)
}

/// The name a locked proxy is moved aside to.
pub fn renamed_aside_name(file_name: &str, millis: u64) -> (r: String)
    ensures
        r@ == file_name@ + ".gsm-removed-"@ + dec_string(millis as nat),
{
    let mut m = chars_of(file_name);
    append_str(&mut m, ".gsm-removed-");
    let d = crate::text::dec_vec(millis);
    crate::text::append_all(&mut m, &d);
    string_of(&m)
}

/// Whether a file is a proxy moved aside earlier.
pub fn is_renamed_aside(file_name: &str) -> (r: bool)
    ensures
        r == contains(file_name@, ".gsm-removed-"@),
{
    let v = chars_of(file_name);
    crate::text::contains_str(&v, ".gsm-removed-")
}

/// The values to delete when unregistering the Vulkan layer: the
/// canonical path (when it could be had), and the raw path unless it
/// equals one already listed ignoring ASCII case.
pub fn unregister_candidates(canonical: Option<String>, raw: String) -> (r: Vec<String>)
    ensures
        match canonical {
            Some(c) => if eq_ic(c@, raw@) {
                r@ == seq![c]
            } else {
                r@ == seq![c, raw]
            },
            None => r@ == seq![raw],
        },
{
    let mut out: Vec<String> = Vec::new();
    match canonical {
        Some(c) => {
            let same = crate::text::eq_ignore_case(&chars_of(c.as_str()), &chars_of(raw.as_str()));
            out.push(c);
            if !same {
                out.push(raw);
            }
        },
        None => out.push(raw),
    }
    out
}


// ---------------------------------------------------------------------------
// What removal touches
// ---------------------------------------------------------------------------
/// The proxies removal deletes (or restores from the backup), each with its
/// path under `target`: the files to remove that are safe marker names.
pub open spec fn proxy_removals(target: Seq<char>, files: Seq<Seq<char>>) -> Seq<(Seq<char>, Seq<char>)> {
    crate::reshade::detect::safe_names(files).map_values(|n: Seq<char>| (n, join_spec(target, n)))
}

/// The entries of the game directory that removal clears besides the
/// proxies.
pub open spec fn removal_fixed_names() -> Seq<Seq<char>> {
    seq!["ReShade.ini"@, ".gsm-reshade-installed.json"@, "reshade-shaders"@, ".gsm-reshade-backup"@]
}

/// Every path removal may delete, overwrite or restore.
pub open spec fn removal_touched_paths(target: Seq<char>, files: Seq<Seq<char>>) -> Seq<Seq<char>> {
    proxy_removals(target, files).map_values(|p: (Seq<char>, Seq<char>)| p.1)
        + removal_fixed_names().map_values(|n: Seq<char>| join_spec(target, n))
}

pub open spec fn pair_views(v: Seq<(String, String)>) -> Seq<(Seq<char>, Seq<char>)> {
    v.map_values(|p: (String, String)| (p.0@, p.1@))
}

/// The proxies removal deletes, with their paths (see `proxy_removals`).
pub fn proxy_removal_paths(target_dir: &str, files: &Vec<String>) -> (r: Vec<(String, String)>)
    ensures
        pair_views(r@) == proxy_removals(target_dir@, str_views(files@)),
{
    let mut out: Vec<(String, String)> = Vec::new();
    let mut i: usize = 0;
    while i < files.len()
        invariant
            i <= files.len(),
            pair_views(out@) == proxy_removals(target_dir@, str_views(files@).take(i as int)),
        decreases files.len() - i,
    {
        let ghost before = out@;
        let ghost t0 = str_views(files@).take(i as int);
        let ghost t1 = str_views(files@).take(i + 1);
        assert(t1.drop_last() =~= t0);
        assert(t1.last() == files@[i as int]@);
        if crate::reshade::detect::is_safe_marker_filename(files[i].as_str()) {
            let p = crate::paths::join(target_dir, files[i].as_str());
            out.push((files[i].clone(), p));
            assert(pair_views(out@) =~= pair_views(before).push((files@[i as int]@, p@)));
        }
        i += 1;
    }
    assert(str_views(files@).take(i as int) =~= str_views(files@));
    out
}

proof fn lemma_plain_literal(s: Seq<char>)
    requires
        s.len() > 0,
        forall|j: int| 0 <= j < s.len() ==> s[j] != '/' && s[j] != '\\',
        forall|j: int| 0 <= j < s.len() - 1 ==> !(#[trigger] s[j] == '.' && s[j + 1] == '.'),
    ensures
        s.len() > 0,
        !crate::text::has_char(s, '/'),
        !crate::text::has_char(s, '\\'),
        !contains(s, ".."@),
{
    reveal_strlit("..");
    if contains(s, ".."@) {
        let i = choose|i: int| crate::text::occurs_at(s, ".."@, i);
        assert(".."@ =~= seq!['.', '.']);
        let sub = s.subrange(i, i + 2);
        assert(sub == ".."@);
        assert(sub[0] == '.' && sub[1] == '.');
        assert(s[i] == sub[0] && s[i + 1] == sub[1]);
    }
}

proof fn lemma_fixed_names_plain()
    ensures
        forall|i: int|
            0 <= i < removal_fixed_names().len() ==> {
                let n = #[trigger] removal_fixed_names()[i];
                n.len() > 0 && !crate::text::has_char(n, '/') && !crate::text::has_char(n, '\\')
                    && !contains(n, ".."@)
            },
{
    reveal_strlit("ReShade.ini");
    assert("ReShade.ini"@ =~= seq!['R', 'e', 'S', 'h', 'a', 'd', 'e', '.', 'i', 'n', 'i']);
    lemma_plain_literal("ReShade.ini"@);
    reveal_strlit(".gsm-reshade-installed.json");
    assert(".gsm-reshade-installed.json"@ =~= seq!['.', 'g', 's', 'm', '-', 'r', 'e', 's', 'h', 'a', 'd', 'e', '-', 'i', 'n', 's', 't', 'a', 'l', 'l', 'e', 'd', '.', 'j', 's', 'o', 'n']);
    lemma_plain_literal(".gsm-reshade-installed.json"@);
    reveal_strlit("reshade-shaders");
    assert("reshade-shaders"@ =~= seq!['r', 'e', 's', 'h', 'a', 'd', 'e', '-', 's', 'h', 'a', 'd', 'e', 'r', 's']);
    lemma_plain_literal("reshade-shaders"@);
    reveal_strlit(".gsm-reshade-backup");
    assert(".gsm-reshade-backup"@ =~= seq!['.', 'g', 's', 'm', '-', 'r', 'e', 's', 'h', 'a', 'd', 'e', '-', 'b', 'a', 'c', 'k', 'u', 'p']);
    lemma_plain_literal(".gsm-reshade-backup"@);
}

/// `p` is `target` joined with some plain name.
pub open spec fn joined_plain(target: Seq<char>, p: Seq<char>) -> bool {
    exists|n: Seq<char>| #[trigger] plain_name(n) && p == join_spec(target, n)
}

/// The names of `removals` whose flag in `existed` is set, in order.
pub open spec fn existed_names(removals: Seq<(Seq<char>, Seq<char>)>, existed: Seq<bool>) -> Seq<Seq<char>>
    decreases removals.len(),
{
    if removals.len() == 0 {
        seq![]
    } else if existed.len() >= removals.len() && existed[removals.len() - 1] {
        existed_names(removals.drop_last(), existed).push(removals.last().0)
    } else {
        existed_names(removals.drop_last(), existed)
    }
}

/// A plain file name: not empty, no separator, no `..`.
pub open spec fn plain_name(n: Seq<char>) -> bool {
    n.len() > 0 && !crate::text::has_char(n, '/') && !crate::text::has_char(n, '\\') && !contains(
        n,
        ".."@,
    )
}

/// The names a removal reports as removed: the proxies that existed (in
/// order), then `ReShade.ini` and `reshade-shaders/` when they were removed.
pub open spec fn removed_report_spec(
    removals: Seq<(Seq<char>, Seq<char>)>,
    existed: Seq<bool>,
    ini_removed: bool,
    shaders_removed: bool,
) -> Seq<Seq<char>> {
    let proxies = existed_names(removals, existed);
    proxies + (if ini_removed {
        seq!["ReShade.ini"@]
    } else {
        seq![]
    }) + (if shaders_removed {
        seq!["reshade-shaders/"@]
    } else {
        seq![]
    })
}

/// The names a removal reports (see `removed_report_spec`); `existed[i]`
/// says whether the file of `removals[i]` was there and was deleted.
pub fn removed_report(
    removals: &Vec<(String, String)>,
    existed: &Vec<bool>,
    ini_removed: bool,
    shaders_removed: bool,
) -> (r: Vec<String>)
    ensures
        str_views(r@) == removed_report_spec(pair_views(removals@), existed@, ini_removed, shaders_removed),
{
    let mut out: Vec<String> = Vec::new();
    let mut i: usize = 0;
    while i < removals.len()
        invariant
            i <= removals.len(),
            str_views(out@) == existed_names(pair_views(removals@).take(i as int), existed@),
        decreases removals.len() - i,
    {
        let ghost t1 = pair_views(removals@).take(i + 1);
        assert(t1.drop_last() =~= pair_views(removals@).take(i as int));
        if i < existed.len() && existed[i] {
            let ghost before = out@;
            out.push(removals[i].0.clone());
            assert(str_views(out@) =~= str_views(before).push(removals@[i as int].0@));
        }
        i += 1;
    }
    assert(pair_views(removals@).take(i as int) =~= pair_views(removals@));
    let ghost proxies = str_views(out@);
    if ini_removed {
        out.push(crate::text::owned("ReShade.ini"));
    }
    if shaders_removed {
        out.push(crate::text::owned("reshade-shaders/"));
    }
    proof {
        assert(str_views(out@) =~= removed_report_spec(
            pair_views(removals@),
            existed@,
            ini_removed,
            shaders_removed,
        ));
    }
    out
}

proof fn lemma_existed_names(removals: Seq<(Seq<char>, Seq<char>)>, existed: Seq<bool>)
    ensures
        forall|x: Seq<char>| #[trigger] existed_names(removals, existed).contains(x) ==> exists|i: int|
            0 <= i < removals.len() && (#[trigger] removals[i]).0 == x,
    decreases removals.len(),
{
    if removals.len() > 0 {
        let init = removals.drop_last();
        lemma_existed_names(init, existed);
        let r = existed_names(removals, existed);
        let r0 = existed_names(init, existed);
        assert forall|x: Seq<char>| #[trigger] r.contains(x) implies exists|i: int|
            0 <= i < removals.len() && (#[trigger] removals[i]).0 == x by {
            let k = choose|k: int| 0 <= k < r.len() && r[k] == x;
            if k < r0.len() {
                assert(r0[k] == x);
                assert(r0.contains(x));
                let i = choose|i: int| 0 <= i < init.len() && (#[trigger] init[i]).0 == x;
                assert(removals[i] == init[i]);
            } else {
                assert(removals[removals.len() - 1].0 == x);
            }
        }
    }
}

/// Law: removing ReShade touches only paths inside the game directory,
/// whatever the marker lists. Every path it deletes, overwrites or restores
/// is the directory joined with a plain name (so, for a directory without
/// `..`, lies within it); the proxies among them carry known proxy or layer
/// file names; the names it reports as removed are such proxies,
/// `ReShade.ini` or `reshade-shaders/`. With no marker and no backup, a
/// present proxy that fails the proxy check is not among the files removed.
pub proof fn removal_stays_within_target(
    target: Seq<char>,
    marker: Option<InstallMarker>,
    present: Seq<Seq<char>>,
    valid: Seq<String>,
    has_backup: bool,
    existed: Seq<bool>,
    ini_removed: bool,
    shaders_removed: bool,
)
    ensures
        ({
            let files = removal_files(marker, present, valid, has_backup);
            let touched = removal_touched_paths(target, files);
            let proxies = proxy_removals(target, files);
            let reported = removed_report_spec(proxies, existed, ini_removed, shaders_removed);
            &&& forall|i: int| 0 <= i < touched.len() ==> joined_plain(target, #[trigger] touched[i])
            &&& (target.len() > 0 && forall|j: int| !crate::paths::dotdot_at(target, j)) ==> forall|i: int|
                0 <= i < touched.len() ==> crate::safety::within_root(target, #[trigger] touched[i])
            &&& forall|i: int|
                0 <= i < proxies.len() ==> crate::reshade::api::known_install_file(
                    (#[trigger] proxies[i]).0,
                )
            &&& forall|i: int|
                0 <= i < reported.len() ==> crate::reshade::api::known_install_file(
                    #[trigger] reported[i],
                ) || reported[i] == "ReShade.ini"@ || reported[i] == "reshade-shaders/"@
            &&& (marker is None && !has_backup) ==> forall|i: int|
                0 <= i < present.len() && !any_eq(valid, #[trigger] present[i]) ==> !files.contains(
                    present[i],
                )
        }),
{
    let files = removal_files(marker, present, valid, has_backup);
    let safe = crate::reshade::detect::safe_names(files);
    crate::reshade::detect::lemma_safe_names(files);
    let proxies = proxy_removals(target, files);
    let touched = removal_touched_paths(target, files);
    let np = proxies.len() as int;
    lemma_fixed_names_plain();
    assert forall|i: int| 0 <= i < touched.len() implies joined_plain(target, #[trigger] touched[i]) by {
        if i < np {
            let n = safe[i];
            assert(crate::reshade::detect::safe_marker_name(n));
            assert(touched[i] == join_spec(target, n));
            assert(plain_name(n));
        } else {
            let n = removal_fixed_names()[i - np];
            assert(touched[i] == join_spec(target, n));
            assert(plain_name(n));
        }
    }
    if target.len() > 0 && forall|j: int| !crate::paths::dotdot_at(target, j) {
        assert forall|i: int| 0 <= i < touched.len() implies crate::safety::within_root(
            target,
            #[trigger] touched[i],
        ) by {
            assert(joined_plain(target, touched[i]));
            let n = choose|n: Seq<char>| #[trigger] plain_name(n) && touched[i] == join_spec(target, n);
            crate::safety::lemma_plain_name_within(target, n);
        }
    }
    assert forall|i: int| 0 <= i < proxies.len() implies crate::reshade::api::known_install_file(
        (#[trigger] proxies[i]).0,
    ) by {
        assert(proxies[i].0 == safe[i]);
        assert(crate::reshade::detect::safe_marker_name(safe[i]));
    }
    let reported = removed_report_spec(proxies, existed, ini_removed, shaders_removed);
    let en = existed_names(proxies, existed);
    lemma_existed_names(proxies, existed);
    assert forall|i: int| 0 <= i < reported.len() implies crate::reshade::api::known_install_file(
        #[trigger] reported[i],
    ) || reported[i] == "ReShade.ini"@ || reported[i] == "reshade-shaders/"@ by {
        if i < en.len() {
            assert(reported[i] == en[i]);
            assert(en.contains(en[i]));
            let k = choose|k: int| 0 <= k < proxies.len() && (#[trigger] proxies[k]).0 == en[i];
            assert(crate::reshade::detect::safe_marker_name(safe[k]));
        }
    }
    if marker is None && !has_backup {
        lemma_names_among_only(present, valid);
    }
}

/// What `names_among` keeps is among `ys`.
proof fn lemma_names_among_only(xs: Seq<Seq<char>>, ys: Seq<String>)
    ensures
        forall|x: Seq<char>| #[trigger] names_among(xs, ys).contains(x) ==> any_eq(ys, x),
    decreases xs.len(),
{
    if xs.len() > 0 {
        lemma_names_among_only(xs.drop_last(), ys);
        let r = names_among(xs, ys);
        let r0 = names_among(xs.drop_last(), ys);
        assert forall|x: Seq<char>| #[trigger] r.contains(x) implies any_eq(ys, x) by {
            let k = choose|k: int| 0 <= k < r.len() && r[k] == x;
            if any_eq(ys, xs.last()) {
                if k < r0.len() {
                    assert(r0[k] == x);
                    assert(r0.contains(x));
                }
            } else {
                assert(r0[k] == x);
                assert(r0.contains(x));
            }
        }
    }
}

} // verus!
