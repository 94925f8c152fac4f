//! Checks on the ReShade binaries shipped with the application and on the
//! proxies installed into games.
use vstd::prelude::*;
use crate::remote_presets::sync::{hex_of, hex_sha256, sha256_of};
use crate::text::{chars_of, eq_ic, eq_ignore_case, has_suffix, lower, lower_vec, trim, trim_str};

verus! {

/// Minimum size of a real ReShade addon DLL (development stubs are the
/// two bytes `MZ`).
pub const MIN_RESHADE_DLL_BYTES: u64 = 65536;

/// What is known of a file on disk.
#[derive(Debug, Clone)]
pub struct FileFacts {
    pub is_file: bool,
    pub size: u64,
    /// Its first two bytes are `MZ`.
    pub mz_header: bool,
    /// Its content, when it could be read as UTF-8 text.
    pub text: Option<String>,
}

/// Why a shipped file was refused.
#[derive(Debug, Clone, PartialEq, Eq)]
pub enum BundleError {
    NotFound(String),
    StubDll(String, u64),
    CorruptJson(String),
    HashMismatch(String, String, String),
}

/// The `layer.name` string of a JSON document, if the text is JSON and has
/// one.
pub uninterp spec fn json_layer_name(raw: Seq<char>) -> Option<Seq<char>>;

/// Calls `serde_json::from_str::<serde_json::Value>` and reads
/// `layer` → `name` as a string. Claimed: the result depends on the text
/// alone (named `json_layer_name`); nothing of JSON syntax is stated.
#[verifier::external_body]
fn layer_name_of(raw: &str) -> (r: Option<String>)
    ensures
        match r {
            Some(s) => json_layer_name(raw@) == Some(s@),
            None => json_layer_name(raw@) is None,
        },
{
    let v: serde_json::Value = match serde_json::from_str(raw) {
        Ok(v) => v,
        Err(_) => return None,
    };
    v.get("layer").and_then(|l| l.get("name")).and_then(|n| n.as_str()).map(|s| s.to_string())
}

pub open spec fn dll_ok(f: FileFacts) -> bool {
    f.is_file && f.size >= MIN_RESHADE_DLL_BYTES && f.mz_header
}

/// A Vulkan layer manifest: JSON whose `layer.name` is not blank.
pub open spec fn json_ok(f: FileFacts) -> bool {
    f.is_file && f.text is Some && match json_layer_name(f.text->0@) {
        Some(n) => trim(n).len() > 0,
        None => false,
    }
}

/// A real ReShade DLL: a file of at least the minimum size starting with
/// `MZ`.
pub fn is_valid_reshade_dll(f: &FileFacts) -> (r: bool)
    ensures
        r == dll_ok(*f),
{
    f.is_file && f.size >= MIN_RESHADE_DLL_BYTES && f.mz_header
}

pub fn is_valid_bundled_json(f: &FileFacts) -> (r: bool)
    ensures
        r == json_ok(*f),
{
    if !f.is_file {
        return false;
    }
    match &f.text {
        None => false,
        Some(t) => match layer_name_of(t.as_str()) {
            Some(n) => trim_str(n.as_str()).len() > 0,
            None => false,
        },
    }
}

/// A file checked by its name: `.dll` files must be real DLLs, `.json`
/// files layer manifests, anything else only has to exist.
pub open spec fn file_ok(name: Seq<char>, f: FileFacts) -> bool {
    f.is_file && if has_suffix(lower(name), ".dll"@) {
        dll_ok(f)
    } else if has_suffix(lower(name), ".json"@) {
        json_ok(f)
    } else {
        true
    }
}

pub fn is_valid_bundled_file(name: &str, f: &FileFacts) -> (r: bool)
    ensures
        r == file_ok(name@, *f),
{
    if !f.is_file {
        return false;
    }
    let l = lower_vec(&chars_of(name));
    if crate::text::ends_with_str(&l, ".dll") {
        return is_valid_reshade_dll(f);
    }
    if crate::text::ends_with_str(&l, ".json") {
        return is_valid_bundled_json(f);
    }
    true
}

/// An installed proxy, checked by its file name the same way.
pub fn is_installed_proxy_valid(file_name: &str, f: &FileFacts) -> (r: bool)
    ensures
        r == file_ok(file_name@, *f),
{
    is_valid_bundled_file(file_name, f)
}

/// The pinned digest of the first listed file whose name matches `name`
/// ignoring ASCII case.
pub open spec fn pinned_spec(hashes: Seq<(String, String)>, name: Seq<char>) -> Option<Seq<char>>
    decreases hashes.len(),
{
    if hashes.len() == 0 {
        None
    } else if eq_ic(hashes[0].0@, name) {
        Some(hashes[0].1@)
    } else {
        pinned_spec(hashes.drop_first(), name)
    }
}

/// The pinned SHA-256 of a shipped file, from `(name, digest)` pairs in
/// name order.
pub fn pinned_hash_for(hashes: &Vec<(String, String)>, name: &str) -> (r: Option<String>)
    ensures
        crate::known_games::opt_sv(r) == pinned_spec(hashes@, name@),
{
    let nv = chars_of(name);
    let mut i: usize = 0;
    assert(hashes@.skip(0) =~= hashes@);
    while i < hashes.len()
        invariant
            i <= hashes.len(),
            nv@ == name@,
            pinned_spec(hashes@, name@) == pinned_spec(hashes@.skip(i as int), name@),
        decreases hashes.len() - i,
    {
        let ghost rest = hashes@.skip(i as int);
        assert(rest[0] == hashes@[i as int]);
        assert(rest.drop_first() =~= hashes@.skip(i + 1));
        let kv = chars_of(hashes[i].0.as_str());
        if eq_ignore_case(&kv, &nv) {
            return Some(crate::text::owned(hashes[i].1.as_str()));
        }
        i += 1;
    }
    assert(hashes@.skip(i as int) =~= Seq::<(String, String)>::empty());
    None
}

/// What checking a shipped file reports: missing, a stub DLL, a broken
/// layer manifest, or content whose digest differs (ignoring ASCII case)
/// from the pinned one.
pub open spec fn bundled_file_error(
    name: Seq<char>,
    f: FileFacts,
    hashes: Seq<(String, String)>,
    data: Seq<u8>,
) -> Option<u8> {
    if !f.is_file {
        Some(0u8)
    } else if has_suffix(lower(name), ".dll"@) && !dll_ok(f) {
        Some(1u8)
    } else if has_suffix(lower(name), ".json"@) && !json_ok(f) {
        Some(2u8)
    } else if pinned_spec(hashes, name) is Some && !eq_ic(
        hex_of(sha256_of(data)),
        pinned_spec(hashes, name)->0,
    ) {
        Some(3u8)
    } else {
        None
    }
}

pub open spec fn bundle_error_kind(e: BundleError) -> u8 {
    match e {
        BundleError::NotFound(_) => 0,
        BundleError::StubDll(_, _) => 1,
        BundleError::CorruptJson(_) => 2,
        BundleError::HashMismatch(_, _, _) => 3,
    }
}

/// Checks a shipped file before it is installed; `data` is its content.
pub fn validate_bundled_file(
    name: &str,
    f: &FileFacts,
    hashes: &Vec<(String, String)>,
    data: &[u8],
) -> (r: Result<(), BundleError>)
    ensures
        match bundled_file_error(name@, *f, hashes@, data@) {
            None => r is Ok,
            Some(k) => r matches Err(e) && bundle_error_kind(e) == k,
        },
        r matches Err(BundleError::NotFound(n)) ==> n@ == name@,
        r matches Err(BundleError::StubDll(n, size)) ==> n@ == name@ && size == f.size,
        r matches Err(BundleError::CorruptJson(n)) ==> n@ == name@,
        r matches Err(BundleError::HashMismatch(n, x, a)) ==> n@ == name@ && Some(x@)
            == pinned_spec(hashes@, name@) && a@ == hex_of(sha256_of(data@)),
{
    if !f.is_file {
        return Err(BundleError::NotFound(crate::text::owned(name)));
    }
    let l = lower_vec(&chars_of(name));
    if crate::text::ends_with_str(&l, ".dll") && !is_valid_reshade_dll(f) {
        return Err(BundleError::StubDll(crate::text::owned(name), f.size));
    }
    if crate::text::ends_with_str(&l, ".json") && !is_valid_bundled_json(f) {
        return Err(BundleError::CorruptJson(crate::text::owned(name)));
    }
    match pinned_hash_for(hashes, name) {
        Some(expected) => {
            let actual = hex_sha256(data);
            let av = chars_of(actual.as_str());
            let ev = chars_of(expected.as_str());
            if !eq_ignore_case(&av, &ev) {
                return Err(BundleError::HashMismatch(crate::text::owned(name), expected, actual));
            }
        },
        None => {},
    }
    Ok(())
}

} // verus!
