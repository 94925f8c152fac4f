//! The decisions of syncing preset packs from the server and from the copy
//! shipped with the application: URLs, limits, digests, and what to fetch,
//! keep or remove. Fetching, unpacking and writing happen around them.
use sha2::{Digest, Sha256};
use vstd::prelude::*;
use crate::known_games::any_eq;
use crate::remote_presets::config::{server_url_ok, validate_preset_server_url, PresetServerConfig};
use crate::remote_presets::manifest::{PackManifest, PresetCatalog};
use crate::safety::{is_safe_pack_id, safe_pack_id};
use crate::text::{
    append_all, chars_of, concat, dec_string, dec_vec, has_prefix, last_idx_of, last_index_of,
    starts_with_str, string_of, subvec, trim, trim_end_matches, trim_end_matches_vec,
    trim_start_char, trim_start_char_vec, trim_str,
};

verus! {

pub const MAX_DOWNLOAD_BYTES: usize = 52428800;

pub const MAX_EXTRACT_BYTES: usize = 209715200;

/// Why a sync step was refused.
#[derive(Debug, Clone, PartialEq, Eq)]
pub enum SyncError {
    ServerUrlMissing,
    InsecureServerUrl,
    InvalidPackId(String),
    AbsoluteManifestUrl,
    UnsafeManifestPath(String),
    UnsupportedCatalogSchema(u32),
    UnsupportedPackSchema(String, u32),
    PackHasNoBundle(String),
    UnsignedPack(String),
    HashMismatch(String, String, String),
    PackNotInCatalog(String),
    CatalogNotLoaded,
    BundledPackMissing(String),
    UnsupportedBundledPackSchema(String, u32),
    BundledPackHasNoBundle(String),
    UnsignedBundledPack(String),
    BundledHashMismatch(String, String, String),
    ExtractTooLarge,
    ResponseTooLarge(String),
    UnsafeRedirect(String, String),
}

/// The outcome of a sync.
#[derive(Debug, Clone)]
pub struct SyncReport {
    pub ok: bool,
    pub message: String,
    pub packs_synced: usize,
    pub catalog_version: Option<String>,
}

// ---------------------------------------------------------------------------
// Digests
// ---------------------------------------------------------------------------
/// The SHA-256 digest of a byte string.
pub uninterp spec fn sha256_of(data: Seq<u8>) -> Seq<u8>;

/// Calls sha2's `Sha256` (`new`, `update`, `finalize`). Claimed: the result
/// is the digest of `data` (a function of `data` alone, named `sha256_of`)
/// and is 32 bytes long, as the SHA-256 output size is.
#[verifier::external_body]
fn sha256_digest(data: &[u8]) -> (r: Vec<u8>)
    ensures
        r@ == sha256_of(data@),
        r@.len() == 32,
{
    let mut hasher = Sha256::new();
    hasher.update(data);
    hasher.finalize().to_vec()
}

pub open spec fn hex_digit(n: int) -> char {
    if n < 10 {
        ((n + 48) as u32) as char
    } else {
        ((n + 87) as u32) as char
    }
}

/// Lower-case hexadecimal, two digits per byte.
pub open spec fn hex_of(bs: Seq<u8>) -> Seq<char>
    decreases bs.len(),
{
    if bs.len() == 0 {
        seq![]
    } else {
        hex_of(bs.drop_last()) + seq![hex_digit((bs.last() / 16) as int), hex_digit((bs.last() % 16) as int)]
    }
}

fn hex_char(n: u8) -> (c: char)
    requires
        n < 16,
    ensures
        c == hex_digit(n as int),
{
    if n < 10 {
        (n + 48) as char
    } else {
        (n + 87) as char
    }
}

/// Lower-case hexadecimal rendering of bytes.
pub fn hex_lower(bs: &Vec<u8>) -> (r: String)
    ensures
        r@ == hex_of(bs@),
{
    let mut out: Vec<char> = Vec::new();
    let mut i: usize = 0;
    while i < bs.len()
        invariant
            i <= bs.len(),
            out@ == hex_of(bs@.take(i as int)),
        decreases bs.len() - i,
    {
        let b = bs[i];
        out.push(hex_char(b / 16));
        out.push(hex_char(b % 16));
        assert(bs@.take(i + 1).drop_last() =~= bs@.take(i as int));
        i += 1;
    }
    assert(bs@.take(bs.len() as int) =~= bs@);
    string_of(&out)
}

/// Lower-case hexadecimal SHA-256 of `data`.
pub fn hex_sha256(data: &[u8]) -> (r: String)
    ensures
        r@ == hex_of(sha256_of(data@)),
{
    let d = sha256_digest(data);
    hex_lower(&d)
}

// ---------------------------------------------------------------------------
// URLs
// ---------------------------------------------------------------------------
pub open spec fn join_url_spec(base: Seq<char>, path: Seq<char>) -> Seq<char> {
    trim_end_matches(base, "/"@) + "/"@ + trim_start_char(path, '/')
}

/// `base` and `path` with exactly one `/` between them.
pub fn join_url(base: &str, path: &str) -> (r: String)
    ensures
        r@ == join_url_spec(base@, path@),
{
    proof {
        reveal_strlit("/");
    }
    let b = chars_of(base);
    let slash = chars_of("/");
    let mut out = trim_end_matches_vec(&b, &slash);
    out.push('/');
    let p = chars_of(path);
    let tail = trim_start_char_vec(&p, '/');
    append_all(&mut out, &tail);
    assert(out@ =~= join_url_spec(base@, path@));
    string_of(&out)
}

/// Why a manifest URL is refused.
#[derive(Debug, Clone, Copy, PartialEq, Eq)]
pub enum UrlProblem {
    Absolute,
    UnsafePath,
}

/// A manifest-relative URL is refused when it is absolute or not a safe
/// relative path; otherwise it is joined to `base`.
pub open spec fn resolve_url_spec(base: Seq<char>, rel: Seq<char>) -> Result<Seq<char>, UrlProblem> {
    if has_prefix(rel, "http://"@) || has_prefix(rel, "https://"@) {
        Err(UrlProblem::Absolute)
    } else if !crate::paths::is_safe_relative(rel) {
        Err(UrlProblem::UnsafePath)
    } else {
        Ok(join_url_spec(base, rel))
    }
}

/// Resolves a URL from a manifest against a base URL.
pub fn resolve_url(base: &str, relative: &str) -> (r: Result<String, SyncError>)
    ensures
        match resolve_url_spec(base@, relative@) {
            Ok(u) => r matches Ok(s) && s@ == u,
            Err(UrlProblem::UnsafePath) => r matches Err(SyncError::UnsafeManifestPath(q)) && q@
                == relative@,
            Err(UrlProblem::Absolute) => r == Err::<String, SyncError>(
                SyncError::AbsoluteManifestUrl,
            ),
        },
{
    proof {
        reveal_strlit("http://");
        reveal_strlit("https://");
    }
    let rv = chars_of(relative);
    if starts_with_str(&rv, "http://") || starts_with_str(&rv, "https://") {
        return Err(SyncError::AbsoluteManifestUrl);
    }
    if !crate::paths::is_safe_relative_path(relative) {
        return Err(SyncError::UnsafeManifestPath(crate::text::owned(relative)));
    }
    Ok(join_url(base, relative))
}

/// The directory part of a URL: before its last `/`, or `fallback` when it
/// has none.
pub open spec fn url_dir(url: Seq<char>, fallback: Seq<char>) -> Seq<char> {
    let i = last_idx_of(url, '/');
    if i < 0 {
        fallback
    } else {
        url.take(i)
    }
}

pub fn manifest_base_url(manifest_url: &str, fallback: &str) -> (r: String)
    ensures
        r@ == url_dir(manifest_url@, fallback@),
{
    let v = chars_of(manifest_url);
    match last_index_of(&v, '/') {
        Some(i) => {
            let d = subvec(&v, 0, i);
            string_of(&d)
        },
        None => crate::text::owned(fallback),
    }
}

/// The server to sync with: the configured URL, which must be accepted.
pub fn server_base_url(effective: Option<String>) -> (r: Result<String, SyncError>)
    ensures
        match effective {
            None => r == Err::<String, SyncError>(SyncError::ServerUrlMissing),
            Some(u) => if server_url_ok(u@) {
                r == Ok::<String, SyncError>(u)
            } else {
                r == Err::<String, SyncError>(SyncError::InsecureServerUrl)
            },
        },
{
    match effective {
        None => Err(SyncError::ServerUrlMissing),
        Some(u) => match validate_preset_server_url(u.as_str()) {
            Ok(()) => Ok(u),
            Err(_) => Err(SyncError::InsecureServerUrl),
        },
    }
}

/// After redirects the final URL must pass the same check as the first.
pub fn check_redirect(url: &str, final_url: &str) -> (r: Result<(), SyncError>)
    ensures
        r is Ok <==> (final_url@ == url@ || server_url_ok(final_url@)),
        r matches Err(e) ==> e matches SyncError::UnsafeRedirect(a, b) && a@ == url@ && b@
            == final_url@,
{
    if crate::text::str_eq(url, final_url) {
        return Ok(());
    }
    match validate_preset_server_url(final_url) {
        Ok(()) => Ok(()),
        Err(_) => Err(
            SyncError::UnsafeRedirect(crate::text::owned(url), crate::text::owned(final_url)),
        ),
    }
}

/// Whether `n` more downloaded bytes keep the body within the limit.
pub fn check_download_size(url: &str, have: usize, n: usize) -> (r: Result<(), SyncError>)
    ensures
        r is Ok <==> have + n <= MAX_DOWNLOAD_BYTES,
        r matches Err(e) ==> e matches SyncError::ResponseTooLarge(u) && u@ == url@,
{
    if n > MAX_DOWNLOAD_BYTES || have > MAX_DOWNLOAD_BYTES - n {
        Err(SyncError::ResponseTooLarge(crate::text::owned(url)))
    } else {
        Ok(())
    }
}

/// The running total of unpacked bytes after one more entry (saturating),
/// refused once it exceeds the limit.
pub fn add_extracted_bytes(total: usize, entry_size: u64) -> (r: Result<usize, SyncError>)
    ensures
        match r {
            Ok(t) => t == total + entry_size && t <= MAX_EXTRACT_BYTES,
            Err(e) => e == SyncError::ExtractTooLarge && total + entry_size > MAX_EXTRACT_BYTES,
        },
{
    if entry_size > (MAX_EXTRACT_BYTES as u64) || total > MAX_EXTRACT_BYTES - (entry_size as usize) {
        Err(SyncError::ExtractTooLarge)
    } else {
        Ok(total + (entry_size as usize))
    }
}

// ---------------------------------------------------------------------------
// Catalogs and packs
// ---------------------------------------------------------------------------
/// Only catalog schema 1 is understood.
pub fn check_catalog_schema(catalog: &PresetCatalog) -> (r: Result<(), SyncError>)
    ensures
        r is Ok <==> catalog.schema_version == 1,
        r is Err ==> r == Err::<(), SyncError>(
            SyncError::UnsupportedCatalogSchema(catalog.schema_version),
        ),
{
    if catalog.schema_version != 1 {
        Err(SyncError::UnsupportedCatalogSchema(catalog.schema_version))
    } else {
        Ok(())
    }
}

pub open spec fn safe_ids(ids: Seq<Seq<char>>) -> Seq<Seq<char>>
    decreases ids.len(),
{
    if ids.len() == 0 {
        seq![]
    } else if safe_pack_id(ids.last()) {
        safe_ids(ids.drop_last()).push(ids.last())
    } else {
        safe_ids(ids.drop_last())
    }
}

pub open spec fn catalog_ids(c: PresetCatalog) -> Seq<Seq<char>> {
    c.packs@.map_values(|p: crate::remote_presets::manifest::CatalogPackRef| p.id@)
}

/// The ids of the catalog's packs that are safe to use as directory names,
/// in catalog order.
pub fn active_pack_ids(catalog: &PresetCatalog) -> (r: Vec<String>)
    ensures
        crate::text::str_views(r@) == safe_ids(catalog_ids(*catalog)),
{
    let mut out: Vec<String> = Vec::new();
    let mut i: usize = 0;
    while i < catalog.packs.len()
        invariant
            i <= catalog.packs.len(),
            crate::text::str_views(out@) == safe_ids(catalog_ids(*catalog).take(i as int)),
        decreases catalog.packs.len() - i,
    {
        let id = &catalog.packs[i].id;
        assert(catalog_ids(*catalog).take(i + 1).drop_last() =~= catalog_ids(*catalog).take(
            i as int,
        ));
        if is_safe_pack_id(id.as_str()) {
            proof {
                crate::text::lemma_str_views_push(out@, *id);
            }
            out.push(id.clone());
        }
        i += 1;
    }
    assert(catalog_ids(*catalog).take(i as int) =~= catalog_ids(*catalog));
    out
}

/// The manifest URL of a pack listed in the catalog.
pub fn catalog_manifest_url(catalog: &PresetCatalog, pack_id: &str) -> (r: Result<String, SyncError>)
    ensures
        match r {
            Ok(u) => exists|i: int|
                0 <= i < catalog.packs@.len() && (#[trigger] catalog.packs@[i]).id@ == pack_id@
                    && catalog.packs@[i].manifest_url@ == u@ && forall|j: int|
                    0 <= j < i ==> (#[trigger] catalog.packs@[j]).id@ != pack_id@,
            Err(e) => e matches SyncError::PackNotInCatalog(p) && p@ == pack_id@ && forall|j: int|
                0 <= j < catalog.packs@.len() ==> (#[trigger] catalog.packs@[j]).id@ != pack_id@,
        },
{
    let mut i: usize = 0;
    while i < catalog.packs.len()
        invariant
            i <= catalog.packs.len(),
            forall|j: int| 0 <= j < i ==> (#[trigger] catalog.packs@[j]).id@ != pack_id@,
        decreases catalog.packs.len() - i,
    {
        if crate::text::str_eq(catalog.packs[i].id.as_str(), pack_id) {
            let u = crate::text::owned(catalog.packs[i].manifest_url.as_str());
            return Ok(u);
        }
        i += 1;
    }
    Err(SyncError::PackNotInCatalog(crate::text::owned(pack_id)))
}

/// Pack ids name cache directories, so only safe ones are accepted.
pub fn check_pack_id(pack_id: &str) -> (r: Result<(), SyncError>)
    ensures
        r is Ok <==> safe_pack_id(pack_id@),
        r matches Err(e) ==> e matches SyncError::InvalidPackId(p) && p@ == pack_id@,
{
    if is_safe_pack_id(pack_id) {
        Ok(())
    } else {
        Err(SyncError::InvalidPackId(crate::text::owned(pack_id)))
    }
}

/// What syncing a single pack does next.
#[derive(Debug, Clone, PartialEq, Eq)]
pub enum PackSync {
    /// Nothing: the application is in the background and the sync was not forced.
    Skipped,
    /// No catalog is cached: fetch only the catalog from `catalog_url` (no
    /// pack), cache it, then decide again.
    NeedsCatalog { catalog_url: String },
    /// Fetch the pack from `base_url`, its manifest from `manifest_url`.
    Fetch { base_url: String, manifest_url: String },
}

/// The first catalog entry for `pack_id` has this manifest URL.
pub open spec fn first_catalog_url(c: PresetCatalog, pack_id: Seq<char>, url: Seq<char>) -> bool {
    exists|i: int|
        0 <= i < c.packs@.len() && (#[trigger] c.packs@[i]).id@ == pack_id && c.packs@[i].manifest_url@
            == url && forall|j: int| 0 <= j < i ==> (#[trigger] c.packs@[j]).id@ != pack_id
}

pub open spec fn in_catalog(c: PresetCatalog, pack_id: Seq<char>) -> bool {
    exists|j: int| 0 <= j < c.packs@.len() && (#[trigger] c.packs@[j]).id@ == pack_id
}

/// The decision of syncing one pack by id, given whether the sync was
/// forced, whether the application is in the background, the configured
/// server, the cached catalog and whether the catalog was just fetched.
pub open spec fn pack_sync_spec(
    pack_id: Seq<char>,
    force: bool,
    background: bool,
    server: Option<Seq<char>>,
    catalog: Option<PresetCatalog>,
    after_catalog_fetch: bool,
    r: Result<PackSync, SyncError>,
) -> bool {
    if !safe_pack_id(pack_id) {
        r matches Err(SyncError::InvalidPackId(p)) && p@ == pack_id
    } else if !force && background {
        r == Ok::<PackSync, SyncError>(PackSync::Skipped)
    } else {
        match server {
            None => r == Err::<PackSync, SyncError>(SyncError::ServerUrlMissing),
            Some(u) => if !server_url_ok(u) {
                r == Err::<PackSync, SyncError>(SyncError::InsecureServerUrl)
            } else {
                match catalog {
                    None => if after_catalog_fetch {
                        r == Err::<PackSync, SyncError>(SyncError::CatalogNotLoaded)
                    } else {
                        r matches Ok(PackSync::NeedsCatalog { catalog_url }) && catalog_url@
                            == join_url_spec(u, "catalog.json"@)
                    },
                    Some(c) => if in_catalog(c, pack_id) {
                        r matches Ok(PackSync::Fetch { base_url, manifest_url }) && base_url@ == u
                            && first_catalog_url(c, pack_id, manifest_url@)
                    } else {
                        r matches Err(SyncError::PackNotInCatalog(p)) && p@ == pack_id
                    },
                }
            },
        }
    }
}

/// Syncing a single pack (without a full sync over the whole catalog): the
/// id must be safe, a background run is skipped unless forced, the server
/// must be configured and accepted, and the pack must be in the catalog.
/// The only downloads it asks for are the catalog (when none is cached) and
/// that one pack.
pub fn sync_pack_by_id(
    pack_id: &str,
    force: bool,
    background: bool,
    server: Option<String>,
    catalog: Option<&PresetCatalog>,
    after_catalog_fetch: bool,
) -> (r: Result<PackSync, SyncError>)
    ensures
        pack_sync_spec(
            pack_id@,
            force,
            background,
            match server {
                Some(u) => Some(u@),
                None => None,
            },
            match catalog {
                Some(c) => Some(*c),
                None => None,
            },
            after_catalog_fetch,
            r,
        ),
{
    match check_pack_id(pack_id) {
        Err(e) => {
            return Err(e);
        },
        Ok(()) => {},
    }
    if !force && background {
        return Ok(PackSync::Skipped);
    }
    let base_url = match server_base_url(server) {
        Ok(u) => u,
        Err(e) => {
            return Err(e);
        },
    };
    match catalog {
        None => if after_catalog_fetch {
            Err(SyncError::CatalogNotLoaded)
        } else {
            Ok(PackSync::NeedsCatalog { catalog_url: join_url(base_url.as_str(), "catalog.json") })
        },
        Some(c) => match catalog_manifest_url(c, pack_id) {
            Ok(manifest_url) => {
                let ghost cat = *c;
                assert(in_catalog(cat, pack_id@));
                Ok(PackSync::Fetch { base_url, manifest_url })
            },
            Err(e) => Err(e),
        },
    }
}

/// The full URL of a pack's manifest, for a pack id that is safe.
pub fn pack_manifest_url(base_url: &str, pack_id: &str, manifest_url: &str) -> (r: Result<
    String,
    SyncError,
>)
    ensures
        !safe_pack_id(pack_id@) ==> (r matches Err(SyncError::InvalidPackId(p)) && p@ == pack_id@),
        safe_pack_id(pack_id@) ==> match resolve_url_spec(base_url@, manifest_url@) {
            Ok(u) => r matches Ok(s) && s@ == u,
            Err(UrlProblem::UnsafePath) => r matches Err(SyncError::UnsafeManifestPath(q)) && q@
                == manifest_url@,
            Err(UrlProblem::Absolute) => r == Err::<String, SyncError>(
                SyncError::AbsoluteManifestUrl,
            ),
        },
{
    check_pack_id(pack_id)?;
    resolve_url(base_url, manifest_url)
}

pub open spec fn bundle_sha(m: PackManifest) -> Option<Seq<char>> {
    match m.bundle {
        Some(b) => match b.sha256 {
            Some(s) => Some(s@),
            None => None,
        },
        None => None,
    }
}

/// What to do with a pack's bundle.
#[derive(Debug, Clone)]
pub struct BundlePlan {
    pub bundle_url: String,
    pub expected_sha: Option<String>,
    pub needs_download: bool,
}

/// Whether a pack's bundle must be fetched: when forced, when nothing is
/// unpacked yet, or when the manifest names another digest than the one
/// recorded.
pub open spec fn needs_download_spec(
    m: PackManifest,
    force: bool,
    extracted_present: bool,
    cached_sha: Seq<char>,
) -> bool {
    force || !extracted_present || (bundle_sha(m) is Some && bundle_sha(m)->0 != trim(cached_sha))
}

/// Law: a pack's bundle is fetched again exactly when asked to, when nothing
/// is unpacked, or when the manifest names a digest other than the trimmed
/// one recorded for the unpacked bundle; a recorded digest equal to the
/// manifest's keeps the unpacked bundle.
pub proof fn new_bundle_digest_forces_download(
    m: PackManifest,
    force: bool,
    extracted_present: bool,
    cached_sha: Seq<char>,
)
    ensures
        force ==> needs_download_spec(m, force, extracted_present, cached_sha),
        !extracted_present ==> needs_download_spec(m, force, extracted_present, cached_sha),
        (m.bundle matches Some(b) && b.sha256 matches Some(d) && d@ != trim(cached_sha))
            ==> needs_download_spec(m, force, extracted_present, cached_sha),
        (!force && extracted_present && (m.bundle matches Some(b) && b.sha256 matches Some(d) && d@
            == trim(cached_sha))) ==> !needs_download_spec(m, force, extracted_present, cached_sha),
        (!force && extracted_present && !(m.bundle matches Some(b) && b.sha256 is Some))
            ==> !needs_download_spec(m, force, extracted_present, cached_sha),
{
}

/// Checks a fetched manifest and decides about its bundle: the schema must
/// be 1, a bundle must be named, its URL must resolve against the
/// manifest's directory, and it must carry a digest unless unsigned packs
/// are allowed.
pub fn plan_pack_bundle(
    base_url: &str,
    pack_id: &str,
    manifest_full_url: &str,
    manifest: &PackManifest,
    force: bool,
    extracted_present: bool,
    cached_sha: &str,
    unverified_allowed: bool,
) -> (r: Result<BundlePlan, SyncError>)
    ensures
        manifest.schema_version != 1 ==> (r matches Err(SyncError::UnsupportedPackSchema(p, v)) && p@
            == pack_id@ && v == manifest.schema_version),
        manifest.schema_version == 1 && manifest.bundle is None ==> (r matches Err(
            SyncError::PackHasNoBundle(p),
        ) && p@ == pack_id@),
        manifest.schema_version == 1 && manifest.bundle is Some ==> {
            let dir = url_dir(manifest_full_url@, base_url@);
            let file = manifest.bundle->0.file@;
            match resolve_url_spec(dir, file) {
                Err(UrlProblem::UnsafePath) => r matches Err(SyncError::UnsafeManifestPath(q))
                    && q@ == file,
                Err(UrlProblem::Absolute) => r == Err::<BundlePlan, SyncError>(
                    SyncError::AbsoluteManifestUrl,
                ),
                Ok(u) => if bundle_sha(*manifest) is None && !unverified_allowed {
                    r matches Err(SyncError::UnsignedPack(p)) && p@ == pack_id@
                } else {
                    r matches Ok(plan) && plan.bundle_url@ == u && crate::known_games::opt_sv(
                        plan.expected_sha,
                    ) == bundle_sha(*manifest) && plan.needs_download == needs_download_spec(
                        *manifest,
                        force,
                        extracted_present,
                        cached_sha@,
                    )
                },
            }
        },
        r matches Ok(plan) ==> (plan.needs_download <==> (force || !extracted_present || (
        manifest.bundle matches Some(b) && b.sha256 matches Some(d) && d@ != trim(cached_sha@)))),
        r matches Ok(plan) ==> ((manifest.bundle matches Some(b) && b.sha256 matches Some(d) && d@
            != trim(cached_sha@)) ==> plan.needs_download),
{
    if manifest.schema_version != 1 {
        return Err(SyncError::UnsupportedPackSchema(crate::text::owned(pack_id), manifest.schema_version));
    }
    let bundle = match &manifest.bundle {
        Some(b) => b,
        None => {
            return Err(SyncError::PackHasNoBundle(crate::text::owned(pack_id)));
        },
    };
    let dir = manifest_base_url(manifest_full_url, base_url);
    let bundle_url = resolve_url(dir.as_str(), bundle.file.as_str())?;
    let expected: Option<String> = match &bundle.sha256 {
        Some(s) => Some(crate::text::owned(s.as_str())),
        None => None,
    };
    if expected.is_none() && !unverified_allowed {
        return Err(SyncError::UnsignedPack(crate::text::owned(pack_id)));
    }
    let cached = trim_str(cached_sha);
    let differs = match &expected {
        Some(e) => {
            let ev = chars_of(e.as_str());
            !crate::text::seq_eq(&ev, &cached)
        },
        None => false,
    };
    let needs_download = force || !extracted_present || differs;
    Ok(BundlePlan { bundle_url, expected_sha: expected, needs_download })
}

/// Whether downloaded bytes carry the digest the manifest names.
pub open spec fn digest_matches(expected: Option<Seq<char>>, data: Seq<u8>) -> bool {
    match expected {
        None => true,
        Some(e) => hex_of(sha256_of(data)) == e,
    }
}

/// Checks a downloaded bundle against the digest its manifest names.
pub fn verify_bundle_digest(pack_id: &str, expected: Option<&str>, data: &[u8]) -> (r: Result<
    (),
    SyncError,
>)
    ensures
        r is Ok <==> digest_matches(
            match expected {
                Some(e) => Some(e@),
                None => None,
            },
            data@,
        ),
        r matches Err(e) ==> e matches SyncError::HashMismatch(p, x, a) && p@ == pack_id@ && x@
            == expected->0@ && a@ == hex_of(sha256_of(data@)),
{
    match expected {
        None => Ok(()),
        Some(e) => {
            let actual = hex_sha256(data);
            if crate::text::str_eq(actual.as_str(), e) {
                Ok(())
            } else {
                Err(SyncError::HashMismatch(crate::text::owned(pack_id), crate::text::owned(e), actual))
            }
        },
    }
}

/// Whether a cached pack may be used: a safe id, a signed bundle unless
/// unsigned packs are allowed, and an unpacked directory.
pub open spec fn cached_pack_ok(
    pack_id: Seq<char>,
    m: PackManifest,
    unverified_allowed: bool,
    extracted_is_dir: bool,
) -> bool {
    safe_pack_id(pack_id) && (bundle_sha(m) is Some || unverified_allowed) && extracted_is_dir
}

pub fn cached_pack_servable(
    pack_id: &str,
    manifest: &PackManifest,
    unverified_allowed: bool,
    extracted_is_dir: bool,
) -> (r: bool)
    ensures
        r == cached_pack_ok(pack_id@, *manifest, unverified_allowed, extracted_is_dir),
{
    if !is_safe_pack_id(pack_id) {
        return false;
    }
    let signed = match &manifest.bundle {
        Some(b) => b.sha256.is_some(),
        None => false,
    };
    (signed || unverified_allowed) && extracted_is_dir
}

/// Names of `names` that are not a safe id listed in `active`, in order.
pub open spec fn orphan_names(names: Seq<Seq<char>>, active: Seq<String>) -> Seq<Seq<char>>
    decreases names.len(),
{
    if names.len() == 0 {
        seq![]
    } else if safe_pack_id(names.last()) && any_eq(active, names.last()) {
        orphan_names(names.drop_last(), active)
    } else {
        orphan_names(names.drop_last(), active).push(names.last())
    }
}

/// Directories in the pack cache that no safe active id names.
pub fn orphan_packs(active_ids: &Vec<String>, dir_names: &Vec<String>) -> (r: Vec<String>)
    ensures
        crate::text::str_views(r@) == orphan_names(crate::text::str_views(dir_names@), active_ids@),
{
    let ghost names = crate::text::str_views(dir_names@);
    let mut out: Vec<String> = Vec::new();
    let mut i: usize = 0;
    while i < dir_names.len()
        invariant
            i <= dir_names.len(),
            names == crate::text::str_views(dir_names@),
            crate::text::str_views(out@) == orphan_names(names.take(i as int), active_ids@),
        decreases dir_names.len() - i,
    {
        let name = &dir_names[i];
        let nv = chars_of(name.as_str());
        assert(names.take(i + 1).drop_last() =~= names.take(i as int));
        assert(names.take(i + 1).last() == name@);
        let keep = is_safe_pack_id(name.as_str()) && crate::known_games::list_has(active_ids, &nv);
        if !keep {
            proof {
                crate::text::lemma_str_views_push(out@, *name);
            }
            out.push(name.clone());
        }
        i += 1;
    }
    assert(names.take(i as int) =~= names);
    out
}

// ---------------------------------------------------------------------------
// The bundled copy
// ---------------------------------------------------------------------------
/// The shipped catalog replaces the cached one when there is none or when
/// it is newer.
pub fn should_refresh_catalog(bundled: &PresetCatalog, cached: Option<&PresetCatalog>) -> (r: bool)
    ensures
        r == match cached {
            None => true,
            Some(c) => crate::remote_presets::versions::catalog_newer(*bundled, *c),
        },
{
    match cached {
        None => true,
        Some(c) => crate::remote_presets::versions::catalog_is_newer(bundled, c),
    }
}

/// What seeding a shipped pack into the cache comes to.
#[derive(Debug, Clone, Copy, PartialEq, Eq)]
pub enum SeedStep {
    /// The cache already holds this bundle and manifest.
    Unchanged,
    /// The cache holds this bundle; only its manifest text differs.
    RewriteManifest,
    /// The bundle must be checked and unpacked into the cache.
    Install,
}

/// Decides how to seed a shipped pack, given what the cache holds.
pub fn plan_seed(
    pack_id: &str,
    manifest: &PackManifest,
    manifest_raw: &str,
    cached_loaded: bool,
    cached_sha: &str,
    cached_manifest_raw: Option<&str>,
) -> (r: Result<SeedStep, SyncError>)
    ensures
        ({
            let current = cached_loaded && bundle_sha(*manifest) is Some && bundle_sha(*manifest)->0
                == trim(cached_sha@);
            if current {
                r == Ok::<SeedStep, SyncError>(
                    if cached_manifest_raw is Some && cached_manifest_raw->0@ == manifest_raw@ {
                        SeedStep::Unchanged
                    } else {
                        SeedStep::RewriteManifest
                    },
                )
            } else if manifest.schema_version != 1 {
                r matches Err(SyncError::UnsupportedBundledPackSchema(p, v)) && p@ == pack_id@ && v
                    == manifest.schema_version
            } else if manifest.bundle is None {
                r matches Err(SyncError::BundledPackHasNoBundle(p)) && p@ == pack_id@
            } else {
                r == Ok::<SeedStep, SyncError>(SeedStep::Install)
            }
        }),
{
    let cached = trim_str(cached_sha);
    let current = match &manifest.bundle {
        Some(b) => match &b.sha256 {
            Some(s) => {
                let sv = chars_of(s.as_str());
                cached_loaded && crate::text::seq_eq(&sv, &cached)
            },
            None => false,
        },
        None => false,
    };
    if current {
        let same = match cached_manifest_raw {
            Some(c) => crate::text::str_eq(c, manifest_raw),
            None => false,
        };
        return Ok(
            if same {
                SeedStep::Unchanged
            } else {
                SeedStep::RewriteManifest
            },
        );
    }
    if manifest.schema_version != 1 {
        return Err(
            SyncError::UnsupportedBundledPackSchema(
                crate::text::owned(pack_id),
                manifest.schema_version,
            ),
        );
    }
    if manifest.bundle.is_none() {
        return Err(SyncError::BundledPackHasNoBundle(crate::text::owned(pack_id)));
    }
    Ok(SeedStep::Install)
}

/// Checks a shipped bundle before it is unpacked: it must carry a digest
/// unless unsigned packs are allowed, and the bytes must match it.
pub fn verify_seed_bundle(
    pack_id: &str,
    manifest: &PackManifest,
    unverified_allowed: bool,
    zip_bytes: &[u8],
) -> (r: Result<(), SyncError>)
    ensures
        bundle_sha(*manifest) is None && !unverified_allowed ==> (r matches Err(
            SyncError::UnsignedBundledPack(p),
        ) && p@ == pack_id@),
        bundle_sha(*manifest) is None && unverified_allowed ==> r is Ok,
        bundle_sha(*manifest) is Some ==> (r is Ok <==> hex_of(sha256_of(zip_bytes@)) == bundle_sha(
            *manifest,
        )->0),
        bundle_sha(*manifest) is Some && r is Err ==> (r matches Err(
            SyncError::BundledHashMismatch(p, x, a),
        ) && p@ == pack_id@ && x@ == bundle_sha(*manifest)->0 && a@ == hex_of(
            sha256_of(zip_bytes@),
        )),
{
    let expected: Option<&String> = match &manifest.bundle {
        Some(b) => b.sha256.as_ref(),
        None => None,
    };
    match expected {
        None => {
            if unverified_allowed {
                Ok(())
            } else {
                Err(SyncError::UnsignedBundledPack(crate::text::owned(pack_id)))
            }
        },
        Some(e) => {
            let actual = hex_sha256(zip_bytes);
            if crate::text::str_eq(actual.as_str(), e.as_str()) {
                Ok(())
            } else {
                Err(
                    SyncError::BundledHashMismatch(
                        crate::text::owned(pack_id),
                        crate::text::owned(e.as_str()),
                        actual,
                    ),
                )
            }
        },
    }
}

// ---------------------------------------------------------------------------
// Configuration after a sync
// ---------------------------------------------------------------------------
/// Records a successful sync at `at` of the catalog `version`.
pub fn record_sync_success(cfg: PresetServerConfig, at: String, version: String) -> (r:
    PresetServerConfig)
    ensures
        r.base_url == cfg.base_url,
        r.auto_sync == cfg.auto_sync,
        r.last_sync_at == Some(at),
        r.last_sync_ok,
        r.last_sync_error is None,
        r.catalog_version == Some(version),
{
    let mut c = cfg;
    c.last_sync_at = Some(at);
    c.last_sync_ok = true;
    c.last_sync_error = None;
    c.catalog_version = Some(version);
    c
}

/// Records a failed sync with its message.
pub fn mark_sync_error(cfg: PresetServerConfig, err: &str) -> (r: PresetServerConfig)
    ensures
        r.base_url == cfg.base_url,
        r.auto_sync == cfg.auto_sync,
        r.last_sync_at == cfg.last_sync_at,
        !r.last_sync_ok,
        r.last_sync_error matches Some(e) && e@ == err@,
        r.catalog_version == cfg.catalog_version,
{
    let mut c = cfg;
    c.last_sync_ok = false;
    c.last_sync_error = Some(crate::text::owned(err));
    c
}

/// The report of a completed sync.
pub fn sync_report(packs_synced: usize, version: String) -> (r: SyncReport)
    ensures
        r.ok,
        r.packs_synced == packs_synced,
        r.catalog_version == Some(version),
        r.message@ == "Synced packs: "@ + dec_string(packs_synced as nat),
{
    let mut m = chars_of("Synced packs: ");
    let d = dec_vec(packs_synced as u64);
    append_all(&mut m, &d);
    SyncReport { ok: true, message: string_of(&m), packs_synced, catalog_version: Some(version) }
}

/// The report when a sync is skipped because the application is in the
/// background.
pub fn skipped_sync_report(version: Option<String>) -> (r: SyncReport)
    ensures
        r.ok,
        r.packs_synced == 0,
        r.catalog_version == version,
        r.message@ == "sync skipped while app in background"@,
{
    SyncReport {
        ok: true,
        message: crate::text::owned("sync skipped while app in background"),
        packs_synced: 0,
        catalog_version: version,
    }
}


// ---------------------------------------------------------------------------
// Serving a pack from the cache
// ---------------------------------------------------------------------------
/// A pack's directory in the cache: `<cache>/packs/<id>`.
pub open spec fn pack_cache_dir_spec(cache: Seq<char>, id: Seq<char>) -> Seq<char> {
    crate::paths::join_spec(crate::paths::join_spec(cache, "packs"@), id)
}

/// A pack's unpacked files in the cache: `<cache>/packs/<id>/extracted`.
pub open spec fn pack_extracted_spec(cache: Seq<char>, id: Seq<char>) -> Seq<char> {
    crate::paths::join_spec(pack_cache_dir_spec(cache, id), "extracted"@)
}

pub fn pack_cache_dir(cache: &str, id: &str) -> (r: String)
    ensures
        r@ == pack_cache_dir_spec(cache@, id@),
{
    let packs = crate::paths::join(cache, "packs");
    crate::paths::join(packs.as_str(), id)
}

pub fn pack_extracted_dir(cache: &str, id: &str) -> (r: String)
    ensures
        r@ == pack_extracted_spec(cache@, id@),
{
    let d = pack_cache_dir(cache, id);
    crate::paths::join(d.as_str(), "extracted")
}

/// What the cache serves for a pack id, given its manifest as read (`None`
/// when it could not be read or parsed): nothing for an unsafe id, a
/// manifest whose own pack id is unsafe, an unsigned pack (unless unsigned
/// packs are allowed) or a missing unpacked directory; else the manifest
/// and the unpacked directory.
pub open spec fn cached_entry_spec(
    cache: Seq<char>,
    pack_id: Seq<char>,
    manifest: Option<PackManifest>,
    unverified_allowed: bool,
    extracted_is_dir: bool,
) -> Option<(PackManifest, Seq<char>)> {
    match manifest {
        Some(m) => if safe_pack_id(m.pack_id@) && cached_pack_ok(
            pack_id,
            m,
            unverified_allowed,
            extracted_is_dir,
        ) {
            Some((m, pack_extracted_spec(cache, pack_id)))
        } else {
            None
        },
        None => None,
    }
}

pub fn cached_pack_entry(
    cache: &str,
    pack_id: &str,
    manifest: Option<PackManifest>,
    unverified_allowed: bool,
    extracted_is_dir: bool,
) -> (r: Option<(PackManifest, String)>)
    ensures
        match r {
            Some((m, root)) => cached_entry_spec(
                cache@,
                pack_id@,
                manifest,
                unverified_allowed,
                extracted_is_dir,
            ) == Some((m, root@)),
            None => cached_entry_spec(cache@, pack_id@, manifest, unverified_allowed, extracted_is_dir)
                is None,
        },
{
    match manifest {
        Some(m) => {
            let accepted = match crate::remote_presets::manifest::accept_manifest(m) {
                Ok(x) => x,
                Err(_) => {
                    return None;
                },
            };
            if !cached_pack_servable(pack_id, &accepted, unverified_allowed, extracted_is_dir) {
                return None;
            }
            Some((accepted, pack_extracted_dir(cache, pack_id)))
        },
        None => None,
    }
}

/// Law: an unsigned pack is never served from the cache unless unsigned
/// packs are allowed. What the cache serves has a safe id, a manifest whose
/// own pack id is safe, a signed bundle (or the allowance), and is the
/// unpacked directory `<cache>/packs/<id>/extracted`, which exists.
pub proof fn cached_pack_is_signed(
    cache: Seq<char>,
    pack_id: Seq<char>,
    manifest: Option<PackManifest>,
    unverified_allowed: bool,
    extracted_is_dir: bool,
)
    ensures
        cached_entry_spec(cache, pack_id, manifest, unverified_allowed, extracted_is_dir) matches Some(
            (m, root),
        ) ==> {
            &&& safe_pack_id(pack_id)
            &&& safe_pack_id(m.pack_id@)
            &&& manifest == Some(m)
            &&& (bundle_sha(m) is Some || unverified_allowed)
            &&& extracted_is_dir
            &&& root == pack_extracted_spec(cache, pack_id)
        },
{
}

} // verus!
