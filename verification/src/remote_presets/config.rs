//! Preset server settings: which server to use, whether to sync on its own,
//! and how the last sync went.
use vstd::prelude::*;
use crate::text::{
    before_char, before_char_vec, chars_of, eq_ic, eq_ignore_case, has_prefix, starts_with_str,
    string_of, subvec, trim, trim_end_matches, trim_end_matches_vec, trim_str, has_suffix, is_ws,
};

verus! {

#[derive(Debug, Clone)]
pub struct PresetServerConfig {
    pub base_url: Option<String>,
    pub auto_sync: bool,
    pub last_sync_at: Option<String>,
    pub last_sync_ok: bool,
    pub last_sync_error: Option<String>,
    pub catalog_version: Option<String>,
}

impl Default for PresetServerConfig {
    /// No server, no automatic sync, never synced.
    fn default() -> (r: Self)
        ensures
            r.base_url is None,
            !r.auto_sync,
            r.last_sync_at is None,
            !r.last_sync_ok,
            r.last_sync_error is None,
            r.catalog_version is None,
    {
        PresetServerConfig {
            base_url: None,
            auto_sync: false,
            last_sync_at: None,
            last_sync_ok: false,
            last_sync_error: None,
            catalog_version: None,
        }
    }
}

/// The server URL was refused: only `https://`, or `http://` to localhost.
#[derive(Debug, Clone, Copy, PartialEq, Eq)]
pub enum ServerUrlError {
    NotHttps,
}

/// A server URL as stored: trimmed, without trailing slashes.
pub open spec fn normalized_url(s: Seq<char>) -> Seq<char> {
    trim_end_matches(trim(s), "/"@)
}

/// What follows the last `@` of a URL authority (all of it when there is
/// none): the host and port without any `user@` part.
pub open spec fn after_userinfo(a: Seq<char>) -> Seq<char> {
    let i = crate::text::last_idx_of(a, '@');
    if i < 0 {
        a
    } else {
        a.skip(i + 1)
    }
}

/// The host of an `http://` URL: the authority (what follows the scheme, up
/// to the first `/`), without any `user@` part, up to the first `:`.
pub open spec fn http_host(t: Seq<char>) -> Seq<char> {
    before_char(after_userinfo(before_char(t.skip(7), '/')), ':')
}

/// Accepted server URLs: empty, `https://…`, or `http://` to a local dev
/// server, whose host is `localhost` (any case) or `127.0.0.1`.
pub open spec fn server_url_ok(url: Seq<char>) -> bool {
    let t = trim(url);
    ||| t.len() == 0
    ||| has_prefix(t, "https://"@)
    ||| (has_prefix(t, "http://"@) && (eq_ic(http_host(t), "localhost"@) || http_host(t)
        == "127.0.0.1"@))
}

/// Trims white space and trailing slashes.
pub fn normalize_server_url(url: &str) -> (r: String)
    ensures
        r@ == normalized_url(url@),
{
    let out = normalize_url_vec(url);
    string_of(&out)
}

fn normalize_url_vec(url: &str) -> (r: Vec<char>)
    ensures
        r@ == normalized_url(url@),
{
    let t = trim_str(url);
    let slash = chars_of("/");
    proof {
        reveal_strlit("/");
    }
    trim_end_matches_vec(&t, &slash)
}

/// HTTPS in production; http only for localhost dev servers.
pub fn validate_preset_server_url(url: &str) -> (r: Result<(), ServerUrlError>)
    ensures
        r is Ok <==> server_url_ok(url@),
{
    proof {
        reveal_strlit("https://");
        reveal_strlit("http://");
        reveal_strlit("localhost");
        reveal_strlit("127.0.0.1");
    }
    let t = trim_str(url);
    if t.len() == 0 {
        return Ok(());
    }
    if starts_with_str(&t, "https://") {
        return Ok(());
    }
    if starts_with_str(&t, "http://") {
        let rest = subvec(&t, 7, t.len());
        assert(rest@ == t@.skip(7));
        let authority = before_char_vec(&rest, '/');
        let hostport = match crate::text::last_index_of(&authority, '@') {
            Some(i) => subvec(&authority, i + 1, authority.len()),
            None => subvec(&authority, 0, authority.len()),
        };
        proof {
            if crate::text::last_idx_of(authority@, '@') < 0 {
                assert(hostport@ =~= authority@);
            }
        }
        let host = before_char_vec(&hostport, ':');
        let lh = chars_of("localhost");
        let lo = chars_of("127.0.0.1");
        if eq_ignore_case(&host, &lh) || crate::text::seq_eq(&host, &lo) {
            return Ok(());
        }
    }
    Err(ServerUrlError::NotHttps)
}

/// The URL a user entered, as it will be stored: `None` when it is missing
/// or blank, the normalized URL when it is accepted.
pub open spec fn entered_url(url: Option<Seq<char>>) -> Result<Option<Seq<char>>, ServerUrlError> {
    match url {
        None => Ok(None),
        Some(u) => {
            let t = normalized_url(u);
            if t.len() == 0 {
                Ok(None)
            } else if server_url_ok(t) {
                Ok(Some(t))
            } else {
                Err(ServerUrlError::NotHttps)
            }
        },
    }
}

pub open spec fn opt_view(o: Option<String>) -> Option<Seq<char>> {
    match o {
        Some(s) => Some(s@),
        None => None,
    }
}

/// Sets the server URL in a configuration, leaving the rest as it was.
pub fn set_base_url(cfg: PresetServerConfig, url: Option<String>) -> (r: Result<
    PresetServerConfig,
    ServerUrlError,
>)
    ensures
        match entered_url(opt_view(url)) {
            Ok(u) => r matches Ok(c) && opt_view(c.base_url) == u && c.auto_sync == cfg.auto_sync
                && c.last_sync_at == cfg.last_sync_at && c.last_sync_ok == cfg.last_sync_ok
                && c.last_sync_error == cfg.last_sync_error && c.catalog_version
                == cfg.catalog_version,
            Err(e) => r == Err::<PresetServerConfig, ServerUrlError>(e),
        },
{
    let mut cfg = cfg;
    match url {
        Some(u) => {
            let trimmed = normalize_url_vec(u.as_str());
            if trimmed.len() == 0 {
                cfg.base_url = None;
            } else {
                let ts = string_of(&trimmed);
                match validate_preset_server_url(ts.as_str()) {
                    Ok(()) => {},
                    Err(e) => {
                        return Err(e);
                    },
                }
                cfg.base_url = Some(string_of(&trimmed));
            }
        },
        None => {
            cfg.base_url = None;
        },
    }
    Ok(cfg)
}

/// The server to use: the environment's URL, else the saved one, else the
/// one shipped with the application (each normalized, blank ones skipped).
pub open spec fn effective_url(
    env_url: Option<Seq<char>>,
    saved: Option<Seq<char>>,
    bundled: Seq<char>,
) -> Option<Seq<char>> {
    if env_url is Some && normalized_url(env_url->0).len() > 0 {
        Some(normalized_url(env_url->0))
    } else if saved is Some && trim(saved->0).len() > 0 {
        Some(normalized_url(saved->0))
    } else if bundled.len() > 0 {
        Some(bundled)
    } else {
        None
    }
}

/// The server URL in effect, from the environment's value, the saved
/// configuration (when it could be read) and the shipped default.
pub fn effective_base_url(
    env_url: Option<&str>,
    cfg: Option<&PresetServerConfig>,
    bundled: &str,
) -> (r: Option<String>)
    ensures
        opt_view(r) == effective_url(
            match env_url {
                Some(u) => Some(u@),
                None => None,
            },
            match cfg {
                Some(c) => opt_view(c.base_url),
                None => None,
            },
            bundled@,
        ),
{
    match env_url {
        Some(u) => {
            let t = normalize_url_vec(u);
            if t.len() > 0 {
                return Some(string_of(&t));
            }
        },
        None => {},
    }
    match cfg {
        Some(c) => match &c.base_url {
            Some(u) => {
                let t = trim_str(u.as_str());
                if t.len() > 0 {
                    return Some(normalize_server_url(u.as_str()));
                }
            },
            None => {},
        },
        None => {},
    }
    let b = chars_of(bundled);
    if b.len() > 0 {
        Some(string_of(&b))
    } else {
        None
    }
}


/// Stripping a suffix repeatedly leaves a prefix that no longer ends with it.
proof fn lemma_trim_end_matches(s: Seq<char>, p: Seq<char>)
    requires
        p.len() > 0,
    ensures
        trim_end_matches(s, p).len() <= s.len(),
        forall|i: int| 0 <= i < trim_end_matches(s, p).len() ==> #[trigger] trim_end_matches(s, p)[i] == s[i],
        !has_suffix(trim_end_matches(s, p), p),
    decreases s.len(),
{
    if has_suffix(s, p) {
        let t = s.take(s.len() - p.len());
        lemma_trim_end_matches(t, p);
    }
}

/// Law: a server URL saved from what the user entered is the one in effect
/// when the environment names none. It fails only where stripping trailing
/// slashes leaves white space at the end (`"https://example.com /"`).
pub proof fn saved_server_url_is_used(entered: Seq<char>, bundled: Seq<char>)
    requires
        normalized_url(entered).len() == 0 || !is_ws(normalized_url(entered).last()),
    ensures
        entered_url(Some(entered)) matches Ok(Some(t)) ==> effective_url(None, Some(t), bundled) == Some(t),
{
    let tr = trim(entered);
    let t = normalized_url(entered);
    reveal_strlit("/");
    let slash = "/"@;
    assert(slash.len() == 1);
    lemma_trim_end_matches(tr, slash);
    crate::text::lemma_trim_ends(entered);
    if t.len() > 0 {
        assert(t[0] == tr[0]);
        crate::text::lemma_trim_id(t);
        assert(trim(t) == t);
        assert(trim_end_matches(t, slash) == t);
        assert(normalized_url(t) == t);
    }
}

} // verus!
