//! OAuth token records and the pure parts of the Codex and GitHub Copilot sign-in flows.

use vstd::prelude::*;

use crate::streaming::opt_view;
use crate::text::{
    chars_eq, chars_of, contains_exec, contains_seq, decimal, find, find_exec, is_blank,
    is_blank_exec, lemma_find_from_first, lines, occurs_at, owned, push_chars, push_str,
    slice_chars, starts_with, starts_with_exec, string_of, trim, trim_chars, utf8_len,
    utf8_len_exec, words,
};

verus! {

/// Messages from background OAuth threads to the UI (drained each frame).
#[derive(Debug)]
pub enum OAuthUiMsg {
    CodexOpenBrowser { url: String },
    CodexDone(Result<(), String>),
}

/// Tokens of a ChatGPT (Codex) OAuth sign-in.
#[derive(Debug, Clone)]
pub struct CodexOAuthRecord {
    pub refresh_token: String,
    pub access_token: String,
    pub expires_ms: i64,
    pub account_id: String,
}

/// All stored OAuth sign-ins.
#[derive(Debug, Clone)]
pub struct OAuthStore {
    pub openai_codex: Option<CodexOAuthRecord>,
}

impl Default for CodexOAuthRecord {
    fn default() -> (res: CodexOAuthRecord)
        ensures
            res.refresh_token@.len() == 0,
            res.access_token@.len() == 0,
            res.expires_ms == 0,
            res.account_id@.len() == 0,
    {
        CodexOAuthRecord {
            refresh_token: String::new(),
            access_token: String::new(),
            expires_ms: 0,
            account_id: String::new(),
        }
    }
}

impl Default for OAuthStore {
    fn default() -> (res: OAuthStore)
        ensures
            res.openai_codex is None,
    {
        OAuthStore { openai_codex: None }
    }
}

/// Records a Codex sign-in, replacing any earlier one.
pub fn merge_codex(store: &mut OAuthStore, rec: CodexOAuthRecord)
    ensures
        final(store).openai_codex == Some(rec),
{
    store.openai_codex = Some(rec);
}

/// Forgets the Codex sign-in.
pub fn clear_codex(store: &mut OAuthStore)
    ensures
        final(store).openai_codex is None,
{
    store.openai_codex = None;
}

/// Law: a merged sign-in is the one stored, and clearing it leaves none.
pub proof fn law_merge_then_clear(s0: OAuthStore, s1: OAuthStore, s2: OAuthStore, rec: CodexOAuthRecord)
    requires
        s1.openai_codex == Some(rec),
        s2.openai_codex is None,
    ensures
        s1.openai_codex->0 == rec,
        s2 == (OAuthStore { openai_codex: None }),
{
}


// ---------------------------------------------------------------------------
// Codex tokens
// ---------------------------------------------------------------------------

/// The store that loading yields: the keychain's copy when it holds a Codex sign-in, else
/// the store of the migrated legacy file when there is one, else the keychain's copy.
pub open spec fn loaded_oauth(keychain: OAuthStore, legacy: Option<OAuthStore>) -> OAuthStore {
    if keychain.openai_codex is Some {
        keychain
    } else {
        match legacy {
            Some(l) => l,
            None => keychain,
        }
    }
}

/// Loads the OAuth store from the keychain's copy and, when it holds no sign-in, the
/// legacy file's.
pub fn load_oauth_store(keychain: OAuthStore, legacy: Option<OAuthStore>) -> (res: OAuthStore)
    ensures
        res == loaded_oauth(keychain, legacy),
{
    if keychain.openai_codex.is_some() {
        return keychain;
    }
    match legacy {
        Some(l) => l,
        None => keychain,
    }
}

/// Whether the legacy plaintext file may be deleted after migrating it: only when it held
/// nothing to keep or its contents were saved to the keychain, so a failed save never signs
/// the user out.
pub fn legacy_file_removable(had_data: bool, saved: bool) -> (res: bool)
    ensures
        res == (!had_data || saved),
{
    !had_data || saved
}

/// Milliseconds before expiry at which a stored access token counts as stale.
pub const TOKEN_REFRESH_MARGIN_MS: i64 = 60_000;

/// What the stored Codex sign-in offers at a given time.
#[derive(Debug)]
pub enum CodexTokenState {
    /// No Codex sign-in is stored.
    NotSignedIn,
    /// The stored access token (and its account id) is valid for more than the margin.
    Fresh { access_token: String, account_id: String },
    /// The stored access token expires within the margin; refresh with this token.
    Stale { refresh_token: String },
}

/// The state of the stored Codex sign-in at time `now_ms` (milliseconds since the epoch).
pub fn codex_token_state(store: &OAuthStore, now_ms: i64) -> (res: CodexTokenState)
    requires
        now_ms <= i64::MAX - TOKEN_REFRESH_MARGIN_MS,
    ensures
        match store.openai_codex {
            None => res is NotSignedIn,
            Some(rec) => if rec.expires_ms > now_ms + TOKEN_REFRESH_MARGIN_MS {
                res matches CodexTokenState::Fresh { access_token, account_id } && access_token
                    == rec.access_token && account_id == rec.account_id
            } else {
                res matches CodexTokenState::Stale { refresh_token } && refresh_token
                    == rec.refresh_token
            },
        },
{
    match &store.openai_codex {
        None => CodexTokenState::NotSignedIn,
        Some(rec) => {
            if rec.expires_ms > now_ms + TOKEN_REFRESH_MARGIN_MS {
                CodexTokenState::Fresh {
                    access_token: rec.access_token.clone(),
                    account_id: rec.account_id.clone(),
                }
            } else {
                CodexTokenState::Stale { refresh_token: rec.refresh_token.clone() }
            }
        },
    }
}

/// Stores refreshed Codex tokens that expire `expires_in_s` seconds after `now_ms`.
pub fn apply_codex_refresh(
    store: &mut OAuthStore,
    access_token: String,
    refresh_token: String,
    expires_in_s: i64,
    account_id: String,
    now_ms: i64,
)
    requires
        i64::MIN <= expires_in_s * 1000 <= i64::MAX,
        i64::MIN <= now_ms + expires_in_s * 1000 <= i64::MAX,
    ensures
        match old(store).openai_codex {
            None => final(store).openai_codex is None,
            Some(_) => final(store).openai_codex == Some(
                CodexOAuthRecord {
                    refresh_token,
                    access_token,
                    expires_ms: (now_ms + expires_in_s * 1000) as i64,
                    account_id,
                },
            ),
        },
{
    if store.openai_codex.is_some() {
        store.openai_codex = Some(
            CodexOAuthRecord {
                refresh_token,
                access_token,
                expires_ms: now_ms + expires_in_s * 1000,
                account_id,
            },
        );
    }
}

/// Law: tokens refreshed at `now_ms` with a lifetime of more than a minute are fresh at
/// `now_ms`: the next request uses them instead of refreshing again.
pub proof fn law_refreshed_token_is_fresh(
    rec: CodexOAuthRecord,
    now_ms: i64,
    expires_in_s: i64,
)
    requires
        60 < expires_in_s,
        rec.expires_ms == now_ms + expires_in_s * 1000,
    ensures
        rec.expires_ms > now_ms + TOKEN_REFRESH_MARGIN_MS,
{
}

/// The page shown in the browser after a successful sign-in.
pub fn success_html() -> (res: &'static str)
    ensures
        res@ == "<!DOCTYPE html><html><body><p>Authentication completed. You can close this window.</p></body></html>"@,
{
    "<!DOCTYPE html><html><body><p>Authentication completed. You can close this window.</p></body></html>"
}

/// The HTML escape of one character: `&`, `<` and `>` become entities.
pub open spec fn html_escape_char(c: char) -> Seq<char> {
    if c == '&' {
        "&amp;"@
    } else if c == '<' {
        "&lt;"@
    } else if c == '>' {
        "&gt;"@
    } else {
        seq![c]
    }
}

/// `s` with `&`, `<` and `>` escaped for HTML text.
pub open spec fn html_escaped(s: Seq<char>) -> Seq<char>
    decreases s.len(),
{
    if s.len() == 0 {
        Seq::empty()
    } else {
        html_escape_char(s[0]) + html_escaped(s.drop_first())
    }
}

/// Escapes `&`, `<` and `>` for HTML text.
pub fn html_escape(s: &str) -> (res: String)
    ensures
        res@ == html_escaped(s@),
{
    let cs = chars_of(s);
    let mut out = String::new();
    let mut k: usize = 0;
    assert(cs@.skip(0) == cs@);
    while k < cs.len()
        invariant
            k <= cs.len(),
            out@ + html_escaped(cs@.skip(k as int)) == html_escaped(cs@),
        decreases cs.len() - k,
    {
        assert(cs@.skip(k as int).drop_first() == cs@.skip(k + 1));
        let c = cs[k];
        if c == '&' {
            push_str(&mut out, "&amp;");
        } else if c == '<' {
            push_str(&mut out, "&lt;");
        } else if c == '>' {
            push_str(&mut out, "&gt;");
        } else {
            crate::text::push_char(&mut out, c);
        }
        k = k + 1;
    }
    assert(cs@.skip(cs@.len() as int) =~= Seq::<char>::empty());
    out
}

/// The page shown in the browser when the sign-in callback fails.
pub open spec fn error_page(msg: Seq<char>) -> Seq<char> {
    "<!DOCTYPE html><html><body><p>OAuth error: "@ + html_escaped(msg) + "</p></body></html>"@
}

/// The HTML page reporting an OAuth error.
pub fn err_html(msg: &str) -> (res: String)
    ensures
        res@ == error_page(msg@),
{
    let mut out = owned("<!DOCTYPE html><html><body><p>OAuth error: ");
    let e = html_escape(msg);
    push_str(&mut out, e.as_str());
    push_str(&mut out, "</p></body></html>");
    out
}

// ---------------------------------------------------------------------------
// GitHub Copilot
// ---------------------------------------------------------------------------

/// The device-code, access-token and Copilot-token endpoints of a GitHub domain.
pub open spec fn domain_urls(domain: Seq<char>) -> (Seq<char>, Seq<char>, Seq<char>) {
    (
        "https://"@ + domain + "/login/device/code"@,
        "https://"@ + domain + "/login/oauth/access_token"@,
        "https://api."@ + domain + "/copilot_internal/v2/token"@,
    )
}

/// The OAuth endpoints of a GitHub (Enterprise) domain.
pub fn urls_for_domain(domain: &str) -> (res: (String, String, String))
    ensures
        (res.0@, res.1@, res.2@) == domain_urls(domain@),
{
    let mut a = owned("https://");
    push_str(&mut a, domain);
    push_str(&mut a, "/login/device/code");
    let mut b = owned("https://");
    push_str(&mut b, domain);
    push_str(&mut b, "/login/oauth/access_token");
    let mut c = owned("https://api.");
    push_str(&mut c, domain);
    push_str(&mut c, "/copilot_internal/v2/token");
    (a, b, c)
}

/// The Copilot API base URL: from the `proxy-ep=` claim of the Copilot token (its host,
/// without a `proxy.` prefix and with an `api.` prefix), else from the enterprise domain,
/// else the individual endpoint.
pub open spec fn copilot_base_url(token: Seq<char>, enterprise: Option<Seq<char>>) -> Seq<char> {
    let idx = find(token, "proxy-ep="@);
    if idx >= 0 {
        let rest = token.skip(idx + 9);
        let semi = find(rest, ";"@);
        let proxy_host = if semi < 0 {
            rest
        } else {
            rest.take(semi)
        };
        let core = if starts_with(proxy_host, "proxy."@) {
            proxy_host.skip(6)
        } else {
            proxy_host
        };
        let host = if starts_with(core, "api."@) {
            core
        } else {
            "api."@ + core
        };
        "https://"@ + host
    } else {
        match enterprise {
            Some(d) if trim(d).len() > 0 => "https://copilot-api."@ + trim(d),
            _ => "https://api.individual.githubcopilot.com"@,
        }
    }
}

/// Law: a token with a `proxy-ep=` claim decides the Copilot base URL on its own: the URL is
/// the same whatever enterprise domain is given, and it is an `https://api.` host. The
/// enterprise domain only names the endpoint for tokens without the claim.
pub proof fn law_proxy_claim_decides_base_url(token: Seq<char>, enterprise: Option<Seq<char>>)
    ensures
        contains_seq(token, "proxy-ep="@) ==> copilot_base_url(token, enterprise)
            == copilot_base_url(token, None),
        contains_seq(token, "proxy-ep="@) ==> starts_with(
            copilot_base_url(token, enterprise),
            "https://api."@,
        ),
        !contains_seq(token, "proxy-ep="@) ==> copilot_base_url(token, enterprise) == match enterprise {
            Some(d) => if trim(d).len() > 0 {
                "https://copilot-api."@ + trim(d)
            } else {
                "https://api.individual.githubcopilot.com"@
            },
            None => "https://api.individual.githubcopilot.com"@,
        },
{
    reveal_strlit("https://");
    reveal_strlit("api.");
    reveal_strlit("https://api.");
    if contains_seq(token, "proxy-ep="@) {
        let i = choose|i: int| occurs_at(token, "proxy-ep="@, i);
        crate::text::lemma_find_from_reaches(token, "proxy-ep="@, 0, i);
        let idx = find(token, "proxy-ep="@);
        assert(idx >= 0);
        let rest = token.skip(idx + 9);
        let semi = find(rest, ";"@);
        let proxy_host = if semi < 0 {
            rest
        } else {
            rest.take(semi)
        };
        let core = if starts_with(proxy_host, "proxy."@) {
            proxy_host.skip(6)
        } else {
            proxy_host
        };
        let host = if starts_with(core, "api."@) {
            core
        } else {
            "api."@ + core
        };
        let url = "https://"@ + host;
        assert(url == copilot_base_url(token, enterprise));
        if starts_with(core, "api."@) {
            let a = core.subrange(0, 4);
            assert(a =~= "api."@);
            assert forall|k: int| 0 <= k < 12 implies #[trigger] url.subrange(0, 12)[k]
                == "https://api."@[k] by {
                if k >= 8 {
                    assert(url[k] == core[k - 8]);
                    assert(core[k - 8] == a[k - 8]);
                }
            }
            assert(url.subrange(0, 12) =~= "https://api."@);
        } else {
            assert(url.subrange(0, 12) =~= "https://api."@);
        }
    } else {
        crate::text::lemma_find_from_none(token, "proxy-ep="@, 0);
    }
}

/// Extract the `https://api.*` base URL from the Copilot token's `proxy-ep=` claim.
pub fn get_copilot_api_base_url(copilot_token: &str, enterprise_domain: Option<&str>) -> (res: String)
    ensures
        res@ == copilot_base_url(
            copilot_token@,
            match enterprise_domain {
                Some(d) => Some(d@),
                None => None,
            },
        ),
{
    proof {
        reveal_strlit("proxy-ep=");
        reveal_strlit(";");
        reveal_strlit("proxy.");
        reveal_strlit("api.");
    }
    let t = chars_of(copilot_token);
    let marker = chars_of("proxy-ep=");
    if let Some(idx) = find_exec(t.as_slice(), marker.as_slice()) {
        let len = t.len();
        let rest = slice_chars(&t, idx + 9, len);
        let semi = chars_of(";");
        let proxy_host = match find_exec(rest.as_slice(), semi.as_slice()) {
            Some(e) => slice_chars(&rest, 0, e),
            None => rest,
        };
        let core = if starts_with_exec(&proxy_host, &chars_of("proxy.")) {
            let pl = proxy_host.len();
            slice_chars(&proxy_host, 6, pl)
        } else {
            proxy_host
        };
        let mut out = owned("https://");
        if !starts_with_exec(&core, &chars_of("api.")) {
            push_str(&mut out, "api.");
        }
        push_chars(&mut out, &core);
        return out;
    }
    if let Some(d) = enterprise_domain {
        let dt = trim_chars(&chars_of(d));
        if dt.len() > 0 {
            let mut out = owned("https://copilot-api.");
            push_chars(&mut out, &dt);
            return out;
        }
    }
    owned("https://api.individual.githubcopilot.com")
}


// ---------------------------------------------------------------------------
// Calls into `url`, `base64` and `serde_json`
// ---------------------------------------------------------------------------

/// The host of the URL `u` as `url::Url::parse` and `Url::host_str` give it; `None` when
/// `u` does not parse or has no host.
pub uninterp spec fn url_host(u: Seq<char>) -> Option<Seq<char>>;

/// `url::Url::parse(u)` then `Url::host_str`. The result is tied to `u` by the name
/// `url_host`; what the URL grammar accepts is not stated.
#[verifier::external_body]
fn url_host_of(u: &str) -> (res: Option<String>)
    ensures
        match res {
            Some(h) => url_host(u@) == Some(h@),
            None => url_host(u@) is None,
        },
{
    url::Url::parse(u).ok()?.host_str().map(str::to_owned)
}

/// The user name of URL `u` as `url::Url::parse` and `Url::username` give it (empty when the
/// URL names none); `None` when `u` does not parse.
pub uninterp spec fn url_username(u: Seq<char>) -> Option<Seq<char>>;

/// `url::Url::parse(u)` then `Url::username`. The result is tied to `u` by the name
/// `url_username`; what the URL grammar accepts is not stated.
#[verifier::external_body]
pub(crate) fn url_username_of(u: &str) -> (res: Option<String>)
    ensures
        match res {
            Some(n) => url_username(u@) == Some(n@),
            None => url_username(u@) is None,
        },
{
    match url::Url::parse(u) {
        Ok(x) => Some(x.username().to_owned()),
        Err(_) => None,
    }
}

/// The serialization of URL `u` after appending the form-encoded query pair `key=value`
/// (`Url::query_pairs_mut().append_pair`); `None` when `u` does not parse.
pub uninterp spec fn url_append_pair(u: Seq<char>, key: Seq<char>, value: Seq<char>) -> Option<
    Seq<char>,
>;

/// `url::Url::parse(u)`, `query_pairs_mut().append_pair(key, value)`, then `to_string`.
/// The result is tied to its arguments by the name `url_append_pair`; the encoding of the
/// pair is not stated.
#[verifier::external_body]
fn url_with_pair(u: &str, key: &str, value: &str) -> (res: Option<String>)
    ensures
        match res {
            Some(s) => url_append_pair(u@, key@, value@) == Some(s@),
            None => url_append_pair(u@, key@, value@) is None,
        },
{
    let mut url = url::Url::parse(u).ok()?;
    url.query_pairs_mut().append_pair(key, value);
    Some(url.to_string())
}

/// The bytes that the URL-safe, padded base64 text `s` decodes to
/// (`base64::engine::general_purpose::URL_SAFE`); `None` when it is not valid.
pub uninterp spec fn base64_url_decode(s: Seq<char>) -> Option<Seq<u8>>;

/// `URL_SAFE.decode(s)`. The decoded bytes are tied to `s` by the name
/// `base64_url_decode`; the text of a decode error is not stated.
#[verifier::external_body]
fn decode_base64_url(s: &str) -> (res: Result<Vec<u8>, String>)
    ensures
        match res {
            Ok(b) => base64_url_decode(s@) == Some(b@),
            Err(_) => base64_url_decode(s@) is None,
        },
{
    base64::Engine::decode(&base64::engine::general_purpose::URL_SAFE, s.as_bytes()).map_err(
        |e| e.to_string(),
    )
}

/// The string at `outer.inner` of the JSON document `bytes`: `Err` when `bytes` is not
/// JSON, `Ok(None)` when the member is missing or not a string.
pub uninterp spec fn json_nested_str(bytes: Seq<u8>, outer: Seq<char>, inner: Seq<char>) -> Result<
    Option<Seq<char>>,
    (),
>;

/// `serde_json::from_slice::<Value>(bytes)`, then `Value::get(outer)`, `Value::get(inner)`
/// and `Value::as_str`. The result is tied to the arguments by the name `json_nested_str`;
/// the text of a parse error is not stated.
#[verifier::external_body]
fn json_nested_string(bytes: &[u8], outer: &str, inner: &str) -> (res: Result<
    Option<String>,
    String,
>)
    ensures
        match res {
            Ok(Some(v)) => json_nested_str(bytes@, outer@, inner@) == Ok::<
                Option<Seq<char>>,
                (),
            >(Some(v@)),
            Ok(None) => json_nested_str(bytes@, outer@, inner@) == Ok::<
                Option<Seq<char>>,
                (),
            >(None),
            Err(_) => json_nested_str(bytes@, outer@, inner@) is Err,
        },
{
    let v: serde_json::Value = serde_json::from_slice(bytes).map_err(|e| e.to_string())?;
    Ok(v.get(outer).and_then(|x| x.get(inner)).and_then(|x| x.as_str()).map(str::to_owned))
}

// ---------------------------------------------------------------------------
// Sign-in helpers
// ---------------------------------------------------------------------------

/// The host of a GitHub Enterprise URL or bare domain typed by the user (`https://` is
/// assumed when no scheme is given); `None` for blank input or one without a host.
pub open spec fn normalized_domain(input: Seq<char>) -> Option<Seq<char>> {
    let t = trim(input);
    if t.len() == 0 {
        None
    } else {
        let with_scheme = if contains_seq(t, "://"@) {
            t
        } else {
            "https://"@ + t
        };
        match url_host(with_scheme) {
            Some(h) => if h.len() > 0 {
                Some(h)
            } else {
                None
            },
            None => None,
        }
    }
}

/// Normalizes a GitHub Enterprise URL or domain to its host.
pub fn normalize_domain(input: &str) -> (res: Option<String>)
    ensures
        match res {
            Some(h) => normalized_domain(input@) == Some(h@),
            None => normalized_domain(input@) is None,
        },
{
    let t = trim_chars(&chars_of(input));
    if t.len() == 0 {
        return None;
    }
    let with_scheme = if contains_exec(&t, &chars_of("://")) {
        string_of(&t)
    } else {
        let mut w = owned("https://");
        push_chars(&mut w, &t);
        w
    };
    match url_host_of(with_scheme.as_str()) {
        Some(h) => if !h.as_str().is_empty() {
            Some(h)
        } else {
            None
        },
        None => None,
    }
}

/// The GitHub Enterprise domain a Copilot login uses: none for a blank entry (github.com),
/// the normalized host of anything else, refused when it has none.
pub fn enterprise_domain(input: &str) -> (res: Result<Option<String>, String>)
    ensures
        is_blank(input@) ==> res matches Ok(None),
        !is_blank(input@) ==> match normalized_domain(input@) {
            Some(h) => res matches Ok(Some(d)) && d@ == h,
            None => res matches Err(e) && e@ == "Invalid GitHub Enterprise URL/domain"@,
        },
{
    if is_blank_exec(&chars_of(input)) {
        return Ok(None);
    }
    match normalize_domain(input) {
        Some(h) => Ok(Some(h)),
        None => Err(owned("Invalid GitHub Enterprise URL/domain")),
    }
}

/// The OpenAI authorization endpoint.
pub const AUTHORIZE_URL: &'static str = "https://auth.openai.com/oauth/authorize";

/// `url` with the query pairs of `pairs` appended in order; `None` when a step fails.
pub open spec fn with_pairs(url: Seq<char>, pairs: Seq<(Seq<char>, Seq<char>)>) -> Option<Seq<char>>
    decreases pairs.len(),
{
    if pairs.len() == 0 {
        Some(url)
    } else {
        match with_pairs(url, pairs.drop_last()) {
            Some(u) => url_append_pair(u, pairs.last().0, pairs.last().1),
            None => None,
        }
    }
}

/// The OpenAI token endpoint.
pub const TOKEN_URL: &'static str = "https://auth.openai.com/oauth/token";

/// The form pairs as values.
pub open spec fn pairs_view(v: Seq<(String, String)>) -> Seq<(Seq<char>, Seq<char>)> {
    v.map_values(|p: (String, String)| (p.0@, p.1@))
}

/// The form that exchanges an authorization code (with its PKCE verifier) for tokens.
pub open spec fn code_exchange_pairs(code: Seq<char>, verifier: Seq<char>) -> Seq<(Seq<char>, Seq<char>)> {
    seq![
        ("grant_type"@, "authorization_code"@),
        ("client_id"@, "app_EMoamEEZ73f0CkXaXp7hrann"@),
        ("code"@, code),
        ("code_verifier"@, verifier),
        ("redirect_uri"@, "http://localhost:1455/auth/callback"@),
    ]
}

/// The form that trades a refresh token for new tokens.
pub open spec fn refresh_pairs(refresh_token: Seq<char>) -> Seq<(Seq<char>, Seq<char>)> {
    seq![
        ("grant_type"@, "refresh_token"@),
        ("refresh_token"@, refresh_token),
        ("client_id"@, "app_EMoamEEZ73f0CkXaXp7hrann"@),
    ]
}

fn pair(k: &str, v: &str) -> (res: (String, String))
    ensures
        res.0@ == k@,
        res.1@ == v@,
{
    (owned(k), owned(v))
}

/// The body posted to the token endpoint to redeem an authorization code.
pub fn code_exchange_form(code: &str, verifier: &str) -> (res: Vec<(String, String)>)
    ensures
        pairs_view(res@) == code_exchange_pairs(code@, verifier@),
{
    let mut v: Vec<(String, String)> = Vec::new();
    v.push(pair("grant_type", "authorization_code"));
    v.push(pair("client_id", "app_EMoamEEZ73f0CkXaXp7hrann"));
    v.push(pair("code", code));
    v.push(pair("code_verifier", verifier));
    v.push(pair("redirect_uri", "http://localhost:1455/auth/callback"));
    assert(pairs_view(v@) =~= code_exchange_pairs(code@, verifier@));
    v
}

/// The body posted to the token endpoint to refresh the tokens.
pub fn refresh_form(refresh_token: &str) -> (res: Vec<(String, String)>)
    ensures
        pairs_view(res@) == refresh_pairs(refresh_token@),
{
    let mut v: Vec<(String, String)> = Vec::new();
    v.push(pair("grant_type", "refresh_token"));
    v.push(pair("refresh_token", refresh_token));
    v.push(pair("client_id", "app_EMoamEEZ73f0CkXaXp7hrann"));
    assert(pairs_view(v@) =~= refresh_pairs(refresh_token@));
    v
}

/// The record stored after signing in at `now_ms` with tokens that live `expires_in_s`
/// seconds.
pub fn codex_login_record(
    access_token: String,
    refresh_token: String,
    expires_in_s: i64,
    account_id: String,
    now_ms: i64,
) -> (res: CodexOAuthRecord)
    requires
        i64::MIN <= expires_in_s * 1000 <= i64::MAX,
        i64::MIN <= now_ms + expires_in_s * 1000 <= i64::MAX,
    ensures
        res == (CodexOAuthRecord {
            refresh_token,
            access_token,
            expires_ms: (now_ms + expires_in_s * 1000) as i64,
            account_id,
        }),
{
    CodexOAuthRecord { refresh_token, access_token, expires_ms: now_ms + expires_in_s * 1000, account_id }
}

/// The query pairs of the Codex authorization request.
pub open spec fn authorize_pairs(challenge: Seq<char>, state: Seq<char>) -> Seq<(Seq<char>, Seq<char>)> {
    seq![
        ("response_type"@, "code"@),
        ("client_id"@, "app_EMoamEEZ73f0CkXaXp7hrann"@),
        ("redirect_uri"@, "http://localhost:1455/auth/callback"@),
        ("scope"@, "openid profile email offline_access"@),
        ("code_challenge"@, challenge),
        ("code_challenge_method"@, "S256"@),
        ("state"@, state),
        ("id_token_add_organizations"@, "true"@),
        ("codex_cli_simplified_flow"@, "true"@),
        ("originator"@, "oxi"@),
    ]
}

/// The Codex authorization URL for a PKCE challenge and state; the bare endpoint when the
/// URL cannot be built.
pub open spec fn authorize_url(challenge: Seq<char>, state: Seq<char>) -> Seq<char> {
    match with_pairs(AUTHORIZE_URL@, authorize_pairs(challenge, state)) {
        Some(u) => u,
        None => AUTHORIZE_URL@,
    }
}

/// Builds the Codex authorization URL.
pub fn build_authorize_url(challenge: &str, state: &str) -> (res: String)
    ensures
        res@ == authorize_url(challenge@, state@),
{
    let keys: [&str; 10] = [
        "response_type",
        "client_id",
        "redirect_uri",
        "scope",
        "code_challenge",
        "code_challenge_method",
        "state",
        "id_token_add_organizations",
        "codex_cli_simplified_flow",
        "originator",
    ];
    let values: [&str; 10] = [
        "code",
        "app_EMoamEEZ73f0CkXaXp7hrann",
        "http://localhost:1455/auth/callback",
        "openid profile email offline_access",
        challenge,
        "S256",
        state,
        "true",
        "true",
        "oxi",
    ];
    let ghost pairs = authorize_pairs(challenge@, state@);
    let mut url = owned(AUTHORIZE_URL);
    let mut i: usize = 0;
    while i < 10
        invariant
            i <= 10,
            pairs == authorize_pairs(challenge@, state@),
            forall|k: int| 0 <= k < 10 ==> (#[trigger] keys@[k])@ == pairs[k].0 && values@[k]@ == pairs[k].1,
            with_pairs(AUTHORIZE_URL@, pairs.take(i as int)) == Some(url@),
        decreases 10 - i,
    {
        proof {
            let t = pairs.take(i + 1);
            assert(t.drop_last() == pairs.take(i as int));
            assert(t.last() == pairs[i as int]);
        }
        match url_with_pair(url.as_str(), keys[i], values[i]) {
            Some(u) => url = u,
            None => {
                proof {
                    lemma_with_pairs_none(AUTHORIZE_URL@, pairs, i as int + 1);
                    assert(pairs.take(10) == pairs);
                }
                return owned(AUTHORIZE_URL);
            },
        }
        i = i + 1;
    }
    assert(pairs.take(10) == pairs);
    url
}

proof fn lemma_with_pairs_none(url: Seq<char>, pairs: Seq<(Seq<char>, Seq<char>)>, n: int)
    requires
        0 <= n <= pairs.len(),
        with_pairs(url, pairs.take(n)) is None,
    ensures
        with_pairs(url, pairs) is None,
    decreases pairs.len() - n,
{
    if n < pairs.len() {
        let t = pairs.take(n + 1);
        assert(t.drop_last() == pairs.take(n));
        lemma_with_pairs_none(url, pairs, n + 1);
    } else {
        assert(pairs.take(n) == pairs);
    }
}

/// The number of `'.'` characters in `s`.
pub open spec fn dot_count(s: Seq<char>) -> nat
    decreases s.len(),
{
    if s.len() == 0 {
        0
    } else {
        dot_count(s.drop_last()) + if s.last() == '.' {
            1nat
        } else {
            0nat
        }
    }
}

/// The key under which OpenAI access tokens carry their auth claims.
pub const JWT_AUTH: &'static str = "https://api.openai.com/auth";

/// Why an access token yields no ChatGPT account id.
pub enum AccountIdError {
    /// The token is not three `.`-separated parts.
    InvalidShape,
    /// The payload is not valid base64; the message is the decoder's.
    Decode(String),
    /// The payload is not JSON; the message is the parser's.
    Json(String),
    /// The payload has no string claim `chatgpt_account_id`.
    MissingClaim,
}

/// The user-facing message of an [`AccountIdError`].
pub fn account_id_error_message(e: &AccountIdError) -> (res: String)
    ensures
        match e {
            AccountIdError::InvalidShape => res@ == "Invalid JWT shape"@,
            AccountIdError::Decode(m) => res@ == m@,
            AccountIdError::Json(m) => res@ == m@,
            AccountIdError::MissingClaim => res@ == "Missing chatgpt_account_id in token"@,
        },
{
    match e {
        AccountIdError::InvalidShape => owned("Invalid JWT shape"),
        AccountIdError::Decode(m) => owned(m.as_str()),
        AccountIdError::Json(m) => owned(m.as_str()),
        AccountIdError::MissingClaim => owned("Missing chatgpt_account_id in token"),
    }
}

/// The payload part of a three-part JWT: the text between its two dots.
pub open spec fn jwt_payload(token: Seq<char>) -> Seq<char> {
    let a = find(token, "."@);
    let rest = token.skip(a + 1);
    let b = find(rest, "."@);
    rest.take(b)
}

/// `payload` padded with `=` to a multiple of four UTF-8 bytes.
pub open spec fn padded_payload(payload: Seq<char>) -> Seq<char> {
    let pad = (4 - utf8_len(payload) % 4) % 4;
    payload + Seq::new(pad as nat, |i: int| '=')
}

/// The outcome of reading the ChatGPT account id from an access token.
pub open spec fn account_id_outcome(token: Seq<char>) -> Result<Seq<char>, int> {
    if dot_count(token) != 2 {
        Err(0)
    } else {
        match base64_url_decode(padded_payload(jwt_payload(token))) {
            None => Err(1),
            Some(bytes) => match json_nested_str(bytes, JWT_AUTH@, "chatgpt_account_id"@) {
                Err(_) => Err(2),
                Ok(None) => Err(3),
                Ok(Some(id)) => Ok(id),
            },
        }
    }
}

fn count_dots(s: &[char]) -> (res: usize)
    ensures
        res == dot_count(s@),
{
    let mut n: usize = 0;
    let mut i: usize = 0;
    while i < s.len()
        invariant
            i <= s.len(),
            n <= i,
            n == dot_count(s@.take(i as int)),
        decreases s.len() - i,
    {
        proof {
            let t = s@.take(i + 1);
            assert(t.drop_last() == s@.take(i as int));
        }
        if s[i] == '.' {
            n = n + 1;
        }
        i = i + 1;
    }
    assert(s@.take(s@.len() as int) == s@);
    n
}

/// The ChatGPT account id in an OpenAI access token (a JWT).
pub fn extract_account_id(access_token: &str) -> (res: Result<String, AccountIdError>)
    ensures
        match res {
            Ok(id) => account_id_outcome(access_token@) == Ok::<Seq<char>, int>(id@),
            Err(AccountIdError::InvalidShape) => account_id_outcome(access_token@) == Err::<
                Seq<char>,
                int,
            >(0),
            Err(AccountIdError::Decode(_)) => account_id_outcome(access_token@) == Err::<
                Seq<char>,
                int,
            >(1),
            Err(AccountIdError::Json(_)) => account_id_outcome(access_token@) == Err::<
                Seq<char>,
                int,
            >(2),
            Err(AccountIdError::MissingClaim) => account_id_outcome(access_token@) == Err::<
                Seq<char>,
                int,
            >(3),
        },
{
    let t = chars_of(access_token);
    if count_dots(&t) != 2 {
        return Err(AccountIdError::InvalidShape);
    }
    proof {
        reveal_strlit(".");
    }
    let dot = chars_of(".");
    let a = match find_exec(t.as_slice(), dot.as_slice()) {
        Some(a) => a,
        None => {
            // two dots exist, so a first one is found
            proof {
                lemma_dot_found(t@);
            }
            return Err(AccountIdError::InvalidShape);
        },
    };
    let len = t.len();
    let rest = slice_chars(&t, a + 1, len);
    let b = match find_exec(rest.as_slice(), dot.as_slice()) {
        Some(b) => b,
        None => {
            proof {
                lemma_second_dot_found(t@, a as int);
            }
            return Err(AccountIdError::InvalidShape);
        },
    };
    let payload = slice_chars(&rest, 0, b);
    let plen = utf8_len_exec(&payload);
    let pad = (4 - plen % 4) % 4;
    let mut padded = string_of(&payload);
    let mut k: usize = 0;
    let ghost p0 = padded@;
    while k < pad
        invariant
            k <= pad <= 3,
            padded@ == p0 + Seq::new(k as nat, |i: int| '='),
        decreases pad - k,
    {
        crate::text::push_char(&mut padded, '=');
        assert(p0 + Seq::new((k + 1) as nat, |i: int| '=') =~= (p0 + Seq::new(
            k as nat,
            |i: int| '=',
        )).push('='));
        k = k + 1;
    }
    let bytes = match decode_base64_url(padded.as_str()) {
        Ok(b) => b,
        Err(e) => return Err(AccountIdError::Decode(e)),
    };
    match json_nested_string(bytes.as_slice(), JWT_AUTH, "chatgpt_account_id") {
        Err(e) => Err(AccountIdError::Json(e)),
        Ok(None) => Err(AccountIdError::MissingClaim),
        Ok(Some(id)) => Ok(id),
    }
}

proof fn lemma_dot_count_pos_has_dot(s: Seq<char>)
    requires
        dot_count(s) > 0,
    ensures
        exists|i: int| 0 <= i < s.len() && s[i] == '.',
    decreases s.len(),
{
    if s.last() == '.' {
        assert(s[s.len() - 1] == '.');
    } else {
        lemma_dot_count_pos_has_dot(s.drop_last());
        let i = choose|i: int| 0 <= i < s.drop_last().len() && s.drop_last()[i] == '.';
        assert(s[i] == '.');
    }
}

proof fn lemma_dot_found(s: Seq<char>)
    requires
        dot_count(s) == 2,
    ensures
        find(s, "."@) >= 0,
{
    reveal_strlit(".");
    lemma_dot_count_pos_has_dot(s);
    let i = choose|i: int| 0 <= i < s.len() && s[i] == '.';
    assert(s.subrange(i, i + 1) =~= "."@);
    crate::text::lemma_find_from_reaches(s, "."@, 0, i);
}

proof fn lemma_dot_count_split(s: Seq<char>, k: int)
    requires
        0 <= k <= s.len(),
    ensures
        dot_count(s) == dot_count(s.take(k)) + dot_count(s.skip(k)),
    decreases s.len() - k,
{
    if k < s.len() {
        lemma_dot_count_split(s.drop_last(), if k <= s.len() - 1 {
            k
        } else {
            s.len() - 1
        });
        if k == s.len() {
        } else {
            assert(s.drop_last().take(k) == s.take(k));
            assert(s.drop_last().skip(k) == s.skip(k).drop_last());
            assert(s.skip(k).last() == s.last());
        }
    } else {
        assert(s.take(k) == s);
        assert(s.skip(k).len() == 0);
    }
}

proof fn lemma_second_dot_found(s: Seq<char>, a: int)
    requires
        dot_count(s) == 2,
        a == find(s, "."@),
        0 <= a,
    ensures
        find(s.skip(a + 1), "."@) >= 0,
{
    reveal_strlit(".");
    crate::text::lemma_find_from_found(s, "."@, 0);
    assert(s.subrange(a, a + 1) == "."@);
    assert(s[a] == s.subrange(a, a + 1)[0]);
    assert forall|j: int| 0 <= j < a implies s[j] != '.' by {
        assert(!occurs_at(s, "."@, j));
        if s[j] == '.' {
            assert(s.subrange(j, j + 1) =~= "."@);
        }
    }
    lemma_dot_count_split(s, a + 1);
    lemma_no_dots(s.take(a));
    assert(s.take(a + 1).drop_last() == s.take(a));
    let r = s.skip(a + 1);
    lemma_dot_count_pos_has_dot(r);
    let i = choose|i: int| 0 <= i < r.len() && r[i] == '.';
    assert(r.subrange(i, i + 1) =~= "."@);
    crate::text::lemma_find_from_reaches(r, "."@, 0, i);
}

proof fn lemma_no_dots(s: Seq<char>)
    requires
        forall|j: int| 0 <= j < s.len() ==> s[j] != '.',
    ensures
        dot_count(s) == 0,
    decreases s.len(),
{
    if s.len() > 0 {
        lemma_no_dots(s.drop_last());
    }
}


// ---------------------------------------------------------------------------
// The local redirect of the Codex sign-in
// ---------------------------------------------------------------------------

/// The name-value pairs of an `application/x-www-form-urlencoded` text, decoded, as
/// `url::form_urlencoded::parse` yields them.
pub uninterp spec fn form_pairs(q: Seq<char>) -> Seq<(Seq<char>, Seq<char>)>;

/// `url::form_urlencoded::parse` over the bytes of `q`, each pair made owned. The pairs are
/// tied to `q` by the name `form_pairs`; how they are decoded is not stated.
#[verifier::external_body]
fn parse_form(q: &str) -> (res: Vec<(String, String)>)
    ensures
        res@.map_values(|p: (String, String)| (p.0@, p.1@)) == form_pairs(q@),
{
    url::form_urlencoded::parse(q.as_bytes()).map(|(k, v)| (k.into_owned(), v.into_owned())).collect()
}

/// The path of an HTTP request: the second word of its first line (empty when missing).
pub open spec fn request_path(req: Seq<char>) -> Seq<char> {
    let first = if lines(req).len() > 0 {
        lines(req)[0]
    } else {
        Seq::empty()
    };
    if words(first).len() > 1 {
        words(first)[1]
    } else {
        Seq::empty()
    }
}

/// The value of the last pair named `key`.
pub open spec fn last_value(pairs: Seq<(Seq<char>, Seq<char>)>, key: Seq<char>) -> Option<
    Seq<char>,
>
    decreases pairs.len(),
{
    if pairs.len() == 0 {
        None
    } else if pairs.last().0 == key {
        Some(pairs.last().1)
    } else {
        last_value(pairs.drop_last(), key)
    }
}

/// The `code` and `state` parameters of the request's query string.
pub open spec fn callback_params(req: Seq<char>) -> (Option<Seq<char>>, Option<Seq<char>>) {
    let path = request_path(req);
    let q = find(path, "?"@);
    if q >= 0 {
        let pairs = form_pairs(path.skip(q + 1));
        (last_value(pairs, "code"@), last_value(pairs, "state"@))
    } else {
        (None, None)
    }
}

/// The redirect is accepted when it carries a code and the expected state.
pub open spec fn callback_accepted(req: Seq<char>, expected_state: Seq<char>) -> bool {
    callback_params(req).1 == Some(expected_state) && callback_params(req).0 is Some
}

/// An HTTP response with an HTML body.
pub open spec fn http_page(status: Seq<char>, body: Seq<char>) -> Seq<char> {
    "HTTP/1.1 "@ + status + "\r\nContent-Type: text/html; charset=utf-8\r\nContent-Length: "@
        + decimal(utf8_len(body)) + "\r\nConnection: close\r\n\r\n"@ + body
}

/// The page the browser gets back from the redirect.
pub open spec fn callback_response(req: Seq<char>, expected_state: Seq<char>) -> Seq<char> {
    if callback_accepted(req, expected_state) {
        http_page("200 OK"@, "<!DOCTYPE html><html><body><p>Authentication completed. You can close this window.</p></body></html>"@)
    } else {
        http_page("400 Bad Request"@, error_page("state mismatch or missing code"@))
    }
}

/// What the sign-in learns from the redirect: the authorization code, or why there is none.
pub open spec fn callback_result(req: Seq<char>, expected_state: Seq<char>) -> Result<
    Seq<char>,
    Seq<char>,
> {
    if callback_accepted(req, expected_state) {
        Ok(callback_params(req).0->0)
    } else {
        Err("OAuth callback: missing code or state mismatch"@)
    }
}

proof fn lemma_utf8_len_bound(s: Seq<char>)
    ensures
        utf8_len(s) <= 4 * s.len(),
    decreases s.len(),
{
    if s.len() > 0 {
        lemma_utf8_len_bound(s.drop_last());
    }
}

proof fn lemma_html_escaped_len(s: Seq<char>)
    ensures
        html_escaped(s).len() <= 5 * s.len(),
    decreases s.len(),
{
    if s.len() > 0 {
        lemma_html_escaped_len(s.drop_first());
        reveal_strlit("&amp;");
        reveal_strlit("&lt;");
        reveal_strlit("&gt;");
    }
}

fn utf8_byte_len(cs: &[char]) -> (res: u64)
    requires
        cs@.len() <= 0x1_0000_0000,
    ensures
        res == utf8_len(cs@),
{
    let mut n: u64 = 0;
    let mut i: usize = 0;
    while i < cs.len()
        invariant
            i <= cs.len(),
            cs@.len() <= 0x1_0000_0000,
            n == utf8_len(cs@.take(i as int)),
            n <= 4 * i,
        decreases cs.len() - i,
    {
        proof {
            let t = cs@.take(i + 1);
            assert(t.drop_last() == cs@.take(i as int));
        }
        let c = cs[i] as u32;
        let w: u64 = if c < 0x80 {
            1
        } else if c < 0x800 {
            2
        } else if c < 0x10000 {
            3
        } else {
            4
        };
        n = n + w;
        i = i + 1;
    }
    assert(cs@.take(cs@.len() as int) == cs@);
    n
}

fn http_page_exec(status: &str, body: &str) -> (res: String)
    requires
        body@.len() <= 0x1_0000_0000,
    ensures
        res@ == http_page(status@, body@),
{
    let len = utf8_byte_len(&chars_of(body));
    let mut out = owned("HTTP/1.1 ");
    push_str(&mut out, status);
    push_str(&mut out, "\r\nContent-Type: text/html; charset=utf-8\r\nContent-Length: ");
    push_chars(&mut out, &crate::text::decimal_exec(len));
    push_str(&mut out, "\r\nConnection: close\r\n\r\n");
    push_str(&mut out, body);
    out
}

/// Reads the browser's redirect to the local callback: returns the response page to send
/// back and the authorization code (or why there is none). `request` is the received
/// request text.
pub fn handle_oauth_callback(request: &str, expected_state: &str) -> (res: (
    String,
    Result<String, String>,
))
    ensures
        res.0@ == callback_response(request@, expected_state@),
        match res.1 {
            Ok(c) => callback_result(request@, expected_state@) == Ok::<Seq<char>, Seq<char>>(c@),
            Err(e) => callback_result(request@, expected_state@) == Err::<Seq<char>, Seq<char>>(
                e@,
            ),
        },
{
    let ghost req = request@;
    let ls = crate::text::split_lines(&chars_of(request));
    let first: Vec<char> = if ls.len() > 0 {
        let l = crate::text::slice_chars(&ls[0], 0, ls[0].len());
        assert(l@ =~= ls@[0]@);
        l
    } else {
        Vec::new()
    };
    proof {
        assert(ls@.map_values(|l: Vec<char>| l@).len() == ls@.len());
        if ls@.len() > 0 {
            assert(ls@.map_values(|l: Vec<char>| l@)[0] == ls@[0]@);
        }
    }
    assert(first@ == if lines(req).len() > 0 {
        lines(req)[0]
    } else {
        Seq::<char>::empty()
    });
    let ws = crate::text::split_words(&first);
    let path: Vec<char> = if ws.len() > 1 {
        crate::text::slice_chars(&ws[1], 0, ws[1].len())
    } else {
        Vec::new()
    };
    assert(path@ =~= request_path(req));
    proof {
        reveal_strlit("?");
    }
    let mut code: Option<String> = None;
    let mut state: Option<String> = None;
    let ghost params = callback_params(req);
    match find_exec(path.as_slice(), chars_of("?").as_slice()) {
        Some(q) => {
            let plen = path.len();
            let query = string_of(&slice_chars(&path, q + 1, plen));
            assert(query@ =~= path@.skip(q + 1));
            let pairs = parse_form(query.as_str());
            let ghost pv = pairs@.map_values(|p: (String, String)| (p.0@, p.1@));
            let code_key = chars_of("code");
            let state_key = chars_of("state");
            let mut i: usize = 0;
            while i < pairs.len()
                invariant
                    i <= pairs@.len(),
                    pv == pairs@.map_values(|p: (String, String)| (p.0@, p.1@)),
                    code_key@ == "code"@,
                    state_key@ == "state"@,
                    opt_view(code) == last_value(pv.take(i as int), "code"@),
                    opt_view(state) == last_value(pv.take(i as int), "state"@),
                decreases pairs.len() - i,
            {
                proof {
                    let t = pv.take(i + 1);
                    assert(t.drop_last() == pv.take(i as int));
                    assert(t.last() == pv[i as int]);
                }
                let k = chars_of(pairs[i].0.as_str());
                if chars_eq(&k, &code_key) {
                    code = Some(owned(pairs[i].1.as_str()));
                }
                if chars_eq(&k, &state_key) {
                    state = Some(owned(pairs[i].1.as_str()));
                }
                proof {
                    reveal_strlit("code");
                    reveal_strlit("state");
                }
                i = i + 1;
            }
            assert(pv.take(pairs@.len() as int) == pv);
        },
        None => {},
    }
    assert(opt_view(code) == params.0);
    assert(opt_view(state) == params.1);
    let state_ok = match &state {
        Some(s) => chars_eq(&chars_of(s.as_str()), &chars_of(expected_state)),
        None => false,
    };
    let ok = state_ok && code.is_some();
    proof {
        reveal_strlit("<!DOCTYPE html><html><body><p>Authentication completed. You can close this window.</p></body></html>");
        reveal_strlit("state mismatch or missing code");
        reveal_strlit("<!DOCTYPE html><html><body><p>OAuth error: ");
        reveal_strlit("</p></body></html>");
        lemma_html_escaped_len("state mismatch or missing code"@);
    }
    if ok {
        let page = http_page_exec("200 OK", success_html());
        match code {
            Some(c) => (page, Ok(c)),
            None => (page, Err(owned("OAuth callback: missing authorization code"))),
        }
    } else {
        let body = err_html("state mismatch or missing code");
        let page = http_page_exec("400 Bad Request", body.as_str());
        (page, Err(owned("OAuth callback: missing code or state mismatch")))
    }
}


// ---------------------------------------------------------------------------
// PKCE and sign-in state
// ---------------------------------------------------------------------------

/// `count` bytes from the thread-local random generator (`rand::thread_rng` and
/// `RngCore::fill_bytes`). Only their number is stated.
#[verifier::external_body]
fn random_bytes(count: usize) -> (res: Vec<u8>)
    ensures
        res@.len() == count,
{
    let mut b = vec![0u8; count];
    rand::RngCore::fill_bytes(&mut rand::thread_rng(), &mut b);
    b
}

/// The unpadded URL-safe base64 text of `b` (`base64::engine::general_purpose::URL_SAFE_NO_PAD`).
pub uninterp spec fn base64url_nopad(b: Seq<u8>) -> Seq<char>;

/// `URL_SAFE_NO_PAD.encode(b)`. The text is tied to `b` by the name `base64url_nopad`.
#[verifier::external_body]
fn encode_base64url(b: &[u8]) -> (res: String)
    ensures
        res@ == base64url_nopad(b@),
{
    base64::Engine::encode(&base64::engine::general_purpose::URL_SAFE_NO_PAD, b)
}

/// The SHA-256 digest of `b` (`sha2::Sha256`).
pub uninterp spec fn sha256_digest(b: Seq<u8>) -> Seq<u8>;

/// `Sha256::digest(b)`. The digest is tied to `b` by the name `sha256_digest`.
#[verifier::external_body]
fn sha256_of(b: &[u8]) -> (res: Vec<u8>)
    ensures
        res@ == sha256_digest(b@),
{
    <sha2::Sha256 as sha2::Digest>::digest(b).to_vec()
}

/// The PKCE `S256` challenge of a verifier: the base64url text of the SHA-256 digest of its
/// UTF-8 bytes.
pub open spec fn s256_challenge(verifier: Seq<char>) -> Seq<char> {
    base64url_nopad(sha256_digest(vstd::utf8::encode_utf8(verifier)))
}

/// A fresh PKCE verifier (32 random bytes, base64url) and its `S256` challenge.
pub fn generate_pkce() -> (res: (String, String))
    ensures
        res.1@ == s256_challenge(res.0@),
        exists|b: Seq<u8>| b.len() == 32 && res.0@ == base64url_nopad(b),
{
    let bytes = random_bytes(32);
    let verifier = encode_base64url(&bytes);
    let challenge = encode_base64url(&sha256_of(verifier.as_str().as_bytes()));
    (verifier, challenge)
}

/// The lowercase hexadecimal digit of `n` (below 16).
pub open spec fn hex_digit(n: u8) -> char {
    if n < 10 {
        (n + 48) as char
    } else {
        (n + 87) as char
    }
}

/// The bytes in lowercase hexadecimal, two digits each.
pub open spec fn hex_lower(b: Seq<u8>) -> Seq<char>
    decreases b.len(),
{
    if b.len() == 0 {
        Seq::empty()
    } else {
        hex_lower(b.drop_last()) + seq![hex_digit(b.last() / 16), hex_digit(b.last() % 16)]
    }
}

fn hex_digit_exec(n: u8) -> (res: char)
    requires
        n < 16,
    ensures
        res == hex_digit(n),
{
    if n < 10 {
        (n + 48) as char
    } else {
        (n + 87) as char
    }
}

/// A fresh OAuth `state`: 16 random bytes in lowercase hexadecimal.
pub fn random_state() -> (res: String)
    ensures
        exists|b: Seq<u8>| b.len() == 16 && res@ == hex_lower(b),
{
    let bytes = random_bytes(16);
    let mut out = String::new();
    let mut i: usize = 0;
    while i < bytes.len()
        invariant
            i <= bytes@.len(),
            out@ == hex_lower(bytes@.take(i as int)),
        decreases bytes.len() - i,
    {
        let b = bytes[i];
        proof {
            let t = bytes@.take(i + 1);
            assert(t.drop_last() == bytes@.take(i as int));
        }
        crate::text::push_char(&mut out, hex_digit_exec(b / 16));
        crate::text::push_char(&mut out, hex_digit_exec(b % 16));
        assert(out@ =~= hex_lower(bytes@.take(i as int)) + seq![hex_digit(b / 16), hex_digit(b % 16)]);
        i = i + 1;
    }
    assert(bytes@.take(16) == bytes@);
    out
}

// ---------------------------------------------------------------------------
// GitHub device flow
// ---------------------------------------------------------------------------

/// What to do after one poll of the GitHub device-flow token endpoint.
pub enum DevicePoll {
    /// The user approved: the GitHub access token.
    Granted(String),
    /// Not approved yet (or the reply said nothing usable): poll again.
    Pending,
    /// Polling too fast: poll again, more slowly.
    SlowDown,
    /// The flow failed with this message.
    Failed(String),
}

/// The decision after a poll whose reply carried `access_token`, `error` and
/// `error_description` (each when present).
pub fn device_poll_step(
    access_token: Option<String>,
    error: Option<String>,
    error_description: Option<String>,
) -> (res: DevicePoll)
    ensures
        match access_token {
            Some(t) => res == DevicePoll::Granted(t),
            None => match error {
                None => res is Pending,
                Some(e) => if e@ == "authorization_pending"@ {
                    res is Pending
                } else if e@ == "slow_down"@ {
                    res is SlowDown
                } else {
                    res matches DevicePoll::Failed(m) && m@ == "device flow: "@ + e@ + match error_description {
                        Some(d) => ": "@ + d@,
                        None => Seq::<char>::empty(),
                    }
                },
            },
        },
{
    if let Some(t) = access_token {
        return DevicePoll::Granted(t);
    }
    match error {
        None => DevicePoll::Pending,
        Some(e) => {
            let ec = chars_of(e.as_str());
            if chars_eq(&ec, &chars_of("authorization_pending")) {
                DevicePoll::Pending
            } else if chars_eq(&ec, &chars_of("slow_down")) {
                DevicePoll::SlowDown
            } else {
                let mut m = owned("device flow: ");
                push_str(&mut m, e.as_str());
                match error_description {
                    Some(d) => {
                        push_str(&mut m, ": ");
                        push_str(&mut m, d.as_str());
                    },
                    None => {},
                }
                DevicePoll::Failed(m)
            }
        },
    }
}

} // verus!
