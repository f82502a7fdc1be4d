use base64::Engine;
use oxi::oauth::{device_poll_step, enterprise_domain, DevicePoll};
use oxi::oauth::{code_exchange_form, codex_login_record, refresh_form, TOKEN_URL};
use sha2::Digest;
use oxi::oauth::{
    account_id_error_message, apply_codex_refresh, build_authorize_url, codex_token_state,
    err_html, extract_account_id, get_copilot_api_base_url, html_escape, normalize_domain,
    urls_for_domain, AccountIdError, CodexOAuthRecord, CodexTokenState, OAuthStore,
};

fn record(expires_ms: i64) -> CodexOAuthRecord {
    CodexOAuthRecord {
        refresh_token: "r1".into(),
        access_token: "a1".into(),
        expires_ms,
        account_id: "acc".into(),
    }
}

#[test]
fn html_is_escaped_in_error_pages() {
    assert_eq!(html_escape("a<b>&c"), "a&lt;b&gt;&amp;c");
    assert_eq!(
        err_html("bad <state>"),
        "<!DOCTYPE html><html><body><p>OAuth error: bad &lt;state&gt;</p></body></html>"
    );
}

#[test]
fn enterprise_urls() {
    let (device, token, copilot) = urls_for_domain("ghe.example.com");
    assert_eq!(device, "https://ghe.example.com/login/device/code");
    assert_eq!(token, "https://ghe.example.com/login/oauth/access_token");
    assert_eq!(copilot, "https://api.ghe.example.com/copilot_internal/v2/token");
}

#[test]
fn copilot_base_url_from_token_claim() {
    assert_eq!(
        get_copilot_api_base_url("tid=1;proxy-ep=proxy.individual.githubcopilot.com;exp=2", None),
        "https://api.individual.githubcopilot.com"
    );
    assert_eq!(
        get_copilot_api_base_url("proxy-ep=api.business.githubcopilot.com", None),
        "https://api.business.githubcopilot.com"
    );
    assert_eq!(
        get_copilot_api_base_url("tid=1", Some("  ghe.example.com ")),
        "https://copilot-api.ghe.example.com"
    );
    assert_eq!(
        get_copilot_api_base_url("tid=1", Some("  ")),
        "https://api.individual.githubcopilot.com"
    );
}

#[test]
fn enterprise_domains_normalize_to_hosts() {
    assert_eq!(normalize_domain("  https://ghe.example.com/org  ").as_deref(), Some("ghe.example.com"));
    assert_eq!(normalize_domain("ghe.example.com").as_deref(), Some("ghe.example.com"));
    assert_eq!(normalize_domain("   "), None);
}

#[test]
fn authorize_url_carries_the_pkce_parameters() {
    let url = build_authorize_url("chal", "st8");
    assert!(url.starts_with("https://auth.openai.com/oauth/authorize?response_type=code&client_id=app_EMoamEEZ73f0CkXaXp7hrann&redirect_uri=http%3A%2F%2Flocalhost%3A1455%2Fauth%2Fcallback&scope=openid+profile+email+offline_access&code_challenge=chal&code_challenge_method=S256&state=st8"));
    assert!(url.ends_with("&originator=oxi"));
}

#[test]
fn account_id_comes_from_the_jwt_payload() {
    let payload = "{\"https://api.openai.com/auth\":{\"chatgpt_account_id\":\"acc_123\"}}";
    let body = base64::engine::general_purpose::URL_SAFE_NO_PAD.encode(payload);
    let token = format!("header.{body}.sig");
    assert_eq!(extract_account_id(&token).ok(), Some("acc_123".to_string()));
    match extract_account_id("only.two") {
        Err(e) => {
            assert!(matches!(e, AccountIdError::InvalidShape));
            assert_eq!(account_id_error_message(&e), "Invalid JWT shape");
        }
        Ok(_) => panic!("expected an error"),
    }
    let no_claim = base64::engine::general_purpose::URL_SAFE_NO_PAD.encode("{\"sub\":\"x\"}");
    match extract_account_id(&format!("h.{no_claim}.s")) {
        Err(e) => assert_eq!(account_id_error_message(&e), "Missing chatgpt_account_id in token"),
        Ok(_) => panic!("expected an error"),
    }
    assert!(matches!(extract_account_id("h.!!!.s"), Err(AccountIdError::Decode(_))));
    let not_json = base64::engine::general_purpose::URL_SAFE_NO_PAD.encode("nope");
    assert!(matches!(extract_account_id(&format!("h.{not_json}.s")), Err(AccountIdError::Json(_))));
}

#[test]
fn token_freshness_and_refresh() {
    let mut store = OAuthStore { openai_codex: Some(record(200_000)) };
    match codex_token_state(&store, 100_000) {
        CodexTokenState::Fresh { access_token, account_id } => {
            assert_eq!(access_token, "a1");
            assert_eq!(account_id, "acc");
        }
        _ => panic!("expected a fresh token"),
    }
    match codex_token_state(&store, 150_000) {
        CodexTokenState::Stale { refresh_token } => assert_eq!(refresh_token, "r1"),
        _ => panic!("expected a stale token"),
    }
    apply_codex_refresh(&mut store, "a2".into(), "r2".into(), 3600, "acc".into(), 1_000);
    let rec = store.openai_codex.clone().unwrap();
    assert_eq!(rec.expires_ms, 3_601_000);
    assert_eq!(rec.access_token, "a2");
    assert!(matches!(
        codex_token_state(&OAuthStore::default(), 0),
        CodexTokenState::NotSignedIn
    ));
}

#[test]
fn callback_accepts_matching_state() {
    let req = "GET /auth/callback?code=a%2Fb+c&state=xyz HTTP/1.1\r\nHost: localhost:1455\r\n\r\n";
    let (page, result) = oxi::oauth::handle_oauth_callback(req, "xyz");
    assert_eq!(result, Ok("a/b c".to_string()));
    let body = oxi::oauth::success_html();
    assert_eq!(
        page,
        format!(
            "HTTP/1.1 200 OK\r\nContent-Type: text/html; charset=utf-8\r\nContent-Length: {}\r\nConnection: close\r\n\r\n{}",
            body.len(),
            body
        )
    );
}

#[test]
fn callback_rejects_wrong_state_or_missing_code() {
    let (page, result) =
        oxi::oauth::handle_oauth_callback("GET /auth/callback?code=c&state=evil HTTP/1.1\r\n", "xyz");
    assert_eq!(result, Err("OAuth callback: missing code or state mismatch".to_string()));
    assert!(page.starts_with("HTTP/1.1 400 Bad Request\r\n"));
    assert!(page.ends_with("<p>OAuth error: state mismatch or missing code</p></body></html>"));
    let (_, no_code) = oxi::oauth::handle_oauth_callback("GET /auth/callback?state=xyz HTTP/1.1", "xyz");
    assert!(no_code.is_err());
    let (_, no_query) = oxi::oauth::handle_oauth_callback("GET /auth/callback HTTP/1.1", "xyz");
    assert!(no_query.is_err());
    let (_, empty) = oxi::oauth::handle_oauth_callback("", "");
    assert!(empty.is_err());
}

#[test]
fn pkce_challenge_is_s256_of_the_verifier() {
    let (verifier, challenge) = oxi::oauth::generate_pkce();
    assert_eq!(verifier.len(), 43);
    let digest = <sha2::Sha256 as Digest>::digest(verifier.as_bytes());
    let expected = base64::engine::general_purpose::URL_SAFE_NO_PAD.encode(digest);
    assert_eq!(challenge, expected);
    let (other, _) = oxi::oauth::generate_pkce();
    assert_ne!(verifier, other);
}

#[test]
fn oauth_state_is_32_hex_digits() {
    let s = oxi::oauth::random_state();
    assert_eq!(s.len(), 32);
    assert!(s.chars().all(|c| c.is_ascii_digit() || ('a'..='f').contains(&c)));
}

#[test]
fn device_flow_poll_decisions() {
    match device_poll_step(Some("gho_x".into()), Some("ignored".into()), None) {
        DevicePoll::Granted(t) => assert_eq!(t, "gho_x"),
        _ => panic!("expected a token"),
    }
    assert!(matches!(device_poll_step(None, None, None), DevicePoll::Pending));
    assert!(matches!(
        device_poll_step(None, Some("authorization_pending".into()), None),
        DevicePoll::Pending
    ));
    assert!(matches!(device_poll_step(None, Some("slow_down".into()), None), DevicePoll::SlowDown));
    match device_poll_step(None, Some("expired_token".into()), Some("The code expired".into())) {
        DevicePoll::Failed(m) => assert_eq!(m, "device flow: expired_token: The code expired"),
        _ => panic!("expected a failure"),
    }
    match device_poll_step(None, Some("access_denied".into()), None) {
        DevicePoll::Failed(m) => assert_eq!(m, "device flow: access_denied"),
        _ => panic!("expected a failure"),
    }
}

#[test]
fn blank_enterprise_entry_means_github_com() {
    assert_eq!(enterprise_domain("   "), Ok(None));
    assert_eq!(enterprise_domain(""), Ok(None));
}

#[test]
fn enterprise_entry_is_normalized_to_its_host() {
    assert_eq!(
        enterprise_domain(" ghe.corp.example "),
        Ok(Some("ghe.corp.example".to_string()))
    );
    assert_eq!(
        enterprise_domain("https://ghe.corp.example/login"),
        Ok(Some("ghe.corp.example".to_string()))
    );
}

#[test]
fn enterprise_entry_without_host_is_refused() {
    assert_eq!(
        enterprise_domain("https://"),
        Err("Invalid GitHub Enterprise URL/domain".to_string())
    );
}

fn pairs(v: &[(String, String)]) -> Vec<(&str, &str)> {
    v.iter().map(|(k, x)| (k.as_str(), x.as_str())).collect()
}

#[test]
fn code_exchange_form_carries_code_and_verifier() {
    let f = code_exchange_form("the-code", "the-verifier");
    assert_eq!(
        pairs(&f),
        vec![
            ("grant_type", "authorization_code"),
            ("client_id", "app_EMoamEEZ73f0CkXaXp7hrann"),
            ("code", "the-code"),
            ("code_verifier", "the-verifier"),
            ("redirect_uri", "http://localhost:1455/auth/callback"),
        ]
    );
    assert_eq!(TOKEN_URL, "https://auth.openai.com/oauth/token");
}

#[test]
fn refresh_form_carries_refresh_token() {
    let f = refresh_form("rt");
    assert_eq!(
        pairs(&f),
        vec![
            ("grant_type", "refresh_token"),
            ("refresh_token", "rt"),
            ("client_id", "app_EMoamEEZ73f0CkXaXp7hrann"),
        ]
    );
}

#[test]
fn login_record_expires_after_lifetime() {
    let r = codex_login_record("at".into(), "rt".into(), 3600, "acct".into(), 1_000);
    assert_eq!(r.access_token, "at");
    assert_eq!(r.refresh_token, "rt");
    assert_eq!(r.account_id, "acct");
    assert_eq!(r.expires_ms, 1_000 + 3_600_000);
}

#[test]
fn login_record_accepts_any_non_overflowing_lifetime() {
    let r = codex_login_record("at".into(), "rt".into(), -10, "acct".into(), 1_000);
    assert_eq!(r.expires_ms, 1_000 - 10_000);
}
