use oxi::compute::{load_ssh_credentials, SshCredentialStore};
use oxi::oauth::{load_oauth_store, CodexOAuthRecord, OAuthStore};
use oxi::secrets::{save_oauth_store, save_ssh_credentials, UnifiedSecrets};

fn blob() -> UnifiedSecrets {
    UnifiedSecrets {
        oauth: OAuthStore::default(),
        ssh: SshCredentialStore::default(),
        github_token: "ghp_x".into(),
    }
}

#[test]
fn saved_ssh_passwords_load_back() {
    let mut u = blob();
    let mut store = SshCredentialStore::default();
    store.set("remote-hf", "pw");
    save_ssh_credentials(&mut u, store);
    assert_eq!(u.github_token, "ghp_x");
    let mut legacy = SshCredentialStore::default();
    legacy.set("remote-hf", "old");
    let loaded = load_ssh_credentials(u.ssh, Some(legacy));
    assert_eq!(loaded.get("remote-hf"), Some("pw"));
}

#[test]
fn saved_oauth_store_loads_back() {
    let mut u = blob();
    let rec = CodexOAuthRecord {
        refresh_token: "r".into(),
        access_token: "a".into(),
        expires_ms: 5,
        account_id: "acct".into(),
    };
    save_oauth_store(&mut u, OAuthStore { openai_codex: Some(rec) });
    assert_eq!(u.github_token, "ghp_x");
    let loaded = load_oauth_store(u.oauth, Some(OAuthStore::default()));
    assert_eq!(loaded.openai_codex.unwrap().access_token, "a");
}
