use oxi::compute::{host_key_accepted, SshCredentialStore, TunnelError};
use oxi::oauth::{clear_codex, merge_codex, CodexOAuthRecord, OAuthStore};

#[test]
fn get_missing_returns_none() {
    let s = SshCredentialStore::default();
    assert_eq!(s.get("nope"), None);
}

#[test]
fn set_then_get_roundtrips() {
    let mut s = SshCredentialStore::default();
    s.set("p1", "hunter2");
    assert_eq!(s.get("p1"), Some("hunter2"));
}

#[test]
fn clear_removes_entry() {
    let mut s = SshCredentialStore::default();
    s.set("p1", "hunter2");
    s.clear("p1");
    assert_eq!(s.get("p1"), None);
}

#[test]
fn set_overwrites_and_keeps_other_keys() {
    let mut s = SshCredentialStore::default();
    s.set("a", "1");
    s.set("b", "2");
    s.set("a", "3");
    assert_eq!(s.get("a"), Some("3"));
    assert_eq!(s.get("b"), Some("2"));
    s.clear("a");
    assert_eq!(s.get("a"), None);
    assert_eq!(s.get("b"), Some("2"));
    let c = s.clone();
    assert_eq!(c.get("b"), Some("2"));
}

#[test]
fn tunnel_error_messages() {
    let e = TunnelError::HostKeyMismatch {
        pinned: "SHA256:a".into(),
        observed: "SHA256:b".into(),
    };
    assert_eq!(
        e.to_message(),
        "SSH host key mismatch: pinned SHA256:a, server presented SHA256:b. If the host was reinstalled, accept the new key in Settings."
    );
    assert_eq!(TunnelError::Other("boom".into()).to_message(), "boom");
}

#[test]
fn host_key_pinning() {
    assert!(host_key_accepted(None, "SHA256:x"));
    assert!(host_key_accepted(Some("SHA256:x"), "SHA256:x"));
    assert!(!host_key_accepted(Some("SHA256:bogus"), "SHA256:x"));
}

#[test]
fn codex_record_merge_and_clear() {
    let mut store = OAuthStore::default();
    assert!(store.openai_codex.is_none());
    merge_codex(
        &mut store,
        CodexOAuthRecord {
            refresh_token: "r".into(),
            access_token: "a".into(),
            expires_ms: 5,
            account_id: "acc".into(),
        },
    );
    assert_eq!(store.openai_codex.as_ref().unwrap().account_id, "acc");
    clear_codex(&mut store);
    assert!(store.openai_codex.is_none());
}
