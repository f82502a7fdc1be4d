use oxi::compute::{
    auth_rejected, connect_failure, exit_status_or_default, probe_failure, ssh_address,
    ssh_target_error, tunneled_base_url, with_v1_suffix, TunnelError,
};

fn other_message(e: TunnelError) -> String {
    match e {
        TunnelError::Other(m) => m,
        TunnelError::HostKeyMismatch { .. } => panic!("expected a plain error"),
    }
}

#[test]
fn blank_host_is_refused_before_user() {
    let e = ssh_target_error("  ", "").unwrap();
    assert_eq!(other_message(e), "SSH host is empty");
}

#[test]
fn blank_user_is_refused() {
    let e = ssh_target_error("gpu-box", " \t").unwrap();
    assert_eq!(other_message(e), "SSH user is empty");
}

#[test]
fn complete_target_has_no_error() {
    assert!(ssh_target_error("gpu-box", "alice").is_none());
}

#[test]
fn address_joins_host_and_port() {
    assert_eq!(ssh_address("gpu-box", 22), "gpu-box:22");
    assert_eq!(ssh_address("10.0.0.7", 2222), "10.0.0.7:2222");
}

#[test]
fn differing_recorded_key_is_a_mismatch() {
    match connect_failure(Some("SHA256:old"), Some("SHA256:new"), "h:22", "handshake") {
        TunnelError::HostKeyMismatch { pinned, observed } => {
            assert_eq!(pinned, "SHA256:old");
            assert_eq!(observed, "SHA256:new");
        }
        TunnelError::Other(m) => panic!("unexpected: {m}"),
    }
}

#[test]
fn matching_or_missing_key_is_a_plain_connect_error() {
    let e = connect_failure(Some("SHA256:k"), Some("SHA256:k"), "h:22", "refused");
    assert_eq!(other_message(e), "SSH connect to h:22 failed: refused");
    let e = connect_failure(Some("SHA256:k"), None, "h:22", "timeout");
    assert_eq!(other_message(e), "SSH connect to h:22 failed: timeout");
    let e = connect_failure(None, Some("SHA256:k"), "h:22", "reset");
    assert_eq!(other_message(e), "SSH connect to h:22 failed: reset");
}

#[test]
fn rejected_password_message() {
    assert_eq!(
        other_message(auth_rejected()),
        "SSH authentication rejected (check user/password)"
    );
}

#[test]
fn probe_failure_names_port_and_host() {
    assert_eq!(
        other_message(probe_failure(11434, "gpu-box", "closed")),
        "SSH connected, but nothing is reachable on 127.0.0.1:11434 on gpu-box (is the runtime running and listening on that port?): closed"
    );
}

#[test]
fn tunnel_url_uses_local_port_and_v1() {
    assert_eq!(tunneled_base_url(54321), "http://127.0.0.1:54321/v1");
}

#[test]
fn missing_exit_status_reads_as_255() {
    assert_eq!(exit_status_or_default(None), 255);
    assert_eq!(exit_status_or_default(Some(0)), 0);
    assert_eq!(exit_status_or_default(Some(3)), 3);
}

#[test]
fn v1_suffix_is_added_once() {
    assert_eq!(with_v1_suffix("https://opencode.ai/zen/go"), "https://opencode.ai/zen/go/v1");
    assert_eq!(with_v1_suffix("https://opencode.ai/zen/go/"), "https://opencode.ai/zen/go/v1");
    assert_eq!(with_v1_suffix("https://x.test/v1"), "https://x.test/v1");
    assert_eq!(with_v1_suffix("https://x.test/v1//"), "https://x.test/v1//");
    assert_eq!(with_v1_suffix(""), "/v1");
}
