use std::sync::atomic::{AtomicBool, Ordering};
use std::sync::mpsc::channel;
use std::sync::Arc;

use oxi::state::{PendingApproval, SessionRunState};

type Run = SessionRunState<String, bool>;

#[test]
fn begin_then_end_waiting_restores_idle_state() {
    let mut s: Run = SessionRunState::default();
    s.begin_waiting_response();
    assert!(s.waiting_response);
    assert!(s.stream_started_at.is_some());
    s.end_waiting_response();
    assert!(!s.waiting_response);
    assert!(s.stream_started_at.is_none());
}

#[test]
fn clear_agent_cancels_and_drops_channels() {
    let mut s: Run = SessionRunState::default();
    let (_tx, rx) = channel::<String>();
    let (atx, _arx) = channel::<bool>();
    let cancel = Arc::new(AtomicBool::new(false));
    s.agent_rx = Some(rx);
    s.approval_tx = Some(atx);
    s.cancel_agent = Some(cancel.clone());
    s.pending_approval = Some(PendingApproval {
        name: "bash".into(),
        summary: "rm -rf build".into(),
    });
    s.waiting_response = true;
    s.clear_agent();
    assert!(cancel.load(Ordering::SeqCst));
    assert!(s.agent_rx.is_none());
    assert!(s.approval_tx.is_none());
    assert!(s.cancel_agent.is_none());
    assert!(s.pending_approval.is_none());
    assert!(s.waiting_response);
}

#[test]
fn reset_after_disconnect_stops_waiting_and_forgets_errors() {
    let mut s: Run = SessionRunState::default();
    s.begin_waiting_response();
    s.agent_ack = true;
    s.stream_error = Some("broken pipe".into());
    s.reset_after_disconnect();
    assert!(!s.waiting_response);
    assert!(s.stream_started_at.is_none());
    assert!(!s.agent_ack);
    assert!(s.stream_error.is_none());
}
