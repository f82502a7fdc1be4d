//! Grouped application state: workspaces, per-session run state and model-list caches.

use std::collections::HashMap;
use std::sync::atomic::AtomicBool;
use std::sync::atomic::Ordering;
use std::sync::mpsc::{Receiver, Sender};
use std::sync::Arc;
use std::time::Instant;

use vstd::prelude::*;

use crate::model::Session;
use crate::oauth::OAuthUiMsg;

verus! {

/// The receiving half of a std channel, carried through the state unread.
#[verifier::external_type_specification]
#[verifier::external_body]
#[verifier::reject_recursive_types(T)]
pub struct ExReceiver<T>(Receiver<T>);

/// The sending half of a std channel, carried through the state unread.
#[verifier::external_type_specification]
#[verifier::external_body]
#[verifier::reject_recursive_types(T)]
pub struct ExSender<T>(Sender<T>);

/// A point in monotonic time, carried through the state unread.
#[verifier::external_type_specification]
#[verifier::external_body]
pub struct ExInstant(Instant);

/// `Instant::now()`; nothing is stated of the time it reads.
#[verifier::external_body]
fn instant_now() -> Instant {
    Instant::now()
}

/// A mutating tool call awaiting the user's approve/deny decision.
#[derive(Clone)]
pub struct PendingApproval {
    pub name: String,
    /// Human-readable summary of what the tool will do (e.g. the bash command or target path).
    pub summary: String,
}

/// Active section in the settings window (sidebar).
#[derive(Clone, Copy, PartialEq, Eq, Debug)]
pub enum SettingsTab {
    Providers,
    Agent,
    Appearance,
}

impl Default for SettingsTab {
    fn default() -> (res: SettingsTab)
        ensures
            res == SettingsTab::Providers,
    {
        SettingsTab::Providers
    }
}

/// One project root and its chat tabs.
pub struct Workspace {
    pub root_path: String,
    pub sessions: Vec<Session>,
    pub active: usize,
    pub sidebar_folded: bool,
}

/// Identifies one session of one workspace.
#[derive(Clone, Copy, Debug, PartialEq, Eq, Hash)]
pub struct SessionKey {
    pub workspace_idx: usize,
    pub session_idx: usize,
}

/// Per-session state of an agent run. `E` is the agent event type the run streams and
/// `D` the approval decision type sent back to it.
#[verifier::reject_recursive_types(E)]
#[verifier::reject_recursive_types(D)]
pub struct SessionRunState<E, D> {
    pub agent_rx: Option<Receiver<E>>,
    pub cancel_agent: Option<Arc<AtomicBool>>,
    /// Back-channel to approve/deny mutating tool calls for this run.
    pub approval_tx: Option<Sender<D>>,
    /// A mutating tool call currently waiting on the user.
    pub pending_approval: Option<PendingApproval>,
    pub waiting_response: bool,
    pub stream_started_at: Option<Instant>,
    pub agent_ack: bool,
    pub stream_error: Option<String>,
}

/// `new` differs from `old` only in having the agent channels, cancel flag and pending
/// approval cleared.
pub open spec fn agent_cleared<E, D>(new: SessionRunState<E, D>, old: SessionRunState<E, D>) -> bool {
    &&& new.agent_rx is None
    &&& new.cancel_agent is None
    &&& new.approval_tx is None
    &&& new.pending_approval is None
    &&& new.waiting_response == old.waiting_response
    &&& new.stream_started_at == old.stream_started_at
    &&& new.agent_ack == old.agent_ack
    &&& new.stream_error == old.stream_error
}

/// `new` is `old` waiting for a response that started at some instant.
pub open spec fn waiting_begun<E, D>(new: SessionRunState<E, D>, old: SessionRunState<E, D>) -> bool {
    &&& new.waiting_response
    &&& new.stream_started_at is Some
    &&& new.agent_rx == old.agent_rx
    &&& new.cancel_agent == old.cancel_agent
    &&& new.approval_tx == old.approval_tx
    &&& new.pending_approval == old.pending_approval
    &&& new.agent_ack == old.agent_ack
    &&& new.stream_error == old.stream_error
}

/// `new` is `old` no longer waiting for a response.
pub open spec fn waiting_ended<E, D>(new: SessionRunState<E, D>, old: SessionRunState<E, D>) -> bool {
    new == SessionRunState::<E, D> { waiting_response: false, stream_started_at: None, ..old }
}

impl<E, D> Default for SessionRunState<E, D> {
    fn default() -> (res: SessionRunState<E, D>)
        ensures
            res.agent_rx is None,
            res.cancel_agent is None,
            res.approval_tx is None,
            res.pending_approval is None,
            !res.waiting_response,
            res.stream_started_at is None,
            !res.agent_ack,
            res.stream_error is None,
    {
        SessionRunState {
            agent_rx: None,
            cancel_agent: None,
            approval_tx: None,
            pending_approval: None,
            waiting_response: false,
            stream_started_at: None,
            agent_ack: false,
            stream_error: None,
        }
    }
}

impl<E, D> SessionRunState<E, D> {
    /// Signals the running agent to cancel and drops its channels and pending approval.
    /// The contract covers the dropped channels and approval only: that the shared cancel
    /// flag is raised is not stated (an atomic store carries no postcondition here).
    pub fn clear_agent(&mut self)
        ensures
            agent_cleared(*final(self), *old(self)),
    {
        if let Some(c) = self.cancel_agent.take() {
            c.store(true, Ordering::SeqCst);
        }
        self.agent_rx = None;
        self.approval_tx = None;
        self.pending_approval = None;
    }

    /// Ends the wait for a response and forgets the agent acknowledgement and stream error.
    pub fn reset_after_disconnect(&mut self)
        ensures
            *final(self) == (SessionRunState::<E, D> {
                waiting_response: false,
                stream_started_at: None,
                agent_ack: false,
                stream_error: None,
                ..*old(self)
            }),
    {
        self.end_waiting_response();
        self.agent_ack = false;
        self.stream_error = None;
    }

    /// Starts waiting for a response, stamped with the current time.
    pub fn begin_waiting_response(&mut self)
        ensures
            waiting_begun(*final(self), *old(self)),
    {
        self.waiting_response = true;
        self.stream_started_at = Some(instant_now());
    }

    /// Stops waiting for a response.
    pub fn end_waiting_response(&mut self)
        ensures
            waiting_ended(*final(self), *old(self)),
    {
        self.waiting_response = false;
        self.stream_started_at = None;
    }
}

/// Law: ending a wait undoes beginning it. A session that was not waiting, that begins
/// and then ends a wait, is left exactly as it was.
pub proof fn law_end_undoes_begin<E, D>(
    s0: SessionRunState<E, D>,
    s1: SessionRunState<E, D>,
    s2: SessionRunState<E, D>,
)
    requires
        !s0.waiting_response,
        s0.stream_started_at is None,
        waiting_begun(s1, s0),
        waiting_ended(s2, s1),
    ensures
        s2 == s0,
{
}

/// Law: after a disconnect reset a session is never waiting, whatever it was doing.
pub proof fn law_reset_stops_waiting<E, D>(s0: SessionRunState<E, D>, s1: SessionRunState<E, D>)
    requires
        s1 == (SessionRunState::<E, D> {
            waiting_response: false,
            stream_started_at: None,
            agent_ack: false,
            stream_error: None,
            ..s0
        }),
    ensures
        !s1.waiting_response,
        s1.stream_started_at is None,
        waiting_ended(s1, SessionRunState::<E, D> { agent_ack: false, stream_error: None, ..s0 }),
{
}

/// Local agent connection.
pub struct ConnectionState {
    pub connect_error: Option<String>,
    /// When true, skip loading session files (standalone uses in-memory chats).
    pub no_session: bool,
    /// OAuth login progress from background threads.
    pub oauth_rx: Option<Receiver<OAuthUiMsg>>,
}

/// Run state of every session, keyed by workspace and session index.
#[verifier::reject_recursive_types(E)]
#[verifier::reject_recursive_types(D)]
pub struct RunState<E, D> {
    pub sessions: HashMap<SessionKey, SessionRunState<E, D>>,
    pub current_backend_session_file: Option<String>,
    pub pending_session_idx: Option<usize>,
    pub pending_load_session_idx: Option<usize>,
}

/// Cached model list for one provider profile.
#[derive(Debug, Clone)]
pub struct FetchedModels {
    /// Model ids returned by the provider's models endpoint.
    pub models: Vec<String>,
    /// True while a fetch is in flight for this profile.
    pub loading: bool,
    /// Last error message, if any.
    pub error: Option<String>,
}

impl Default for FetchedModels {
    fn default() -> (res: FetchedModels)
        ensures
            res.models@.len() == 0,
            !res.loading,
            res.error is None,
    {
        FetchedModels { models: Vec::new(), loading: false, error: None }
    }
}

/// Result message from a background model-list fetch.
#[derive(Debug)]
pub struct ModelFetchMsg {
    pub profile_id: String,
    pub result: Result<Vec<String>, String>,
}

} // verus!
