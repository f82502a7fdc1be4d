use oxi::compute::{load_ssh_credentials, SshCredentialStore};
use oxi::oauth::{legacy_file_removable, load_oauth_store, CodexOAuthRecord, OAuthStore};
use oxi::model::{ChatMessage, MsgRole, Session};
use oxi::sessions::{admit_dropped_image, admit_picked_image, ImageAdmission};
use oxi::sessions::{session_matches_search, sidebar_query};
use oxi::model::AssistantBlock;
use oxi::sessions::{delete_chat_error, delete_failure_text, trash_needs_separator};
use oxi::sessions::{
    active_after_delete, blank_session, initial_workspace_sessions, mime_for_image_path,
    new_chat_title, pending_after_delete, session_deletable, session_key_after_delete,
    session_file_to_load, session_key_after_new_chat, session_row_is_running,
    take_loaded_messages,
};
use oxi::state::{SessionKey, Workspace};

fn key(w: usize, s: usize) -> SessionKey {
    SessionKey {
        workspace_idx: w,
        session_idx: s,
    }
}

#[test]
fn new_chat_shifts_the_workspace_sessions() {
    assert_eq!(new_chat_title(2), "Chat 3");
    assert_eq!(session_key_after_new_chat(key(0, 0), 0), key(0, 1));
    assert_eq!(session_key_after_new_chat(key(1, 4), 0), key(1, 4));
}

#[test]
fn deleting_a_chat_rekeys_later_ones() {
    assert_eq!(session_key_after_delete(key(0, 2), 0, 2), None);
    assert_eq!(session_key_after_delete(key(0, 3), 0, 2), Some(key(0, 2)));
    assert_eq!(session_key_after_delete(key(0, 1), 0, 2), Some(key(0, 1)));
    assert_eq!(session_key_after_delete(key(1, 3), 0, 2), Some(key(1, 3)));
    assert_eq!(pending_after_delete(Some(2), 2), None);
    assert_eq!(pending_after_delete(Some(5), 2), Some(4));
    assert_eq!(pending_after_delete(Some(1), 2), Some(1));
    assert_eq!(pending_after_delete(None, 0), None);
    assert_eq!(active_after_delete(3, 1, 4), 2);
    assert_eq!(active_after_delete(3, 3, 3), 2);
    assert_eq!(active_after_delete(0, 0, 2), 0);
    assert!(session_deletable(2, false));
    assert!(!session_deletable(1, false));
    assert!(!session_deletable(3, true));
}

#[test]
fn image_types_by_extension() {
    assert_eq!(mime_for_image_path("/tmp/Photo.PNG"), Some("image/png"));
    assert_eq!(mime_for_image_path("a/b.jpeg"), Some("image/jpeg"));
    assert_eq!(mime_for_image_path("x.JPG"), Some("image/jpeg"));
    assert_eq!(mime_for_image_path("anim.gif"), Some("image/gif"));
    assert_eq!(mime_for_image_path("pic.tar.webp"), Some("image/webp"));
    assert_eq!(mime_for_image_path("notes.txt"), None);
    assert_eq!(mime_for_image_path(".png"), None);
    assert_eq!(mime_for_image_path("png"), None);
    assert_eq!(mime_for_image_path("/"), None);
}

#[test]
fn loading_prefers_the_keychain() {
    let rec = CodexOAuthRecord {
        refresh_token: "r".into(),
        access_token: "a".into(),
        expires_ms: 1,
        account_id: "id".into(),
    };
    let keychain = OAuthStore {
        openai_codex: Some(rec.clone()),
    };
    let legacy = OAuthStore { openai_codex: None };
    assert!(load_oauth_store(keychain, Some(legacy)).openai_codex.is_some());
    let from_file = load_oauth_store(
        OAuthStore::default(),
        Some(OAuthStore {
            openai_codex: Some(rec),
        }),
    );
    assert_eq!(from_file.openai_codex.unwrap().account_id, "id");
    assert!(load_oauth_store(OAuthStore::default(), None).openai_codex.is_none());

    let mut file_store = SshCredentialStore::default();
    file_store.set("remote-hf", "pw");
    let loaded = load_ssh_credentials(SshCredentialStore::default(), Some(file_store));
    assert_eq!(loaded.get("remote-hf"), Some("pw"));
    let mut kc = SshCredentialStore::default();
    kc.set("k", "v");
    assert!(!kc.is_empty());
    let kept = load_ssh_credentials(kc, Some(SshCredentialStore::default()));
    assert_eq!(kept.get("k"), Some("v"));
    assert!(SshCredentialStore::default().is_empty());
}

#[test]
fn legacy_files_survive_failed_migrations() {
    assert!(!legacy_file_removable(true, false));
    assert!(legacy_file_removable(true, true));
    assert!(legacy_file_removable(false, false));
}

fn msg(role: MsgRole, streaming: bool) -> ChatMessage {
    ChatMessage {
        role,
        text: String::new(),
        attachments: vec![],
        blocks: vec![],
        streaming,
    }
}

fn session_with(messages: Vec<ChatMessage>) -> Session {
    let mut s = blank_session("t");
    s.messages = messages;
    s
}

#[test]
fn running_row_is_a_streaming_assistant_tail() {
    let ws = vec![Workspace {
        root_path: "/p".into(),
        sessions: vec![
            session_with(vec![msg(MsgRole::User, false), msg(MsgRole::Assistant, true)]),
            session_with(vec![msg(MsgRole::User, false), msg(MsgRole::Assistant, false)]),
            session_with(vec![msg(MsgRole::Assistant, true), msg(MsgRole::User, false)]),
            session_with(vec![]),
        ],
        active: 0,
        sidebar_folded: false,
    }];
    assert!(session_row_is_running(&ws, 0, 0));
    assert!(!session_row_is_running(&ws, 0, 1));
    assert!(!session_row_is_running(&ws, 0, 2));
    assert!(!session_row_is_running(&ws, 0, 3));
    assert!(!session_row_is_running(&ws, 0, 9));
    assert!(!session_row_is_running(&ws, 1, 0));
}

#[test]
fn blank_session_is_empty_and_loaded() {
    let s = blank_session("Chat 2");
    assert_eq!(s.title, "Chat 2");
    assert!(s.messages.is_empty());
    assert!(s.session_file.is_none());
    assert!(s.messages_loaded);
}

#[test]
fn workspace_opens_with_loaded_chats_or_one_new_chat() {
    let loaded = vec![blank_session("a"), blank_session("b")];
    let got = initial_workspace_sessions(loaded, false);
    assert_eq!(got.len(), 2);
    assert_eq!(got[0].title, "a");
    assert_eq!(got[1].title, "b");

    let got = initial_workspace_sessions(vec![], false);
    assert_eq!(got.len(), 1);
    assert_eq!(got[0].title, "New chat");

    let got = initial_workspace_sessions(vec![blank_session("a")], true);
    assert_eq!(got.len(), 1);
    assert_eq!(got[0].title, "New chat");
}

#[test]
fn saved_unread_chat_is_loaded_once() {
    let mut s = blank_session("t");
    s.session_file = Some("/s/1.jsonl".into());
    s.messages_loaded = false;
    assert_eq!(session_file_to_load(false, false, &s), Some("/s/1.jsonl".to_string()));
    assert_eq!(session_file_to_load(true, false, &s), None);
    assert_eq!(session_file_to_load(false, true, &s), None);
    take_loaded_messages(&mut s, Some(vec![msg(MsgRole::User, false)]));
    assert_eq!(s.messages.len(), 1);
    assert!(s.messages_loaded);
    assert_eq!(session_file_to_load(false, false, &s), None);
}

#[test]
fn failed_read_leaves_chat_unread() {
    let mut s = blank_session("t");
    s.session_file = Some("/s/2.jsonl".into());
    s.messages_loaded = false;
    take_loaded_messages(&mut s, None);
    assert!(!s.messages_loaded);
    assert!(s.messages.is_empty());
    assert_eq!(session_file_to_load(false, false, &s), Some("/s/2.jsonl".to_string()));
}

#[test]
fn chat_without_file_is_never_loaded() {
    let s = blank_session("t");
    assert_eq!(session_file_to_load(false, false, &s), None);
}

const MB: usize = 1024 * 1024;

#[test]
fn dropped_image_at_limit_stops() {
    match admit_dropped_image(4, 4, 10, 5 * MB, true, None, None) {
        ImageAdmission::Stop(m) => assert_eq!(m, "At most 4 images per message"),
        _ => panic!("expected stop"),
    }
}

#[test]
fn dropped_image_too_large_is_refused() {
    match admit_dropped_image(0, 4, 5 * MB + 1, 5 * MB, true, Some("image/png"), None) {
        ImageAdmission::Refuse(m) => assert_eq!(m, "Image too large (max 5 MB)"),
        _ => panic!("expected refusal"),
    }
}

#[test]
fn empty_or_undecodable_drop_is_skipped() {
    assert!(matches!(admit_dropped_image(0, 4, 0, 5 * MB, true, None, None), ImageAdmission::Skip));
    assert!(matches!(admit_dropped_image(0, 4, 9, 5 * MB, false, None, None), ImageAdmission::Skip));
}

#[test]
fn dropped_image_type_prefers_extension_then_content() {
    match admit_dropped_image(1, 4, 9, 5 * MB, true, Some("image/jpeg"), Some("image/gif")) {
        ImageAdmission::Attach(m) => assert_eq!(m, "image/jpeg"),
        _ => panic!("expected attach"),
    }
    match admit_dropped_image(1, 4, 9, 5 * MB, true, None, Some("image/gif")) {
        ImageAdmission::Attach(m) => assert_eq!(m, "image/gif"),
        _ => panic!("expected attach"),
    }
    match admit_dropped_image(1, 4, 9, 5 * MB, true, None, None) {
        ImageAdmission::Attach(m) => assert_eq!(m, "image/png"),
        _ => panic!("expected attach"),
    }
}

#[test]
fn picked_image_outcomes() {
    assert!(matches!(admit_picked_image(4, 4, Some(1), 5 * MB, None), ImageAdmission::Stop(_)));
    match admit_picked_image(0, 4, None, 5 * MB, None) {
        ImageAdmission::Refuse(m) => assert_eq!(m, "Failed to read image file"),
        _ => panic!("expected refusal"),
    }
    match admit_picked_image(0, 4, Some(6 * MB), 5 * MB, None) {
        ImageAdmission::Refuse(m) => assert_eq!(m, "Image too large (max 5 MB)"),
        _ => panic!("expected refusal"),
    }
    match admit_picked_image(0, 4, Some(3), 5 * MB, mime_for_image_path("/a/B.WEBP")) {
        ImageAdmission::Attach(m) => assert_eq!(m, "image/webp"),
        _ => panic!("expected attach"),
    }
    match admit_picked_image(0, 4, Some(3), 5 * MB, mime_for_image_path("/a/b.bmp")) {
        ImageAdmission::Attach(m) => assert_eq!(m, "image/png"),
        _ => panic!("expected attach"),
    }
}

#[test]
fn dash_named_file_gets_separator() {
    assert!(trash_needs_separator(Some("-rf.jsonl")));
    assert!(!trash_needs_separator(Some("chat.jsonl")));
    assert!(!trash_needs_separator(Some("")));
    assert!(!trash_needs_separator(None));
}

#[test]
fn delete_failure_mentions_trash_error() {
    assert_eq!(
        delete_failure_text("permission denied", Some("no trash can")),
        "permission denied (trash: no trash can)"
    );
    assert_eq!(delete_failure_text("permission denied", None), "permission denied");
    assert_eq!(
        delete_chat_error("permission denied"),
        "Failed to delete chat file: permission denied"
    );
}

#[test]
fn sidebar_query_is_trimmed_and_lowercased() {
    assert_eq!(sidebar_query("  Parser BUG "), "parser bug");
    assert_eq!(sidebar_query("   "), "");
}

#[test]
fn search_matches_title_text_and_blocks() {
    let mut s = blank_session("Fix the Parser");
    let mut user = msg(MsgRole::User, false);
    user.text = "Why does CI fail?".into();
    let mut asst = msg(MsgRole::Assistant, false);
    asst.blocks = vec![
        AssistantBlock::Thinking("Look at the Lexer".into()),
        AssistantBlock::Tool {
            tool_call_id: "1".into(),
            name: "bash".into(),
            args_summary: None,
            output: "error[E0308]: mismatched types".into(),
            diff: None,
            is_error: None,
            full_output_path: None,
            output_truncated: false,
        },
    ];
    s.messages = vec![user, asst];
    assert!(session_matches_search(&s, ""));
    assert!(session_matches_search(&s, &sidebar_query("PARSER")));
    assert!(session_matches_search(&s, &sidebar_query("ci fail")));
    assert!(session_matches_search(&s, &sidebar_query("lexer")));
    assert!(session_matches_search(&s, &sidebar_query("mismatched")));
    assert!(!session_matches_search(&s, &sidebar_query("tokenizer")));
}
