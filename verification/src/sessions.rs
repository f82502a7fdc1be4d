//! Bookkeeping when chat tabs are opened or deleted, and the type of an attached image.

use vstd::prelude::*;

use crate::local_models_remote::{file_name_of, path_file_name};
use crate::model::{AssistantBlock, ChatMessage, MsgRole, Session};
use crate::state::{SessionKey, Workspace};
use crate::text::{chars_eq, chars_of, decimal, decimal_exec, owned, push_chars};

verus! {

// ---------------------------------------------------------------------------
// Opening and deleting chats
// ---------------------------------------------------------------------------

/// The title of a new chat in a workspace that has `count` chats.
pub fn new_chat_title(count: usize) -> (res: String)
    requires
        count < usize::MAX,
    ensures
        res@ == "Chat "@ + decimal(count as nat + 1),
{
    let mut t = owned("Chat ");
    push_chars(&mut t, &decimal_exec((count + 1) as u64));
    t
}

/// Where the run state of `key` moves when a new chat is put first in workspace `ws`: the
/// chats of that workspace move down one place.
pub open spec fn key_after_new_chat(key: SessionKey, ws: usize) -> SessionKey {
    if key.workspace_idx == ws {
        SessionKey { workspace_idx: key.workspace_idx, session_idx: (key.session_idx + 1) as usize }
    } else {
        key
    }
}

/// Re-keys run state after a new chat was put first in workspace `ws`.
pub fn session_key_after_new_chat(key: SessionKey, ws: usize) -> (res: SessionKey)
    requires
        key.session_idx < usize::MAX,
    ensures
        res == key_after_new_chat(key, ws),
{
    if key.workspace_idx == ws {
        SessionKey { workspace_idx: key.workspace_idx, session_idx: key.session_idx + 1 }
    } else {
        key
    }
}

/// Where the run state of `key` moves when chat `idx` of workspace `ws` is deleted: the
/// deleted chat's state is dropped and the later chats of that workspace move up one place.
pub open spec fn key_after_delete(key: SessionKey, ws: usize, idx: usize) -> Option<SessionKey> {
    if key.workspace_idx != ws {
        Some(key)
    } else if key.session_idx == idx {
        None
    } else if key.session_idx > idx {
        Some(SessionKey { workspace_idx: ws, session_idx: (key.session_idx - 1) as usize })
    } else {
        Some(key)
    }
}

/// Re-keys run state after chat `idx` of workspace `ws` was deleted.
pub fn session_key_after_delete(key: SessionKey, ws: usize, idx: usize) -> (res: Option<
    SessionKey,
>)
    ensures
        res == key_after_delete(key, ws, idx),
{
    if key.workspace_idx != ws {
        Some(key)
    } else if key.session_idx == idx {
        None
    } else if key.session_idx > idx {
        Some(SessionKey { workspace_idx: ws, session_idx: key.session_idx - 1 })
    } else {
        Some(key)
    }
}

/// The pending chat index after chat `idx` was deleted: cleared when it was that chat,
/// moved up one place when it was later.
pub open spec fn pending_after_delete_spec(pending: Option<usize>, idx: usize) -> Option<usize> {
    match pending {
        None => None,
        Some(p) => if p == idx {
            None
        } else if idx < p {
            Some((p - 1) as usize)
        } else {
            Some(p)
        },
    }
}

/// Adjusts a pending chat index for the deletion of chat `idx`.
pub fn pending_after_delete(pending: Option<usize>, idx: usize) -> (res: Option<usize>)
    ensures
        res == pending_after_delete_spec(pending, idx),
{
    match pending {
        None => None,
        Some(p) => if p == idx {
            None
        } else if idx < p {
            Some(p - 1)
        } else {
            Some(p)
        },
    }
}

/// The active chat after chat `idx` was deleted, leaving `remaining` chats: it moves up one
/// place when it came after the deleted chat, and is kept within the list.
pub open spec fn active_after_delete_spec(active: usize, idx: usize, remaining: usize) -> usize {
    let a = if idx < active {
        (active - 1) as usize
    } else {
        active
    };
    if a >= remaining {
        if remaining == 0 {
            0
        } else {
            (remaining - 1) as usize
        }
    } else {
        a
    }
}

/// The active chat index after a deletion.
pub fn active_after_delete(active: usize, idx: usize, remaining: usize) -> (res: usize)
    ensures
        res == active_after_delete_spec(active, idx, remaining),
{
    let a = if idx < active {
        active - 1
    } else {
        active
    };
    if a >= remaining {
        remaining.saturating_sub(1)
    } else {
        a
    }
}

/// Whether chat `idx` may be deleted: never the last chat of a workspace, nor one whose
/// agent is still answering.
pub fn session_deletable(session_count: usize, waiting_response: bool) -> (res: bool)
    ensures
        res == (session_count > 1 && !waiting_response),
{
    session_count > 1 && !waiting_response
}

/// A chat row shows as running when its last message is an assistant message still
/// streaming; a row that does not exist never does.
pub open spec fn row_running(workspaces: Seq<Workspace>, wi: int, si: int) -> bool {
    &&& 0 <= wi < workspaces.len()
    &&& 0 <= si < workspaces[wi].sessions@.len()
    &&& workspaces[wi].sessions@[si].messages@.len() > 0
    &&& workspaces[wi].sessions@[si].messages@.last().role == MsgRole::Assistant
    &&& workspaces[wi].sessions@[si].messages@.last().streaming
}

/// Whether the model is still answering in chat `session_idx` of workspace `workspace_idx`.
pub fn session_row_is_running(workspaces: &[Workspace], workspace_idx: usize, session_idx: usize) -> (res:
    bool)
    ensures
        res == row_running(workspaces@, workspace_idx as int, session_idx as int),
{
    if workspace_idx >= workspaces.len() {
        return false;
    }
    let w = &workspaces[workspace_idx];
    if session_idx >= w.sessions.len() {
        return false;
    }
    let s = &w.sessions[session_idx];
    let n = s.messages.len();
    if n == 0 {
        return false;
    }
    let m = &s.messages[n - 1];
    m.role == MsgRole::Assistant && m.streaming
}

/// An empty chat that needs nothing loaded.
pub open spec fn is_blank_session(s: Session, title: Seq<char>) -> bool {
    &&& s.title@ == title
    &&& s.messages@.len() == 0
    &&& s.session_file is None
    &&& s.messages_loaded
}

/// A new, empty chat titled `title`.
pub fn blank_session(title: &str) -> (res: Session)
    ensures
        is_blank_session(res, title@),
{
    Session { title: owned(title), messages: Vec::new(), session_file: None, messages_loaded: true }
}

/// The chats a workspace opens with: those loaded from disk, or one blank "New chat" when
/// none were loaded or disk sessions are skipped.
pub fn initial_workspace_sessions(loaded: Vec<Session>, skip_disk_sessions: bool) -> (res: Vec<
    Session,
>)
    ensures
        !skip_disk_sessions && loaded@.len() > 0 ==> res@ == loaded@,
        skip_disk_sessions || loaded@.len() == 0 ==> res@.len() == 1 && is_blank_session(
            res@[0],
            "New chat"@,
        ),
{
    if skip_disk_sessions || loaded.len() == 0 {
        let mut v: Vec<Session> = Vec::new();
        v.push(blank_session("New chat"));
        v
    } else {
        loaded
    }
}

/// A chat saved to a file whose transcript has not been read yet.
pub open spec fn needs_loading(s: Session) -> bool {
    s.session_file is Some && !s.messages_loaded
}

/// The file to read the active chat's transcript from: only when sessions are kept on
/// disk, no answer is streaming into the chat, and it has a file not read yet.
pub fn session_file_to_load(no_session: bool, waiting_response: bool, session: &Session) -> (res:
    Option<String>)
    ensures
        match res {
            Some(f) => !no_session && !waiting_response && needs_loading(*session) && (
            session.session_file matches Some(sf) && f@ == sf@),
            None => no_session || waiting_response || !needs_loading(*session),
        },
{
    if no_session || waiting_response || session.messages_loaded {
        return None;
    }
    match &session.session_file {
        Some(f) => Some(f.clone()),
        None => None,
    }
}

/// Puts a transcript read from disk into the chat; a failed read leaves the chat as it was.
pub fn take_loaded_messages(session: &mut Session, loaded: Option<Vec<ChatMessage>>)
    ensures
        match loaded {
            Some(m) => final(session).messages@ == m@ && final(session).messages_loaded
                && final(session).title == old(session).title
                && final(session).session_file == old(session).session_file,
            None => *final(session) == *old(session),
        },
{
    if let Some(m) = loaded {
        session.messages = m;
        session.messages_loaded = true;
    }
}

/// After a deletion, run state that survives is still found at the chat it belongs to: the
/// re-keyed index of chat `j` points at the same chat in the shortened list.
pub proof fn law_delete_rekeys_to_same_chat<T>(chats: Seq<T>, ws: usize, idx: usize, j: usize)
    requires
        idx < chats.len(),
        j < chats.len(),
        j != idx,
    ensures
        key_after_delete(SessionKey { workspace_idx: ws, session_idx: j }, ws, idx) matches Some(
            k,
        ) && k.workspace_idx == ws && k.session_idx < chats.remove(idx as int).len()
            && chats.remove(idx as int)[k.session_idx as int] == chats[j as int],
{
}

/// After a new chat is put first, run state is still found at the chat it belongs to.
pub proof fn law_new_chat_rekeys_to_same_chat<T>(chats: Seq<T>, fresh: T, ws: usize, j: usize)
    requires
        j < chats.len(),
        j < usize::MAX,
    ensures
        key_after_new_chat(SessionKey { workspace_idx: ws, session_idx: j }, ws).session_idx
            < chats.insert(0, fresh).len(),
        chats.insert(0, fresh)[key_after_new_chat(
            SessionKey { workspace_idx: ws, session_idx: j },
            ws,
        ).session_idx as int] == chats[j as int],
{
}

/// After a deletion the active chat is one that exists, unless no chat is left.
pub proof fn law_active_stays_in_range(active: usize, idx: usize, remaining: usize)
    requires
        remaining > 0,
    ensures
        active_after_delete_spec(active, idx, remaining) < remaining,
{
}

// ---------------------------------------------------------------------------
// Image attachments
// ---------------------------------------------------------------------------

/// The lowercase form of `s` (`str::to_lowercase`).
pub uninterp spec fn unicode_lowercase(s: Seq<char>) -> Seq<char>;

/// `str::to_lowercase`. The result is tied to `s` by the name `unicode_lowercase`.
#[verifier::external_body]
fn lowercase_of(s: &str) -> (res: String)
    ensures
        res@ == unicode_lowercase(s@),
{
    s.to_lowercase()
}

/// The extension of a file name, as `Path::extension` finds it: the text after the last
/// `.`, provided the name has a `.` other than a leading one.
pub open spec fn name_extension(name: Seq<char>) -> Option<Seq<char>> {
    let dots = Set::new(|i: int| 0 < i < name.len() && name[i] == '.');
    if dots.is_empty() {
        None
    } else {
        let last = choose|i: int|
            0 < i < name.len() && name[i] == '.' && forall|j: int|
                i < j < name.len() ==> name[j] != '.';
        Some(name.skip(last + 1))
    }
}

/// The image type of a lowercased extension.
pub open spec fn image_mime(ext: Seq<char>) -> Option<Seq<char>> {
    if ext == "png"@ {
        Some("image/png"@)
    } else if ext == "jpg"@ || ext == "jpeg"@ {
        Some("image/jpeg"@)
    } else if ext == "gif"@ {
        Some("image/gif"@)
    } else if ext == "webp"@ {
        Some("image/webp"@)
    } else {
        None
    }
}

/// The image type of the file at `path`, judged by its extension.
pub open spec fn mime_for_path(path: Seq<char>) -> Option<Seq<char>> {
    match path_file_name(path) {
        None => None,
        Some(name) => match name_extension(name) {
            None => None,
            Some(ext) => image_mime(unicode_lowercase(ext)),
        },
    }
}

fn extension_of(name: &[char]) -> (res: Option<Vec<char>>)
    ensures
        match res {
            Some(e) => name_extension(name@) == Some(e@),
            None => name_extension(name@) is None,
        },
{
    let n = name.len();
    let mut k = n;
    while k > 1
        invariant
            k <= n,
            n == name@.len(),
            forall|j: int| k <= j < n ==> name@[j] != '.',
        decreases k,
    {
        if name[k - 1] == '.' {
            let i = k - 1;
            proof {
                let dots = Set::new(|x: int| 0 < x < name@.len() && name@[x] == '.');
                assert(dots.contains(i as int));
                let last = choose|x: int|
                    0 < x < name@.len() && name@[x] == '.' && forall|j: int|
                        x < j < name@.len() ==> name@[j] != '.';
                assert(0 < i < name@.len() && name@[i as int] == '.' && forall|j: int|
                    i < j < name@.len() ==> name@[j] != '.');
                if last < i {
                    assert(name@[i as int] != '.');
                } else if last > i {
                    assert(name@[last] != '.');
                }
            }
            return Some(crate::text::slice_chars(name, k, n));
        }
        k = k - 1;
    }
    proof {
        let dots = Set::new(|x: int| 0 < x < name@.len() && name@[x] == '.');
        assert(dots =~= Set::empty());
    }
    None
}

/// The image type of a file, judged by its extension.
pub fn mime_for_image_path(path: &str) -> (res: Option<&'static str>)
    ensures
        str_opt_view(res) == mime_for_path(path@),
{
    let name = match file_name_of(path) {
        Some(n) => n,
        None => return None,
    };
    let ext = match extension_of(&chars_of(name.as_str())) {
        Some(e) => e,
        None => return None,
    };
    let lower = chars_of(lowercase_of(crate::text::string_of(&ext).as_str()).as_str());
    if chars_eq(&lower, &chars_of("png")) {
        Some("image/png")
    } else if chars_eq(&lower, &chars_of("jpg")) || chars_eq(&lower, &chars_of("jpeg")) {
        Some("image/jpeg")
    } else if chars_eq(&lower, &chars_of("gif")) {
        Some("image/gif")
    } else if chars_eq(&lower, &chars_of("webp")) {
        Some("image/webp")
    } else {
        None
    }
}

/// The view of an optional static string.
pub open spec fn str_opt_view(o: Option<&'static str>) -> Option<Seq<char>> {
    match o {
        Some(s) => Some(s@),
        None => None,
    }
}

/// What becomes of an image offered for the next message.
pub enum ImageAdmission {
    /// No room for another image: show this and take no more files.
    Stop(String),
    /// Show this and leave the file out.
    Refuse(String),
    /// Leave the file out silently (it holds no image).
    Skip,
    /// Attach the image with this MIME type.
    Attach(String),
}

/// The message when the images of a message are at their limit.
pub open spec fn full_text(max_pending: nat) -> Seq<char> {
    "At most "@ + decimal(max_pending) + " images per message"@
}

/// The message when an image is over the size limit, given in whole MiB.
pub open spec fn too_large_text(max_bytes: nat) -> Seq<char> {
    "Image too large (max "@ + decimal(max_bytes / (1024 * 1024)) + " MB)"@
}

/// The MIME type of an attached image: by the file's extension, else by the format its
/// bytes were recognised as, else PNG.
pub open spec fn attached_mime(path_mime: Option<Seq<char>>, guessed: Option<Seq<char>>) -> Seq<char> {
    match path_mime {
        Some(m) => m,
        None => match guessed {
            Some(g) => g,
            None => "image/png"@,
        },
    }
}

fn full_message(max_pending: usize) -> (res: String)
    ensures
        res@ == full_text(max_pending as nat),
{
    let mut m = owned("At most ");
    push_chars(&mut m, &decimal_exec(max_pending as u64));
    crate::text::push_str(&mut m, " images per message");
    m
}

fn too_large_message(max_bytes: usize) -> (res: String)
    ensures
        res@ == too_large_text(max_bytes as nat),
{
    let mut m = owned("Image too large (max ");
    push_chars(&mut m, &decimal_exec((max_bytes / (1024 * 1024)) as u64));
    crate::text::push_str(&mut m, " MB)");
    m
}

/// Judges a dropped file of `len` bytes while `pending` images wait to be sent: stop at the
/// image limit, skip an empty file, refuse one over `max_bytes`, skip one that does not
/// decode as an image, and attach the rest.
pub fn admit_dropped_image(
    pending: usize,
    max_pending: usize,
    len: usize,
    max_bytes: usize,
    decodes: bool,
    path_mime: Option<&str>,
    guessed_mime: Option<&str>,
) -> (res: ImageAdmission)
    ensures
        pending >= max_pending ==> (res matches ImageAdmission::Stop(m) && m@ == full_text(
            max_pending as nat,
        )),
        pending < max_pending && len == 0 ==> res is Skip,
        pending < max_pending && len > 0 && len > max_bytes ==> (res matches ImageAdmission::Refuse(m)
            && m@ == too_large_text(max_bytes as nat)),
        pending < max_pending && 0 < len <= max_bytes && !decodes ==> res is Skip,
        pending < max_pending && 0 < len <= max_bytes && decodes ==> (res matches ImageAdmission::Attach(
            m,
        ) && m@ == attached_mime(
            crate::compute::str_opt(path_mime),
            crate::compute::str_opt(guessed_mime),
        )),
{
    if pending >= max_pending {
        return ImageAdmission::Stop(full_message(max_pending));
    }
    if len == 0 {
        return ImageAdmission::Skip;
    }
    if len > max_bytes {
        return ImageAdmission::Refuse(too_large_message(max_bytes));
    }
    if !decodes {
        return ImageAdmission::Skip;
    }
    let mime = match path_mime {
        Some(m) => owned(m),
        None => match guessed_mime {
            Some(g) => owned(g),
            None => owned("image/png"),
        },
    };
    ImageAdmission::Attach(mime)
}

/// Judges an image picked in the file dialog: stop at the image limit, refuse an unreadable
/// file (`len` is `None`) or one over `max_bytes`, and attach the rest, typed by extension
/// or as PNG.
pub fn admit_picked_image(
    pending: usize,
    max_pending: usize,
    len: Option<usize>,
    max_bytes: usize,
    path_mime: Option<&str>,
) -> (res: ImageAdmission)
    ensures
        pending >= max_pending ==> (res matches ImageAdmission::Stop(m) && m@ == full_text(
            max_pending as nat,
        )),
        pending < max_pending && len is None ==> (res matches ImageAdmission::Refuse(m) && m@
            == "Failed to read image file"@),
        pending < max_pending && (len matches Some(n) && n > max_bytes) ==> (res matches ImageAdmission::Refuse(
            m,
        ) && m@ == too_large_text(max_bytes as nat)),
        pending < max_pending && (len matches Some(n) && n <= max_bytes) ==> (res matches ImageAdmission::Attach(
            m,
        ) && m@ == attached_mime(crate::compute::str_opt(path_mime), None)),
{
    if pending >= max_pending {
        return ImageAdmission::Stop(full_message(max_pending));
    }
    match len {
        None => ImageAdmission::Refuse(owned("Failed to read image file")),
        Some(n) => if n > max_bytes {
            ImageAdmission::Refuse(too_large_message(max_bytes))
        } else {
            match path_mime {
                Some(m) => ImageAdmission::Attach(owned(m)),
                None => ImageAdmission::Attach(owned("image/png")),
            }
        },
    }
}

/// Whether the `trash` command needs `--` before a chat file's path: when its name starts
/// with `-` (so it is not read as an option).
pub fn trash_needs_separator(file_name: Option<&str>) -> (res: bool)
    ensures
        res == (file_name matches Some(n) && n@.len() > 0 && n@[0] == '-'),
{
    match file_name {
        Some(n) => {
            let cs = chars_of(n);
            cs.len() > 0 && cs[0] == '-'
        },
        None => false,
    }
}

/// Why a chat file could not be deleted: the removal error, with what `trash` reported
/// before it when it reported anything.
pub fn delete_failure_text(remove_error: &str, trash_error: Option<&str>) -> (res: String)
    ensures
        res@ == match trash_error {
            Some(t) => remove_error@ + " (trash: "@ + t@ + ")"@,
            None => remove_error@,
        },
{
    let mut m = owned(remove_error);
    if let Some(t) = trash_error {
        crate::text::push_str(&mut m, " (trash: ");
        crate::text::push_str(&mut m, t);
        crate::text::push_str(&mut m, ")");
    }
    m
}

/// The error shown when a chat's file could not be deleted (the chat is then kept).
pub fn delete_chat_error(error: &str) -> (res: String)
    ensures
        res@ == "Failed to delete chat file: "@ + error@,
{
    let mut m = owned("Failed to delete chat file: ");
    crate::text::push_str(&mut m, error);
    m
}

// ---------------------------------------------------------------------------
// Sidebar search
// ---------------------------------------------------------------------------

/// The query the sidebar filters chats by: the search text trimmed and lowercased.
pub open spec fn search_query(search: Seq<char>) -> Seq<char> {
    unicode_lowercase(crate::text::trim(search))
}

/// `t`, lowercased, contains the query `q`.
pub open spec fn text_hit(t: Seq<char>, q: Seq<char>) -> bool {
    crate::text::contains_seq(unicode_lowercase(t), q)
}

/// The text of a block the search looks at: thinking, answer, or a tool's output.
pub open spec fn block_search_text(b: AssistantBlock) -> Seq<char> {
    match b {
        AssistantBlock::Thinking(t) => t@,
        AssistantBlock::Answer(t) => t@,
        AssistantBlock::Tool { output, .. } => output@,
    }
}

/// A message matches when its text or the text of one of its blocks contains the query.
pub open spec fn message_hit(m: ChatMessage, q: Seq<char>) -> bool {
    text_hit(m.text@, q) || exists|j: int|
        0 <= j < m.blocks@.len() && text_hit(block_search_text(#[trigger] m.blocks@[j]), q)
}

/// A chat is listed for query `q` when the query is empty, or its title or one of its
/// messages contains it.
pub open spec fn session_shown(s: Session, q: Seq<char>) -> bool {
    ||| q.len() == 0
    ||| text_hit(s.title@, q)
    ||| exists|i: int| 0 <= i < s.messages@.len() && message_hit(#[trigger] s.messages@[i], q)
}

/// The query of the sidebar's search field.
pub fn sidebar_query(search: &str) -> (res: String)
    ensures
        res@ == search_query(search@),
{
    let t = crate::text::string_of(&crate::text::trim_chars(&chars_of(search)));
    lowercase_of(t.as_str())
}

fn text_hit_exec(t: &str, q: &[char]) -> (res: bool)
    ensures
        res == text_hit(t@, q@),
{
    crate::text::contains_exec(&chars_of(lowercase_of(t).as_str()), q)
}

fn message_hit_exec(m: &ChatMessage, q: &[char]) -> (res: bool)
    ensures
        res == message_hit(*m, q@),
{
    if text_hit_exec(m.text.as_str(), q) {
        return true;
    }
    let mut j: usize = 0;
    while j < m.blocks.len()
        invariant
            j <= m.blocks@.len(),
            !text_hit(m.text@, q@),
            forall|k: int| 0 <= k < j ==> !text_hit(block_search_text(#[trigger] m.blocks@[k]), q@),
        decreases m.blocks.len() - j,
    {
        let hit = match &m.blocks[j] {
            AssistantBlock::Thinking(t) => text_hit_exec(t.as_str(), q),
            AssistantBlock::Answer(t) => text_hit_exec(t.as_str(), q),
            AssistantBlock::Tool { output, .. } => text_hit_exec(output.as_str(), q),
        };
        if hit {
            return true;
        }
        j = j + 1;
    }
    false
}

/// Whether the sidebar lists `session` for the query `query` (from [`sidebar_query`]).
pub fn session_matches_search(session: &Session, query: &str) -> (res: bool)
    ensures
        res == session_shown(*session, query@),
{
    let q = chars_of(query);
    if q.len() == 0 {
        return true;
    }
    if text_hit_exec(session.title.as_str(), &q) {
        return true;
    }
    let mut i: usize = 0;
    while i < session.messages.len()
        invariant
            i <= session.messages@.len(),
            q@ == query@,
            q@.len() > 0,
            !text_hit(session.title@, q@),
            forall|k: int| 0 <= k < i ==> !message_hit(#[trigger] session.messages@[k], q@),
        decreases session.messages.len() - i,
    {
        if message_hit_exec(&session.messages[i], &q) {
            return true;
        }
        i = i + 1;
    }
    false
}

} // verus!
