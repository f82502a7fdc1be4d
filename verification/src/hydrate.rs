//! Best-effort conversion of the `data` of a `get_messages` reply into chat messages.
//!
//! The reply is a JSON document; it is held here as a [`JsonValue`] tree.

use vstd::prelude::*;

use crate::model::{AssistantBlock, ChatMessage, MsgRole, UserAttachment};
use crate::streaming::{args_summary_of, opt_view, ARGS_SUMMARY_MAX_CHARS};
use crate::text::{chars_eq, chars_of, owned, push_str, slice_chars, string_of};

verus! {

/// A JSON number, carried through unread.
#[verifier::external_type_specification]
#[verifier::external_body]
pub struct ExJsonNumber(serde_json::Number);

/// A `serde_json` document, built only to be written out.
#[verifier::external_type_specification]
#[verifier::external_body]
pub struct ExSerdeValue(serde_json::Value);

/// A JSON value. An object lists its members in order; its keys are distinct.
#[derive(Debug)]
pub enum JsonValue {
    Null,
    Bool(bool),
    Number(serde_json::Number),
    Str(String),
    Array(Vec<JsonValue>),
    Object(Vec<(String, JsonValue)>),
}

// ---------------------------------------------------------------------------
// Reading a JSON tree
// ---------------------------------------------------------------------------

/// The value of the first member of `ms` named `key`.
pub open spec fn member(ms: Seq<(String, JsonValue)>, key: Seq<char>) -> Option<JsonValue>
    decreases ms.len(),
{
    if ms.len() == 0 {
        None
    } else if ms[0].0@ == key {
        Some(ms[0].1)
    } else {
        member(ms.drop_first(), key)
    }
}

/// The member `key` of `v`, when `v` is an object that has one.
pub open spec fn get(v: JsonValue, key: Seq<char>) -> Option<JsonValue> {
    match v {
        JsonValue::Object(ms) => member(ms@, key),
        _ => None,
    }
}

/// The member `key` of `v`, when there is a `v` and it has one.
pub open spec fn get_in(v: Option<JsonValue>, key: Seq<char>) -> Option<JsonValue> {
    match v {
        Some(x) => get(x, key),
        None => None,
    }
}

/// The text of `v`, when it is a string.
pub open spec fn str_of(v: Option<JsonValue>) -> Option<Seq<char>> {
    match v {
        Some(JsonValue::Str(s)) => Some(s@),
        _ => None,
    }
}

/// The items of `v`, when it is an array.
pub open spec fn array_of(v: Option<JsonValue>) -> Option<Seq<JsonValue>> {
    match v {
        Some(JsonValue::Array(a)) => Some(a@),
        _ => None,
    }
}

/// The value of `v`, when it is a boolean.
pub open spec fn bool_of(v: Option<JsonValue>) -> Option<bool> {
    match v {
        Some(JsonValue::Bool(b)) => Some(b),
        _ => None,
    }
}

/// `o`, or `d` when there is none.
pub open spec fn or_else(o: Option<Seq<char>>, d: Seq<char>) -> Seq<char> {
    match o {
        Some(x) => x,
        None => d,
    }
}

/// The views of an optional borrowed string.
pub open spec fn str_view(o: Option<&str>) -> Option<Seq<char>> {
    match o {
        Some(s) => Some(s@),
        None => None,
    }
}

/// The member `key` of `v`.
pub fn json_get<'a>(v: &'a JsonValue, key: &str) -> (res: Option<&'a JsonValue>)
    ensures
        match res {
            Some(r) => get(*v, key@) == Some(*r),
            None => get(*v, key@) is None,
        },
{
    match v {
        JsonValue::Object(ms) => {
            let kc = chars_of(key);
            let mut i: usize = 0;
            assert(ms@.skip(0) =~= ms@);
            while i < ms.len()
                invariant
                    i <= ms@.len(),
                    kc@ == key@,
                    member(ms@, key@) == member(ms@.skip(i as int), key@),
                    get(*v, key@) == member(ms@, key@),
                decreases ms.len() - i,
            {
                proof {
                    assert(ms@.skip(i as int)[0] == ms@[i as int]);
                    assert(ms@.skip(i as int).drop_first() =~= ms@.skip(i + 1));
                }
                if chars_eq(&chars_of(ms[i].0.as_str()), &kc) {
                    return Some(&ms[i].1);
                }
                i = i + 1;
            }
            None
        },
        _ => None,
    }
}

/// The text of the member `key` of `v`, when it is a string.
pub fn json_str<'a>(v: &'a JsonValue, key: &str) -> (res: Option<&'a str>)
    ensures
        str_view(res) == str_of(get(*v, key@)),
{
    match json_get(v, key) {
        Some(JsonValue::Str(s)) => Some(s.as_str()),
        _ => None,
    }
}

/// The text of the member `key` of the member `outer` of `v`, when it is a string.
fn json_nested_str<'a>(v: &'a JsonValue, outer: &str, key: &str) -> (res: Option<&'a str>)
    ensures
        str_view(res) == str_of(get_in(get(*v, outer@), key@)),
{
    match json_get(v, outer) {
        Some(o) => json_str(o, key),
        None => None,
    }
}

// ---------------------------------------------------------------------------
// Calls into `serde_json` and `base64`
// ---------------------------------------------------------------------------

/// The compact JSON text that `serde_json` writes for `v` (`Value::to_string`).
pub uninterp spec fn json_text(v: JsonValue) -> Seq<char>;

/// `v` as a `serde_json::Value`, numbers unchanged. Members go into a `serde_json::Map`,
/// which keeps them ordered by key; a repeated key keeps its last value.
#[verifier::external_body]
fn to_serde_value(v: &JsonValue) -> serde_json::Value {
    match v {
        JsonValue::Null => serde_json::Value::Null,
        JsonValue::Bool(b) => serde_json::Value::Bool(*b),
        JsonValue::Number(n) => serde_json::Value::Number(n.clone()),
        JsonValue::Str(s) => serde_json::Value::String(s.clone()),
        JsonValue::Array(a) => serde_json::Value::Array(a.iter().map(to_serde_value).collect()),
        JsonValue::Object(ms) => serde_json::Value::Object(
            ms.iter().map(|(k, x)| (k.clone(), to_serde_value(x))).collect(),
        ),
    }
}

/// `serde_json::Value::to_string` on `v`. The text is tied to `v` by the name `json_text`;
/// its form is not stated.
#[verifier::external_body]
fn json_to_text(v: &JsonValue) -> (res: String)
    ensures
        res@ == json_text(*v),
{
    to_serde_value(v).to_string()
}

/// `v` as a [`JsonValue`], numbers unchanged; an object's members in the order its
/// `serde_json::Map` holds them (by key).
#[verifier::external_body]
fn from_serde_value(v: &serde_json::Value) -> JsonValue {
    match v {
        serde_json::Value::Null => JsonValue::Null,
        serde_json::Value::Bool(b) => JsonValue::Bool(*b),
        serde_json::Value::Number(n) => JsonValue::Number(n.clone()),
        serde_json::Value::String(s) => JsonValue::Str(s.clone()),
        serde_json::Value::Array(a) => JsonValue::Array(a.iter().map(from_serde_value).collect()),
        serde_json::Value::Object(m) => JsonValue::Object(
            m.iter().map(|(k, x)| (k.clone(), from_serde_value(x))).collect(),
        ),
    }
}

/// The JSON document the text `raw` holds, as `serde_json::from_str::<Value>` reads it;
/// `None` when it is not JSON.
pub uninterp spec fn json_parsed(raw: Seq<char>) -> Option<JsonValue>;

/// `serde_json::from_str::<serde_json::Value>(raw)`, the document converted variant for
/// variant. The result is tied to `raw` by the name `json_parsed`; the JSON grammar is not
/// stated.
#[verifier::external_body]
pub(crate) fn json_parse(raw: &str) -> (res: Option<JsonValue>)
    ensures
        res == json_parsed(raw@),
{
    match serde_json::from_str::<serde_json::Value>(raw) {
        Ok(v) => Some(from_serde_value(&v)),
        Err(_) => None,
    }
}

/// The bytes that the standard, padded base64 text `s` decodes to
/// (`base64::engine::general_purpose::STANDARD`); `None` when it is not valid.
pub uninterp spec fn base64_std_decode(s: Seq<char>) -> Option<Seq<u8>>;

/// `STANDARD.decode(s)`. The bytes are tied to `s` by the name `base64_std_decode`.
#[verifier::external_body]
pub(crate) fn decode_base64_std(s: &str) -> (res: Option<Vec<u8>>)
    ensures
        match res {
            Some(b) => base64_std_decode(s@) == Some(b@),
            None => base64_std_decode(s@) is None,
        },
{
    base64::Engine::decode(&base64::engine::general_purpose::STANDARD, s.as_bytes()).ok()
}


// ---------------------------------------------------------------------------
// Views of messages
// ---------------------------------------------------------------------------

/// The mathematical value of an [`AssistantBlock`].
pub enum BlockV {
    Thinking(Seq<char>),
    Answer(Seq<char>),
    Tool {
        tool_call_id: Seq<char>,
        name: Seq<char>,
        args_summary: Option<Seq<char>>,
        output: Seq<char>,
        diff: Option<Seq<char>>,
        is_error: Option<bool>,
        full_output_path: Option<Seq<char>>,
        output_truncated: bool,
    },
}

/// The value of a block.
pub open spec fn block_v(b: AssistantBlock) -> BlockV {
    match b {
        AssistantBlock::Thinking(s) => BlockV::Thinking(s@),
        AssistantBlock::Answer(s) => BlockV::Answer(s@),
        AssistantBlock::Tool {
            tool_call_id,
            name,
            args_summary,
            output,
            diff,
            is_error,
            full_output_path,
            output_truncated,
        } => BlockV::Tool {
            tool_call_id: tool_call_id@,
            name: name@,
            args_summary: opt_view(args_summary),
            output: output@,
            diff: opt_view(diff),
            is_error,
            full_output_path: opt_view(full_output_path),
            output_truncated,
        },
    }
}

/// The values of blocks.
pub open spec fn blocks_v(bs: Seq<AssistantBlock>) -> Seq<BlockV> {
    bs.map_values(|b: AssistantBlock| block_v(b))
}

/// The value of an attachment: its MIME type and bytes.
pub open spec fn attachment_v(a: UserAttachment) -> (Seq<char>, Seq<u8>) {
    match a {
        UserAttachment::Image { mime, data } => (mime@, data@),
    }
}

/// The values of attachments.
pub open spec fn attachments_v(s: Seq<UserAttachment>) -> Seq<(Seq<char>, Seq<u8>)> {
    s.map_values(|a: UserAttachment| attachment_v(a))
}

/// The mathematical value of a [`ChatMessage`].
pub struct MessageV {
    pub role: MsgRole,
    pub text: Seq<char>,
    pub attachments: Seq<(Seq<char>, Seq<u8>)>,
    pub blocks: Seq<BlockV>,
    pub streaming: bool,
}

/// The value of a message.
pub open spec fn message_v(m: ChatMessage) -> MessageV {
    MessageV {
        role: m.role,
        text: m.text@,
        attachments: attachments_v(m.attachments@),
        blocks: blocks_v(m.blocks@),
        streaming: m.streaming,
    }
}

/// The values of messages.
pub open spec fn messages_v(ms: Seq<ChatMessage>) -> Seq<MessageV> {
    ms.map_values(|m: ChatMessage| message_v(m))
}

// ---------------------------------------------------------------------------
// Tool results
// ---------------------------------------------------------------------------

/// The `text` members of the items, joined.
pub open spec fn content_texts(items: Seq<JsonValue>) -> Seq<char>
    decreases items.len(),
{
    if items.len() == 0 {
        Seq::empty()
    } else {
        content_texts(items.drop_last()) + or_else(str_of(get(items.last(), "text"@)), Seq::empty())
    }
}

/// The text of a tool result's `content` array: the `text` members of its items joined;
/// `None` when there is no such array or the text is empty.
pub open spec fn tool_text(v: JsonValue) -> Option<Seq<char>> {
    match array_of(get(v, "content"@)) {
        Some(items) => if content_texts(items).len() == 0 {
            None
        } else {
            Some(content_texts(items))
        },
        None => None,
    }
}

/// Text extracted from the `content` array of a tool result or partial result.
pub fn tool_text_from_content_array(v: &JsonValue) -> (res: Option<String>)
    ensures
        opt_view(res) == tool_text(*v),
{
    let items = match json_get(v, "content") {
        Some(JsonValue::Array(a)) => a,
        _ => return None,
    };
    let mut out = String::new();
    let mut i: usize = 0;
    while i < items.len()
        invariant
            i <= items@.len(),
            out@ == content_texts(items@.take(i as int)),
        decreases items.len() - i,
    {
        proof {
            let t = items@.take(i + 1);
            assert(t.drop_last() == items@.take(i as int));
            assert(t.last() == items@[i as int]);
        }
        match json_str(&items[i], "text") {
            Some(t) => push_str(&mut out, t),
            None => {
                assert(out@ =~= out@ + Seq::<char>::empty());
            },
        }
        i = i + 1;
    }
    assert(items@.take(items@.len() as int) == items@);
    if out.as_str().is_empty() {
        None
    } else {
        Some(out)
    }
}

/// The diff of a tool result: `details.diff`, else `diff`.
pub open spec fn tool_diff(v: JsonValue) -> Option<Seq<char>> {
    match str_of(get_in(get(v, "details"@), "diff"@)) {
        Some(d) => Some(d),
        None => str_of(get(v, "diff"@)),
    }
}

/// The diff carried by a tool result.
pub fn tool_diff_from_result(v: &JsonValue) -> (res: Option<String>)
    ensures
        opt_view(res) == tool_diff(*v),
{
    match json_nested_str(v, "details", "diff") {
        Some(d) => Some(owned(d)),
        None => match json_str(v, "diff") {
            Some(d) => Some(owned(d)),
            None => None,
        },
    }
}

// ---------------------------------------------------------------------------
// User messages
// ---------------------------------------------------------------------------

/// The text and attachments of a user message after reading part `p`: a `text` part adds
/// its text, an `image` part whose `data` is valid base64 adds an image (of type
/// `mimeType`, else `image/png`); other parts add nothing.
pub open spec fn user_step(acc: (Seq<char>, Seq<(Seq<char>, Seq<u8>)>), p: JsonValue) -> (
    Seq<char>,
    Seq<(Seq<char>, Seq<u8>)>,
) {
    let ty = or_else(str_of(get(p, "type"@)), Seq::empty());
    if ty == "text"@ {
        match str_of(get(p, "text"@)) {
            Some(t) => (acc.0 + t, acc.1),
            None => acc,
        }
    } else if ty == "image"@ {
        let mime = or_else(str_of(get(p, "mimeType"@)), "image/png"@);
        match str_of(get(p, "data"@)) {
            Some(b) => match base64_std_decode(b) {
                Some(bytes) => (acc.0, acc.1.push((mime, bytes))),
                None => acc,
            },
            None => acc,
        }
    } else {
        acc
    }
}

/// The text and attachments of the parts of a user message, read in order.
pub open spec fn user_parts(parts: Seq<JsonValue>) -> (Seq<char>, Seq<(Seq<char>, Seq<u8>)>)
    decreases parts.len(),
{
    if parts.len() == 0 {
        (Seq::empty(), Seq::empty())
    } else {
        user_step(user_parts(parts.drop_last()), parts.last())
    }
}

/// The text and attachments of a user message: its `content` string, or what its `content`
/// parts give; nothing otherwise.
pub open spec fn user_content(m: JsonValue) -> (Seq<char>, Seq<(Seq<char>, Seq<u8>)>) {
    match get(m, "content"@) {
        Some(JsonValue::Str(s)) => (s@, Seq::empty()),
        Some(JsonValue::Array(parts)) => user_parts(parts@),
        _ => (Seq::empty(), Seq::empty()),
    }
}

fn parse_user_message(m: &JsonValue) -> (res: (String, Vec<UserAttachment>))
    ensures
        (res.0@, attachments_v(res.1@)) == user_content(*m),
{
    let parts = match json_get(m, "content") {
        Some(JsonValue::Str(s)) => {
            let out: Vec<UserAttachment> = Vec::new();
            assert(attachments_v(out@) =~= Seq::empty());
            return (owned(s.as_str()), out);
        },
        Some(JsonValue::Array(parts)) => parts,
        _ => {
            let out: Vec<UserAttachment> = Vec::new();
            assert(attachments_v(out@) =~= Seq::empty());
            return (String::new(), out);
        },
    };
    let mut text = String::new();
    let mut attachments: Vec<UserAttachment> = Vec::new();
    let mut i: usize = 0;
    assert(attachments_v(attachments@) =~= Seq::empty());
    while i < parts.len()
        invariant
            i <= parts@.len(),
            (text@, attachments_v(attachments@)) == user_parts(parts@.take(i as int)),
        decreases parts.len() - i,
    {
        let ghost acc = user_parts(parts@.take(i as int));
        proof {
            let t = parts@.take(i + 1);
            assert(t.drop_last() == parts@.take(i as int));
            assert(t.last() == parts@[i as int]);
            assert(user_parts(t) == user_step(acc, parts@[i as int]));
        }
        proof {
            reveal_strlit("");
        }
        let p = &parts[i];
        let ty: &str = match json_str(p, "type") {
            Some(t) => t,
            None => "",
        };
        let tc = chars_of(ty);
        assert(ty@ == or_else(str_of(get(parts@[i as int], "type"@)), Seq::empty()));
        if chars_eq(&tc, &chars_of("text")) {
            assert(ty@ == "text"@);
            match json_str(p, "text") {
                Some(t) => push_str(&mut text, t),
                None => {},
            }
            assert((text@, attachments_v(attachments@)) == user_step(acc, parts@[i as int]));
        } else if chars_eq(&tc, &chars_of("image")) {
            let mime: &str = match json_str(p, "mimeType") {
                Some(t) => t,
                None => "image/png",
            };
            match json_str(p, "data") {
                Some(b64) => match decode_base64_std(b64) {
                    Some(bytes) => {
                        let ghost before = attachments_v(attachments@);
                        attachments.push(UserAttachment::Image { mime: owned(mime), data: bytes });
                        assert(attachments_v(attachments@) =~= before.push((mime@, bytes@)));
                    },
                    None => {},
                },
                None => {},
            }
        }
        assert((text@, attachments_v(attachments@)) == user_step(acc, parts@[i as int]));
        i = i + 1;
    }
    assert(parts@.take(parts@.len() as int) == parts@);
    (text, attachments)
}

// ---------------------------------------------------------------------------
// Assistant messages
// ---------------------------------------------------------------------------

/// The blocks of an assistant message after reading part `p`. Non-empty reasoning joins a
/// trailing thinking block (after a blank line) or starts one; non-empty text joins a
/// trailing answer block or starts one; a tool call adds a tool block (named `tool` when
/// unnamed) with its arguments' JSON text as summary. Other parts add nothing.
pub open spec fn assistant_step(bs: Seq<BlockV>, p: JsonValue) -> Seq<BlockV> {
    let ty = or_else(str_of(get(p, "type"@)), Seq::empty());
    if ty == "thinking"@ {
        let th = or_else(str_of(get(p, "thinking"@)), Seq::empty());
        if th.len() == 0 {
            bs
        } else {
            match (if bs.len() > 0 {
                Some(bs.last())
            } else {
                None
            }) {
                Some(BlockV::Thinking(prev)) => bs.drop_last().push(
                    BlockV::Thinking(
                        if prev.len() > 0 {
                            prev + "\n\n"@ + th
                        } else {
                            prev + th
                        },
                    ),
                ),
                _ => bs.push(BlockV::Thinking(th)),
            }
        }
    } else if ty == "text"@ {
        let t = or_else(str_of(get(p, "text"@)), Seq::empty());
        if t.len() == 0 {
            bs
        } else {
            match (if bs.len() > 0 {
                Some(bs.last())
            } else {
                None
            }) {
                Some(BlockV::Answer(prev)) => bs.drop_last().push(BlockV::Answer(prev + t)),
                _ => bs.push(BlockV::Answer(t)),
            }
        }
    } else if ty == "toolCall"@ {
        bs.push(
            BlockV::Tool {
                tool_call_id: or_else(str_of(get(p, "id"@)), Seq::empty()),
                name: or_else(str_of(get(p, "name"@)), "tool"@),
                args_summary: match get(p, "arguments"@) {
                    Some(a) => args_summary_of(Some(json_text(a))),
                    None => None,
                },
                output: Seq::empty(),
                diff: None,
                is_error: None,
                full_output_path: None,
                output_truncated: false,
            },
        )
    } else {
        bs
    }
}

/// The blocks of the parts of an assistant message, read in order.
pub open spec fn assistant_parts(parts: Seq<JsonValue>) -> Seq<BlockV>
    decreases parts.len(),
{
    if parts.len() == 0 {
        Seq::empty()
    } else {
        assistant_step(assistant_parts(parts.drop_last()), parts.last())
    }
}

/// The blocks of an assistant message: one answer for a non-empty `content` string, or what
/// its `content` parts give; none otherwise.
pub open spec fn assistant_content(m: JsonValue) -> Seq<BlockV> {
    match get(m, "content"@) {
        Some(JsonValue::Str(s)) => if s@.len() > 0 {
            seq![BlockV::Answer(s@)]
        } else {
            Seq::empty()
        },
        Some(JsonValue::Array(parts)) => assistant_parts(parts@),
        _ => Seq::empty(),
    }
}

fn args_summary_text(a: &JsonValue) -> (res: String)
    ensures
        Some(res@) == args_summary_of(Some(json_text(*a))),
{
    let cs = chars_of(json_to_text(a).as_str());
    let n = if cs.len() > ARGS_SUMMARY_MAX_CHARS {
        ARGS_SUMMARY_MAX_CHARS
    } else {
        cs.len()
    };
    proof {
        if cs@.len() <= ARGS_SUMMARY_MAX_CHARS {
            assert(cs@.subrange(0, n as int) =~= cs@);
        } else {
            assert(cs@.subrange(0, n as int) =~= cs@.take(ARGS_SUMMARY_MAX_CHARS as int));
        }
    }
    string_of(&slice_chars(&cs, 0, n))
}

/// Adds `delta` to a trailing thinking block (after a blank line when it has text) or opens
/// a new one.
fn push_thinking(blocks: &mut Vec<AssistantBlock>, th: &str)
    requires
        th@.len() > 0,
    ensures
        blocks_v(final(blocks)@) == (match (if old(blocks)@.len() > 0 {
            Some(blocks_v(old(blocks)@).last())
        } else {
            None
        }) {
            Some(BlockV::Thinking(prev)) => blocks_v(old(blocks)@).drop_last().push(
                BlockV::Thinking(
                    if prev.len() > 0 {
                        prev + "\n\n"@ + th@
                    } else {
                        prev + th@
                    },
                ),
            ),
            _ => blocks_v(old(blocks)@).push(BlockV::Thinking(th@)),
        }),
{
    let ghost b0 = blocks_v(blocks@);
    let n = blocks.len();
    if n > 0 {
        let last_thinking = match &blocks[n - 1] {
            AssistantBlock::Thinking(_) => true,
            _ => false,
        };
        if last_thinking {
            match blocks.pop() {
                Some(AssistantBlock::Thinking(prev)) => {
                    let ghost p0 = prev@;
                    let mut s = prev;
                    if !s.as_str().is_empty() {
                        push_str(&mut s, "\n\n");
                    }
                    push_str(&mut s, th);
                    blocks.push(AssistantBlock::Thinking(s));
                    assert(blocks_v(blocks@) =~= b0.drop_last().push(
                        BlockV::Thinking(
                            if p0.len() > 0 {
                                p0 + "\n\n"@ + th@
                            } else {
                                p0 + th@
                            },
                        ),
                    ));
                },
                Some(other) => blocks.push(other),
                None => {},
            }
            return;
        }
    }
    blocks.push(AssistantBlock::Thinking(owned(th)));
    assert(blocks_v(blocks@) =~= b0.push(BlockV::Thinking(th@)));
}

/// Adds `t` to a trailing answer block or opens a new one.
fn push_answer(blocks: &mut Vec<AssistantBlock>, t: &str)
    ensures
        blocks_v(final(blocks)@) == (match (if old(blocks)@.len() > 0 {
            Some(blocks_v(old(blocks)@).last())
        } else {
            None
        }) {
            Some(BlockV::Answer(prev)) => blocks_v(old(blocks)@).drop_last().push(
                BlockV::Answer(prev + t@),
            ),
            _ => blocks_v(old(blocks)@).push(BlockV::Answer(t@)),
        }),
{
    let ghost b0 = blocks_v(blocks@);
    let n = blocks.len();
    if n > 0 {
        let last_answer = match &blocks[n - 1] {
            AssistantBlock::Answer(_) => true,
            _ => false,
        };
        if last_answer {
            match blocks.pop() {
                Some(AssistantBlock::Answer(prev)) => {
                    let ghost p0 = prev@;
                    let mut s = prev;
                    push_str(&mut s, t);
                    blocks.push(AssistantBlock::Answer(s));
                    assert(blocks_v(blocks@) =~= b0.drop_last().push(BlockV::Answer(p0 + t@)));
                },
                Some(other) => blocks.push(other),
                None => {},
            }
            return;
        }
    }
    blocks.push(AssistantBlock::Answer(owned(t)));
    assert(blocks_v(blocks@) =~= b0.push(BlockV::Answer(t@)));
}

fn assistant_blocks_from_content(m: &JsonValue) -> (res: Vec<AssistantBlock>)
    ensures
        blocks_v(res@) == assistant_content(*m),
{
    let mut blocks: Vec<AssistantBlock> = Vec::new();
    let parts = match json_get(m, "content") {
        Some(JsonValue::Str(s)) => {
            if !s.as_str().is_empty() {
                blocks.push(AssistantBlock::Answer(owned(s.as_str())));
                assert(blocks_v(blocks@) =~= seq![BlockV::Answer(s@)]);
            } else {
                assert(blocks_v(blocks@) =~= Seq::empty());
            }
            return blocks;
        },
        Some(JsonValue::Array(parts)) => parts,
        _ => {
            assert(blocks_v(blocks@) =~= Seq::empty());
            return blocks;
        },
    };
    let mut i: usize = 0;
    assert(blocks_v(blocks@) =~= Seq::empty());
    while i < parts.len()
        invariant
            i <= parts@.len(),
            blocks_v(blocks@) == assistant_parts(parts@.take(i as int)),
        decreases parts.len() - i,
    {
        let ghost acc = assistant_parts(parts@.take(i as int));
        proof {
            let t = parts@.take(i + 1);
            assert(t.drop_last() == parts@.take(i as int));
            assert(t.last() == parts@[i as int]);
            assert(assistant_parts(t) == assistant_step(acc, parts@[i as int]));
        }
        proof {
            reveal_strlit("");
        }
        let p = &parts[i];
        let ty: &str = match json_str(p, "type") {
            Some(t) => t,
            None => "",
        };
        let tc = chars_of(ty);
        assert(ty@ == or_else(str_of(get(parts@[i as int], "type"@)), Seq::empty()));
        if chars_eq(&tc, &chars_of("thinking")) {
            let th: &str = match json_str(p, "thinking") {
                Some(t) => t,
                None => "",
            };
            proof {
                reveal_strlit("");
            }
            assert(th@ == or_else(str_of(get(parts@[i as int], "thinking"@)), Seq::empty()));
            if !th.is_empty() {
                push_thinking(&mut blocks, th);
            }
            assert(blocks_v(blocks@) == assistant_step(acc, parts@[i as int]));
        } else if chars_eq(&tc, &chars_of("text")) {
            let t: &str = match json_str(p, "text") {
                Some(t) => t,
                None => "",
            };
            proof {
                reveal_strlit("");
            }
            assert(t@ == or_else(str_of(get(parts@[i as int], "text"@)), Seq::empty()));
            if !t.is_empty() {
                push_answer(&mut blocks, t);
            }
            assert(blocks_v(blocks@) == assistant_step(acc, parts@[i as int]));
        } else if chars_eq(&tc, &chars_of("toolCall")) {
            let id: &str = match json_str(p, "id") {
                Some(t) => t,
                None => "",
            };
            let name: &str = match json_str(p, "name") {
                Some(t) => t,
                None => "tool",
            };
            let args_summary = match json_get(p, "arguments") {
                Some(a) => Some(args_summary_text(a)),
                None => None,
            };
            assert(id@ == or_else(str_of(get(parts@[i as int], "id"@)), Seq::empty()));
            assert(name@ == or_else(str_of(get(parts@[i as int], "name"@)), "tool"@));
            assert(opt_view(args_summary) == match get(parts@[i as int], "arguments"@) {
                Some(a) => args_summary_of(Some(json_text(a))),
                None => None,
            });
            let ghost b0 = blocks_v(blocks@);
            blocks.push(
                AssistantBlock::Tool {
                    tool_call_id: owned(id),
                    name: owned(name),
                    args_summary,
                    output: String::new(),
                    diff: None,
                    is_error: None,
                    full_output_path: None,
                    output_truncated: false,
                },
            );
            assert(blocks_v(blocks@) =~= b0.push(block_v(blocks@.last())));
            assert(blocks_v(blocks@) == assistant_step(acc, parts@[i as int]));
        }
        assert(blocks_v(blocks@) == assistant_step(acc, parts@[i as int]));
        i = i + 1;
    }
    assert(parts@.take(parts@.len() as int) == parts@);
    blocks
}


// ---------------------------------------------------------------------------
// Tool results joining their calls
// ---------------------------------------------------------------------------

/// The tool block a tool result describes on its own: its call id (empty when missing),
/// tool name (`tool` when missing), output text, diff, error flag, full-output path
/// (`details.fullOutputPath`, else `fullOutputPath`) and whether the output was truncated
/// (`details.truncation` present, or `truncated` true).
pub open spec fn result_block(m: JsonValue) -> BlockV {
    BlockV::Tool {
        tool_call_id: or_else(str_of(get(m, "toolCallId"@)), Seq::empty()),
        name: or_else(str_of(get(m, "toolName"@)), "tool"@),
        args_summary: None,
        output: or_else(tool_text(m), Seq::empty()),
        diff: tool_diff(m),
        is_error: bool_of(get(m, "isError"@)),
        full_output_path: match str_of(get_in(get(m, "details"@), "fullOutputPath"@)) {
            Some(p) => Some(p),
            None => str_of(get(m, "fullOutputPath"@)),
        },
        output_truncated: get_in(get(m, "details"@), "truncation"@) is Some || match bool_of(
            get(m, "truncated"@),
        ) {
            Some(b) => b,
            None => false,
        },
    }
}

/// The first tool block at or after `j` whose call id is `id`, or -1.
pub open spec fn tool_index(bs: Seq<BlockV>, id: Seq<char>, j: int) -> int
    decreases bs.len() - j,
{
    if j < 0 || j >= bs.len() {
        -1
    } else if bs[j] is Tool && bs[j]->tool_call_id == id {
        j
    } else {
        tool_index(bs, id, j + 1)
    }
}

/// The last assistant message at or before `i` holding a tool block with call id `id`, or -1.
pub open spec fn message_with_tool(out: Seq<MessageV>, id: Seq<char>, i: int) -> int
    decreases i + 1,
{
    if i < 0 || i >= out.len() {
        -1
    } else if out[i].role == MsgRole::Assistant && tool_index(out[i].blocks, id, 0) >= 0 {
        i
    } else {
        message_with_tool(out, id, i - 1)
    }
}

/// The call's tool block `b` completed by the result block `r`: output, diff, error flag,
/// full-output path and truncation come from the result; id, name and arguments stay.
pub open spec fn completed_with(b: BlockV, r: BlockV) -> BlockV {
    BlockV::Tool {
        tool_call_id: b->tool_call_id,
        name: b->name,
        args_summary: b->args_summary,
        output: r->output,
        diff: r->diff,
        is_error: r->is_error,
        full_output_path: r->full_output_path,
        output_truncated: r->output_truncated,
    }
}

/// The messages after a tool result `m`: when its call id is non-empty and a tool block of
/// an assistant message has that id, the first such block of the last such message is
/// completed; otherwise the result becomes a message of its own.
pub open spec fn merged(out: Seq<MessageV>, m: JsonValue) -> Seq<MessageV> {
    let r = result_block(m);
    let id = r->tool_call_id;
    let i = if id.len() == 0 {
        -1
    } else {
        message_with_tool(out, id, out.len() - 1)
    };
    if i >= 0 {
        let bs = out[i].blocks;
        let j = tool_index(bs, id, 0);
        out.update(
            i,
            MessageV {
                role: out[i].role,
                text: out[i].text,
                attachments: out[i].attachments,
                blocks: bs.update(j, completed_with(bs[j], r)),
                streaming: out[i].streaming,
            },
        )
    } else {
        out.push(
            MessageV {
                role: MsgRole::Assistant,
                text: Seq::empty(),
                attachments: Seq::empty(),
                blocks: seq![r],
                streaming: false,
            },
        )
    }
}

proof fn lemma_tool_index_bounds(bs: Seq<BlockV>, id: Seq<char>, j: int)
    ensures
        tool_index(bs, id, j) == -1 || (j <= tool_index(bs, id, j) < bs.len()
            && bs[tool_index(bs, id, j)] is Tool),
    decreases bs.len() - j,
{
    if 0 <= j < bs.len() && !(bs[j] is Tool && bs[j]->tool_call_id == id) {
        lemma_tool_index_bounds(bs, id, j + 1);
    }
}

proof fn lemma_message_with_tool_bounds(out: Seq<MessageV>, id: Seq<char>, i: int)
    ensures
        message_with_tool(out, id, i) == -1 || (0 <= message_with_tool(out, id, i) <= i
            && message_with_tool(out, id, i) < out.len() && tool_index(
            out[message_with_tool(out, id, i)].blocks,
            id,
            0,
        ) >= 0),
    decreases i + 1,
{
    if 0 <= i < out.len() && !(out[i].role == MsgRole::Assistant && tool_index(
        out[i].blocks,
        id,
        0,
    ) >= 0) {
        lemma_message_with_tool_bounds(out, id, i - 1);
    }
}

/// The index of the first tool block of `blocks` with call id `id`.
fn find_tool_in(blocks: &Vec<AssistantBlock>, id: &[char]) -> (res: Option<usize>)
    ensures
        match res {
            Some(j) => tool_index(blocks_v(blocks@), id@, 0) == j,
            None => tool_index(blocks_v(blocks@), id@, 0) == -1,
        },
{
    let ghost bv = blocks_v(blocks@);
    let mut j: usize = 0;
    while j < blocks.len()
        invariant
            j <= blocks@.len(),
            bv == blocks_v(blocks@),
            tool_index(bv, id@, 0) == tool_index(bv, id@, j as int),
        decreases blocks.len() - j,
    {
        let hit = match &blocks[j] {
            AssistantBlock::Tool { tool_call_id, .. } => chars_eq(
                &chars_of(tool_call_id.as_str()),
                id,
            ),
            _ => false,
        };
        assert(bv[j as int] == block_v(blocks@[j as int]));
        if hit {
            return Some(j);
        }
        j = j + 1;
    }
    None
}

fn complete_tool_at(
    blocks: &mut Vec<AssistantBlock>,
    j: usize,
    output: String,
    diff: Option<String>,
    is_error: Option<bool>,
    full_output_path: Option<String>,
    output_truncated: bool,
)
    requires
        j < old(blocks)@.len(),
        old(blocks)@[j as int] is Tool,
    ensures
        blocks_v(final(blocks)@) == blocks_v(old(blocks)@).update(
            j as int,
            completed_with(
                blocks_v(old(blocks)@)[j as int],
                BlockV::Tool {
                    tool_call_id: Seq::empty(),
                    name: Seq::empty(),
                    args_summary: None,
                    output: output@,
                    diff: opt_view(diff),
                    is_error,
                    full_output_path: opt_view(full_output_path),
                    output_truncated,
                },
            ),
        ),
{
    let ghost b0 = blocks_v(blocks@);
    let old_block = blocks.remove(j);
    let new_block = match old_block {
        AssistantBlock::Tool { tool_call_id, name, args_summary, .. } => AssistantBlock::Tool {
            tool_call_id,
            name,
            args_summary,
            output,
            diff,
            is_error,
            full_output_path,
            output_truncated,
        },
        other => other,
    };
    blocks.insert(j, new_block);
    assert(blocks_v(blocks@) =~= b0.update(
        j as int,
        completed_with(
            b0[j as int],
            BlockV::Tool {
                tool_call_id: Seq::empty(),
                name: Seq::empty(),
                args_summary: None,
                output: output@,
                diff: opt_view(diff),
                is_error,
                full_output_path: opt_view(full_output_path),
                output_truncated,
            },
        ),
    ));
}

fn merge_tool_result(out: &mut Vec<ChatMessage>, m: &JsonValue)
    ensures
        messages_v(final(out)@) == merged(messages_v(old(out)@), *m),
{
    proof {
        reveal_strlit("");
    }
    let ghost ov = messages_v(out@);
    let id: &str = match json_str(m, "toolCallId") {
        Some(t) => t,
        None => "",
    };
    let name: &str = match json_str(m, "toolName") {
        Some(t) => t,
        None => "tool",
    };
    let output = match tool_text_from_content_array(m) {
        Some(t) => t,
        None => String::new(),
    };
    let is_error = match json_get(m, "isError") {
        Some(JsonValue::Bool(b)) => Some(*b),
        _ => None,
    };
    let diff = tool_diff_from_result(m);
    let full_output_path = match json_nested_str(m, "details", "fullOutputPath") {
        Some(p) => Some(owned(p)),
        None => match json_str(m, "fullOutputPath") {
            Some(p) => Some(owned(p)),
            None => None,
        },
    };
    let has_truncation = match json_get(m, "details") {
        Some(d) => json_get(d, "truncation").is_some(),
        None => false,
    };
    let flagged = match json_get(m, "truncated") {
        Some(JsonValue::Bool(b)) => *b,
        _ => false,
    };
    let output_truncated = has_truncation || flagged;
    let ghost r = result_block(*m);
    assert(id@ == r->tool_call_id);
    assert(name@ == r->name);
    assert(output@ == r->output);
    assert(opt_view(diff) == r->diff);
    assert(is_error == r->is_error);
    assert(opt_view(full_output_path) == r->full_output_path);
    assert(output_truncated == r->output_truncated);
    if !id.is_empty() {
        let idc = chars_of(id);
        let mut i = out.len();
        proof {
            lemma_message_with_tool_bounds(ov, id@, ov.len() - 1);
        }
        while i > 0
            invariant
                i <= out@.len(),
                ov == messages_v(out@),
                ov == messages_v(old(out)@),
                idc@ == id@,
                id@.len() > 0,
                r == result_block(*m),
                id@ == r->tool_call_id,
                output@ == r->output,
                opt_view(diff) == r->diff,
                is_error == r->is_error,
                opt_view(full_output_path) == r->full_output_path,
                output_truncated == r->output_truncated,
                message_with_tool(ov, id@, ov.len() - 1) == message_with_tool(ov, id@, i - 1),
            decreases i,
        {
            let is_assistant = out[i - 1].role == MsgRole::Assistant;
            assert(ov[i - 1].blocks == blocks_v(out@[i - 1].blocks@));
            assert(ov[i - 1].role == out@[i - 1].role);
            if is_assistant {
                match find_tool_in(&out[i - 1].blocks, &idc) {
                    Some(j) => {
                        let k = i - 1;
                        proof {
                            lemma_tool_index_bounds(ov[k as int].blocks, id@, 0);
                        }
                        let mut msg = out.remove(k);
                        complete_tool_at(
                            &mut msg.blocks,
                            j,
                            output,
                            diff,
                            is_error,
                            full_output_path,
                            output_truncated,
                        );
                        out.insert(k, msg);
                        proof {
                            assert(message_with_tool(ov, id@, k as int) == k);
                            let bs = ov[k as int].blocks;
                            assert(completed_with(
                                bs[j as int],
                                BlockV::Tool {
                                    tool_call_id: Seq::empty(),
                                    name: Seq::empty(),
                                    args_summary: None,
                                    output: r->output,
                                    diff: r->diff,
                                    is_error: r->is_error,
                                    full_output_path: r->full_output_path,
                                    output_truncated: r->output_truncated,
                                },
                            ) == completed_with(bs[j as int], r));
                            assert(message_v(out@[k as int]).blocks == bs.update(
                                j as int,
                                completed_with(bs[j as int], r),
                            ));
                        }
                        assert(messages_v(out@) =~= merged(ov, *m));
                        return;
                    },
                    None => {},
                }
            }
            i = i - 1;
        }
    }
    let mut blocks: Vec<AssistantBlock> = Vec::new();
    blocks.push(
        AssistantBlock::Tool {
            tool_call_id: owned(id),
            name: owned(name),
            args_summary: None,
            output,
            diff,
            is_error,
            full_output_path,
            output_truncated,
        },
    );
    assert(blocks_v(blocks@) =~= seq![r]);
    out.push(
        ChatMessage {
            role: MsgRole::Assistant,
            text: String::new(),
            attachments: Vec::new(),
            blocks,
            streaming: false,
        },
    );
    assert(attachments_v(out@.last().attachments@) =~= Seq::empty());
    assert(messages_v(out@) =~= merged(ov, *m));
}

proof fn lemma_tool_index_found(bs: Seq<BlockV>, id: Seq<char>, j: int, k: int)
    requires
        0 <= j <= k < bs.len(),
        bs[k] is Tool && bs[k]->tool_call_id == id,
    ensures
        j <= tool_index(bs, id, j) <= k,
        bs[tool_index(bs, id, j)] is Tool && bs[tool_index(bs, id, j)]->tool_call_id == id,
    decreases k - j,
{
    if !(bs[j] is Tool && bs[j]->tool_call_id == id) {
        lemma_tool_index_found(bs, id, j + 1, k);
    }
}

proof fn lemma_message_with_tool_found(out: Seq<MessageV>, id: Seq<char>, i: int, k: int)
    requires
        0 <= k <= i < out.len(),
        out[k].role == MsgRole::Assistant,
        tool_index(out[k].blocks, id, 0) >= 0,
    ensures
        k <= message_with_tool(out, id, i) <= i,
        out[message_with_tool(out, id, i)].role == MsgRole::Assistant,
        tool_index(out[message_with_tool(out, id, i)].blocks, id, 0) >= 0,
    decreases i - k,
{
    if !(out[i].role == MsgRole::Assistant && tool_index(out[i].blocks, id, 0) >= 0) {
        lemma_message_with_tool_found(out, id, i - 1, k);
    }
}

proof fn lemma_tool_index_hit(bs: Seq<BlockV>, id: Seq<char>, j: int)
    requires
        0 <= j,
    ensures
        tool_index(bs, id, j) >= 0 ==> tool_index(bs, id, j) < bs.len() && bs[tool_index(bs, id, j)] is Tool
            && bs[tool_index(bs, id, j)]->tool_call_id == id,
    decreases bs.len() - j,
{
    if j < bs.len() && !(bs[j] is Tool && bs[j]->tool_call_id == id) {
        lemma_tool_index_hit(bs, id, j + 1);
    }
}

/// Law: a tool result whose call is among the assistant messages read so far joins that
/// call: no message is added, and a tool block with the result's call id now carries the
/// result's output, diff and `isError` flag, read straight from the result's JSON.
pub proof fn law_tool_result_completes_its_call(
    out: Seq<MessageV>,
    m: JsonValue,
    id: Seq<char>,
    mi: int,
    bi: int,
)
    requires
        str_of(get(m, "role"@)) == Some("toolResult"@),
        str_of(get(m, "toolCallId"@)) == Some(id),
        id.len() > 0,
        0 <= mi < out.len(),
        out[mi].role == MsgRole::Assistant,
        0 <= bi < out[mi].blocks.len(),
        out[mi].blocks[bi] is Tool,
        out[mi].blocks[bi]->tool_call_id == id,
    ensures
        hydrate_step(out, m).len() == out.len(),
        exists|i: int, j: int|
            #![trigger hydrate_step(out, m)[i].blocks[j]]
            0 <= i < out.len() && 0 <= j < hydrate_step(out, m)[i].blocks.len() && {
                let b = hydrate_step(out, m)[i].blocks[j];
                &&& b is Tool
                &&& b->tool_call_id == id
                &&& b->is_error == bool_of(get(m, "isError"@))
                &&& b->output == or_else(tool_text(m), Seq::empty())
                &&& b->diff == tool_diff(m)
            },
{
    reveal_strlit("toolResult");
    reveal_strlit("user");
    reveal_strlit("assistant");
    assert("toolResult"@ != "user"@) by {
        assert("toolResult"@.len() != "user"@.len());
    }
    assert("toolResult"@ != "assistant"@) by {
        assert("toolResult"@[0] != "assistant"@[0]);
    }
    lemma_tool_index_found(out[mi].blocks, id, 0, bi);
    lemma_message_with_tool_found(out, id, out.len() - 1, mi);
    let r = result_block(m);
    assert(r->tool_call_id == id);
    let i = message_with_tool(out, id, out.len() - 1);
    let bs = out[i].blocks;
    let j = tool_index(bs, id, 0);
    lemma_tool_index_hit(bs, id, 0);
    let res = merged(out, m);
    assert(hydrate_step(out, m) == res);
    assert(res[i].blocks[j] == completed_with(bs[j], r));
}

// ---------------------------------------------------------------------------
// The whole transcript
// ---------------------------------------------------------------------------

/// The messages after reading message `m` of the reply: a user message is added; an
/// assistant message is added when it has blocks; a tool result completes its call; a
/// message without a string `role`, or with another role, is skipped.
pub open spec fn hydrate_step(out: Seq<MessageV>, m: JsonValue) -> Seq<MessageV> {
    match str_of(get(m, "role"@)) {
        None => out,
        Some(role) => if role == "user"@ {
            out.push(
                MessageV {
                    role: MsgRole::User,
                    text: user_content(m).0,
                    attachments: user_content(m).1,
                    blocks: Seq::empty(),
                    streaming: false,
                },
            )
        } else if role == "assistant"@ {
            if assistant_content(m).len() == 0 {
                out
            } else {
                out.push(
                    MessageV {
                        role: MsgRole::Assistant,
                        text: Seq::empty(),
                        attachments: Seq::empty(),
                        blocks: assistant_content(m),
                        streaming: false,
                    },
                )
            }
        } else if role == "toolResult"@ {
            merged(out, m)
        } else {
            out
        },
    }
}

/// The messages read from the reply's messages, in order.
pub open spec fn hydrate_from(msgs: Seq<JsonValue>) -> Seq<MessageV>
    decreases msgs.len(),
{
    if msgs.len() == 0 {
        Seq::empty()
    } else {
        hydrate_step(hydrate_from(msgs.drop_last()), msgs.last())
    }
}

/// The messages of a `get_messages` reply: those read from its `messages` array; none when
/// it has no such array.
pub open spec fn hydrated(data: JsonValue) -> Seq<MessageV> {
    match array_of(get(data, "messages"@)) {
        Some(msgs) => hydrate_from(msgs),
        None => Seq::empty(),
    }
}

/// The chat messages of a `get_messages` reply.
pub fn messages_from_get_messages(data: &JsonValue) -> (res: Vec<ChatMessage>)
    ensures
        messages_v(res@) == hydrated(*data),
{
    let mut out: Vec<ChatMessage> = Vec::new();
    let arr = match json_get(data, "messages") {
        Some(JsonValue::Array(a)) => a,
        _ => {
            assert(messages_v(out@) =~= Seq::empty());
            return out;
        },
    };
    let mut i: usize = 0;
    assert(messages_v(out@) =~= Seq::empty());
    while i < arr.len()
        invariant
            i <= arr@.len(),
            messages_v(out@) == hydrate_from(arr@.take(i as int)),
        decreases arr.len() - i,
    {
        let ghost acc = messages_v(out@);
        proof {
            let t = arr@.take(i + 1);
            assert(t.drop_last() == arr@.take(i as int));
            assert(t.last() == arr@[i as int]);
            assert(hydrate_from(t) == hydrate_step(acc, arr@[i as int]));
        }
        let m = &arr[i];
        match json_str(m, "role") {
            None => {},
            Some(role) => {
                let rc = chars_of(role);
                if chars_eq(&rc, &chars_of("user")) {
                    let (text, attachments) = parse_user_message(m);
                    out.push(
                        ChatMessage {
                            role: MsgRole::User,
                            text,
                            attachments,
                            blocks: Vec::new(),
                            streaming: false,
                        },
                    );
                    assert(blocks_v(out@.last().blocks@) =~= Seq::empty());
                    assert(messages_v(out@) =~= hydrate_step(acc, arr@[i as int]));
                } else if chars_eq(&rc, &chars_of("assistant")) {
                    let blocks = assistant_blocks_from_content(m);
                    if blocks.len() > 0 {
                        out.push(
                            ChatMessage {
                                role: MsgRole::Assistant,
                                text: String::new(),
                                attachments: Vec::new(),
                                blocks,
                                streaming: false,
                            },
                        );
                        assert(attachments_v(out@.last().attachments@) =~= Seq::empty());
                        assert(messages_v(out@) =~= hydrate_step(acc, arr@[i as int]));
                    }
                } else if chars_eq(&rc, &chars_of("toolResult")) {
                    merge_tool_result(&mut out, m);
                }
            },
        }
        assert(messages_v(out@) == hydrate_step(acc, arr@[i as int]));
        i = i + 1;
    }
    assert(arr@.take(arr@.len() as int) == arr@);
    out
}


/// Every assistant message of `out` has at least one block.
pub open spec fn assistants_have_blocks(out: Seq<MessageV>) -> bool {
    forall|i: int|
        0 <= i < out.len() && (#[trigger] out[i]).role == MsgRole::Assistant ==> out[i].blocks.len()
            > 0
}

proof fn lemma_hydrate_from_shape(msgs: Seq<JsonValue>)
    ensures
        assistants_have_blocks(hydrate_from(msgs)),
    decreases msgs.len(),
{
    if msgs.len() > 0 {
        let prev = hydrate_from(msgs.drop_last());
        lemma_hydrate_from_shape(msgs.drop_last());
        let m = msgs.last();
        let next = hydrate_step(prev, m);
        assert(next == hydrate_from(msgs));
        match str_of(get(m, "role"@)) {
            None => {},
            Some(role) => {
                if role == "toolResult"@ {
                    reveal_strlit("user");
                    reveal_strlit("assistant");
                    reveal_strlit("toolResult");
                    assert("toolResult"@.len() == 10);
                    assert("user"@.len() == 4);
                    assert(role != "user"@);
                    assert(role != "assistant"@);
                    assert(next == merged(prev, m));
                    let r = result_block(m);
                    let id = r->tool_call_id;
                    let i = if id.len() == 0 {
                        -1
                    } else {
                        message_with_tool(prev, id, prev.len() - 1)
                    };
                    if i >= 0 {
                        lemma_message_with_tool_bounds(prev, id, prev.len() - 1);
                        assert forall|k: int|
                            0 <= k < next.len() && (#[trigger] next[k]).role
                                == MsgRole::Assistant implies next[k].blocks.len() > 0 by {
                            if k != i {
                                assert(next[k] == prev[k]);
                            } else {
                                lemma_tool_index_bounds(prev[k].blocks, id, 0);
                                assert(next[k].blocks.len() == prev[k].blocks.len());
                            }
                        }
                    } else {
                        assert forall|k: int|
                            0 <= k < next.len() && (#[trigger] next[k]).role
                                == MsgRole::Assistant implies next[k].blocks.len() > 0 by {
                            if k < prev.len() {
                                assert(next[k] == prev[k]);
                            }
                        }
                    }
                } else {
                    assert forall|k: int|
                        0 <= k < next.len() && (#[trigger] next[k]).role == MsgRole::Assistant implies next[k].blocks.len()
                        > 0 by {
                        if k < prev.len() {
                            assert(next[k] == prev[k]);
                        }
                    }
                }
            },
        }
    }
}

/// Reading a reply never yields an assistant message without blocks: an assistant message
/// with nothing to show is dropped, and a tool result always brings its tool block.
pub proof fn law_hydrated_assistants_have_blocks(data: JsonValue)
    ensures
        assistants_have_blocks(hydrated(data)),
{
    match array_of(get(data, "messages"@)) {
        Some(msgs) => lemma_hydrate_from_shape(msgs),
        None => {},
    }
}

} // verus!
