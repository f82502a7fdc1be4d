//! The shell command named by a tool's JSON arguments.

use vstd::prelude::*;

use crate::hydrate::{get, json_get, json_parse, json_parsed, str_of, JsonValue};

verus! {

/// The command a tool's JSON arguments name: the string member `command` of an object, or
/// else the value itself when it is a string.
pub open spec fn command_of(v: JsonValue) -> Option<Seq<char>> {
    match str_of(get(v, "command"@)) {
        Some(c) => Some(c),
        None => match v {
            JsonValue::Str(s) => Some(s@),
            _ => None,
        },
    }
}

/// The command named by the argument text `raw`: none when it is not JSON.
pub open spec fn raw_command(raw: Seq<char>) -> Option<Seq<char>> {
    match json_parsed(raw) {
        Some(v) => command_of(v),
        None => None,
    }
}

/// The command a tool's JSON arguments name.
pub fn command_in(v: &JsonValue) -> (res: Option<String>)
    ensures
        crate::streaming::opt_view(res) == command_of(*v),
{
    proof {
        reveal_strlit("command");
    }
    match json_get(v, "command") {
        Some(JsonValue::Str(c)) => return Some(c.clone()),
        _ => {},
    }
    match v {
        JsonValue::Str(s) => Some(s.clone()),
        _ => None,
    }
}

/// The command named by the argument text `raw` of a tool call.
pub fn command_of_json(raw: &str) -> (res: Option<String>)
    ensures
        crate::streaming::opt_view(res) == raw_command(raw@),
{
    match json_parse(raw) {
        Some(v) => command_in(&v),
        None => None,
    }
}

} // verus!
