//! How the settings fields that take numbers read what the user typed.

use vstd::prelude::*;

use crate::text::{chars_of, is_blank, is_blank_exec, parse_u64, parse_u64_exec, trim, trim_chars};

verus! {

/// `str::parse::<u32>`: an optional `+` and decimal digits whose value fits in a `u32`.
pub open spec fn parse_u32(s: Seq<char>) -> Option<u32> {
    match parse_u64(s) {
        Some(n) => if n <= u32::MAX {
            Some(n as u32)
        } else {
            None
        },
        None => None,
    }
}

/// `str::parse::<u16>`: an optional `+` and decimal digits whose value fits in a `u16`.
pub open spec fn parse_u16(s: Seq<char>) -> Option<u16> {
    match parse_u64(s) {
        Some(n) => if n <= u16::MAX {
            Some(n as u16)
        } else {
            None
        },
        None => None,
    }
}

/// The cap on tool rounds after editing its field: a blank field means 0 (no cap), a number
/// replaces the cap, anything else leaves it as it was.
pub open spec fn max_tool_rounds_after(text: Seq<char>, current: u32) -> u32 {
    if is_blank(text) {
        0
    } else {
        match parse_u32(trim(text)) {
            Some(n) => n,
            None => current,
        }
    }
}

/// The bash timeout cap after editing its field: a number of at least 1, clamped to
/// 5..=3600 seconds; anything else leaves it as it was.
pub open spec fn bash_timeout_cap_after(text: Seq<char>, current: u32) -> u32 {
    match parse_u32(trim(text)) {
        Some(n) => if n < 1 {
            current
        } else if n < 5 {
            5
        } else if n > 3600 {
            3600
        } else {
            n
        },
        None => current,
    }
}

/// A port after editing its field: the trimmed text as a number that fits in 16 bits;
/// anything else leaves it as it was.
pub open spec fn port_after(text: Seq<char>, current: u16) -> u16 {
    match parse_u16(trim(text)) {
        Some(p) => p,
        None => current,
    }
}

fn parse_u32_exec(s: &[char]) -> (res: Option<u32>)
    ensures
        res == parse_u32(s@),
{
    match parse_u64_exec(s) {
        Some(n) => if n <= u32::MAX as u64 {
            Some(n as u32)
        } else {
            None
        },
        None => None,
    }
}

/// Reads the "max tool calls per run" field.
pub fn max_tool_rounds_input(text: &str, current: u32) -> (res: u32)
    ensures
        res == max_tool_rounds_after(text@, current),
{
    let cs = chars_of(text);
    if is_blank_exec(&cs) {
        return 0;
    }
    match parse_u32_exec(&trim_chars(&cs)) {
        Some(n) => n,
        None => current,
    }
}

/// Reads the "bash timeout cap" field.
pub fn bash_timeout_cap_input(text: &str, current: u32) -> (res: u32)
    ensures
        res == bash_timeout_cap_after(text@, current),
{
    match parse_u32_exec(&trim_chars(&chars_of(text))) {
        Some(n) => if n < 1 {
            current
        } else if n < 5 {
            5
        } else if n > 3600 {
            3600
        } else {
            n
        },
        None => current,
    }
}

/// Reads an SSH or remote runtime port field.
pub fn port_input(text: &str, current: u16) -> (res: u16)
    ensures
        res == port_after(text@, current),
{
    match parse_u64_exec(&trim_chars(&chars_of(text))) {
        Some(n) => if n <= u16::MAX as u64 {
            n as u16
        } else {
            current
        },
        None => current,
    }
}

} // verus!
