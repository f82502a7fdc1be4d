//! Pure helpers of the Markdown renderer: embedded images and code block languages.

use vstd::prelude::*;

use crate::hydrate::{base64_std_decode, decode_base64_std};
use crate::text::{
    chars_of, contains_exec, contains_seq, find, find_exec, owned, slice_chars, split_words,
    starts_with, starts_with_exec, string_of, trim, trim_chars, words,
};

verus! {

/// The image bytes of a `data:` URL whose header (before the first comma) mentions
/// `base64`: its payload, trimmed, decoded as standard base64. Any other URL has none.
pub open spec fn data_url_image(uri: Seq<char>) -> Option<Seq<u8>> {
    if !starts_with(uri, "data:"@) {
        None
    } else {
        let rest = uri.skip(5);
        let c = find(rest, ","@);
        if c < 0 {
            None
        } else if !contains_seq(rest.take(c), "base64"@) {
            None
        } else {
            base64_std_decode(trim(rest.skip(c + 1)))
        }
    }
}

/// Decodes an embedded `data:image/...;base64,...` image.
pub fn try_decode_data_url_image(uri: &str) -> (res: Option<Vec<u8>>)
    ensures
        match res {
            Some(b) => data_url_image(uri@) == Some(b@),
            None => data_url_image(uri@) is None,
        },
{
    proof {
        reveal_strlit("data:");
        reveal_strlit(",");
    }
    let u = chars_of(uri);
    if !starts_with_exec(&u, &chars_of("data:")) {
        return None;
    }
    let len = u.len();
    let rest = slice_chars(&u, 5, len);
    assert(rest@ =~= uri@.skip(5));
    let c = match find_exec(rest.as_slice(), chars_of(",").as_slice()) {
        Some(c) => c,
        None => return None,
    };
    let header = slice_chars(&rest, 0, c);
    assert(header@ =~= rest@.take(c as int));
    if !contains_exec(&header, &chars_of("base64")) {
        return None;
    }
    let rlen = rest.len();
    let data = trim_chars(&slice_chars(&rest, c + 1, rlen));
    assert(rest@.subrange(c + 1, rlen as int) =~= rest@.skip(c + 1));
    decode_base64_std(string_of(&data).as_str())
}

/// The language shown on a code block: the first word of a fenced block's info string, or
/// `code` for an indented block or an empty info string.
pub open spec fn code_language(info: Option<Seq<char>>) -> Seq<char> {
    match info {
        Some(i) => if words(i).len() > 0 {
            words(i)[0]
        } else {
            "code"@
        },
        None => "code"@,
    }
}

/// The language of a code block; `info` is a fenced block's info string, `None` for an
/// indented block.
pub fn code_block_language(info: Option<&str>) -> (res: String)
    ensures
        res@ == code_language(
            match info {
                Some(i) => Some(i@),
                None => None,
            },
        ),
{
    match info {
        Some(i) => {
            let ws = split_words(&chars_of(i));
            if ws.len() > 0 {
                string_of(&ws[0])
            } else {
                owned("code")
            }
        },
        None => owned("code"),
    }
}

} // verus!
