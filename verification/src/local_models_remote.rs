//! Remote SSH helpers for oxi-managed HuggingFace GGUF runtimes: shell quoting, runtime
//! selection, and reading back what the remote host reports.

use std::path::Path;

use vstd::prelude::*;

use crate::compute::{password_with_fallback, RemoteOutput, SshCredentialStore};
use crate::local_models::{
    lemma_sort_by_id_facts, models_view, sort_by_id, sort_models_by_id, DownloadedModel,
    ModelInfo,
};
use crate::text::{
    chars_eq, chars_of, decimal, decimal_exec, find, find_exec, lines, owned, parse_u64,
    parse_u64_exec, push_chars, push_str, replace_char, replace_char_exec, rfind, rfind_exec,
    slice_chars, split_lines, split_words, starts_with, starts_with_exec, string_of, trim,
    trim_chars, words,
};

verus! {

/// `Path::file_name` of `p`, as text.
pub uninterp spec fn path_file_name(p: Seq<char>) -> Option<Seq<char>>;

/// `Path::parent` of `p`, as text.
pub uninterp spec fn path_parent(p: Seq<char>) -> Option<Seq<char>>;

/// `Path::new(p).file_name()` converted to text. Nothing is stated of how the final
/// component is found; the result is tied to `p` by the name `path_file_name`.
#[verifier::external_body]
pub(crate) fn file_name_of(p: &str) -> (res: Option<String>)
    ensures
        match res {
            Some(n) => path_file_name(p@) == Some(n@),
            None => path_file_name(p@) is None,
        },
{
    Path::new(p).file_name().and_then(|n| n.to_str()).map(str::to_owned)
}

/// `Path::new(p).parent()` converted to text. Nothing is stated of how the parent is found;
/// the result is tied to `p` by the name `path_parent`.
#[verifier::external_body]
fn parent_of(p: &str) -> (res: Option<String>)
    ensures
        match res {
            Some(n) => path_parent(p@) == Some(n@),
            None => path_parent(p@) is None,
        },
{
    Path::new(p).parent().and_then(|d| d.to_str()).map(str::to_owned)
}

/// `s` in single quotes for a POSIX shell, each `'` written as `'\''`.
pub open spec fn shell_quoted(s: Seq<char>) -> Seq<char> {
    seq!['\''] + replace_char(s, '\'', "'\\''"@) + seq!['\'']
}

/// Quotes `s` as one POSIX shell word.
pub fn sh_quote(s: &str) -> (res: String)
    ensures
        res@ == shell_quoted(s@),
{
    let body = replace_char_exec(&chars_of(s), '\'', &chars_of("'\\''"));
    let mut out = String::new();
    crate::text::push_char(&mut out, '\'');
    push_chars(&mut out, &body);
    crate::text::push_char(&mut out, '\'');
    out
}

/// The llama.cpp release archive for a remote host, by `uname -s` (lower-cased) and
/// `uname -m`, or the reason there is none.
pub open spec fn remote_runtime_url(os: Seq<char>, arch: Seq<char>) -> Result<Seq<char>, Seq<char>> {
    if os == "darwin"@ && (arch == "arm64"@ || arch == "aarch64"@) {
        Ok("https://github.com/ggml-org/llama.cpp/releases/download/b9910/llama-b9910-bin-macos-arm64.tar.gz"@)
    } else if os == "darwin"@ && arch == "x86_64"@ {
        Ok("https://github.com/ggml-org/llama.cpp/releases/download/b9910/llama-b9910-bin-macos-x64.tar.gz"@)
    } else if os == "linux"@ && (arch == "x86_64"@ || arch == "amd64"@) {
        Ok("https://github.com/ggml-org/llama.cpp/releases/download/b9910/llama-b9910-bin-ubuntu-x64.tar.gz"@)
    } else if os == "linux"@ && (arch == "aarch64"@ || arch == "arm64"@) {
        Ok("https://github.com/ggml-org/llama.cpp/releases/download/b9910/llama-b9910-bin-ubuntu-arm64.tar.gz"@)
    } else {
        Err("No llama.cpp runtime mapping for remote "@ + os + "/"@ + arch)
    }
}

fn str_eq(a: &str, b: &str) -> (res: bool)
    ensures
        res == (a@ == b@),
{
    chars_eq(&chars_of(a), &chars_of(b))
}

/// The llama.cpp release archive for a remote host.
pub fn runtime_url_for(os: &str, arch: &str) -> (res: Result<&'static str, String>)
    ensures
        match res {
            Ok(u) => remote_runtime_url(os@, arch@) == Ok::<Seq<char>, Seq<char>>(u@),
            Err(e) => remote_runtime_url(os@, arch@) == Err::<Seq<char>, Seq<char>>(e@),
        },
{
    if str_eq(os, "darwin") && (str_eq(arch, "arm64") || str_eq(arch, "aarch64")) {
        Ok("https://github.com/ggml-org/llama.cpp/releases/download/b9910/llama-b9910-bin-macos-arm64.tar.gz")
    } else if str_eq(os, "darwin") && str_eq(arch, "x86_64") {
        Ok("https://github.com/ggml-org/llama.cpp/releases/download/b9910/llama-b9910-bin-macos-x64.tar.gz")
    } else if str_eq(os, "linux") && (str_eq(arch, "x86_64") || str_eq(arch, "amd64")) {
        Ok("https://github.com/ggml-org/llama.cpp/releases/download/b9910/llama-b9910-bin-ubuntu-x64.tar.gz")
    } else if str_eq(os, "linux") && (str_eq(arch, "aarch64") || str_eq(arch, "arm64")) {
        Ok("https://github.com/ggml-org/llama.cpp/releases/download/b9910/llama-b9910-bin-ubuntu-arm64.tar.gz")
    } else {
        let mut m = owned("No llama.cpp runtime mapping for remote ");
        push_str(&mut m, os);
        push_str(&mut m, "/");
        push_str(&mut m, arch);
        Err(m)
    }
}

/// The operating system and architecture words of the remote probe output
/// (`uname -s` lower-cased, then `uname -m`); empty when missing.
pub open spec fn probe_platform(probe: Seq<char>) -> (Seq<char>, Seq<char>) {
    let ws = words(probe);
    (
        if ws.len() > 0 {
            ws[0]
        } else {
            Seq::empty()
        },
        if ws.len() > 1 {
            ws[1]
        } else {
            Seq::empty()
        },
    )
}

/// Reads the platform probe output of a remote host.
pub fn parse_platform_probe(probe: &str) -> (res: (String, String))
    ensures
        (res.0@, res.1@) == probe_platform(probe@),
{
    let ws = split_words(&chars_of(probe));
    let os = if ws.len() > 0 {
        string_of(&ws[0])
    } else {
        String::new()
    };
    let arch = if ws.len() > 1 {
        string_of(&ws[1])
    } else {
        String::new()
    };
    (os, arch)
}

/// The error text of a remote command that exited with a non-zero status.
pub open spec fn failure_detail(status: u32, stdout: Seq<char>, stderr: Seq<char>) -> Seq<char> {
    let out = trim(stdout);
    let err = trim(stderr);
    "remote command failed with exit status "@ + decimal(status as nat) + (if err.len() > 0 {
        "\nstderr:\n"@ + err
    } else {
        Seq::empty()
    }) + (if out.len() > 0 {
        "\nstdout:\n"@ + out
    } else {
        Seq::empty()
    }) + (if out.len() == 0 && err.len() == 0 {
        "\nThe SSH host returned no diagnostic output. Check that llama-server is still running and retry."@
    } else {
        Seq::empty()
    })
}

/// The result of a remote command: its stdout when it exited with status 0, otherwise an
/// error describing the status and any output.
pub open spec fn command_result(out: RemoteOutput) -> Result<Seq<char>, Seq<char>> {
    if out.status == 0 {
        Ok(out.stdout@)
    } else {
        Err(failure_detail(out.status, out.stdout@, out.stderr@))
    }
}

/// Turns a remote command's output into its stdout or an error message.
pub fn remote_command_result(out: RemoteOutput) -> (res: Result<String, String>)
    ensures
        match res {
            Ok(s) => command_result(out) == Ok::<Seq<char>, Seq<char>>(s@),
            Err(e) => command_result(out) == Err::<Seq<char>, Seq<char>>(e@),
        },
{
    if out.status == 0 {
        return Ok(out.stdout);
    }
    let stdout = trim_chars(&chars_of(out.stdout.as_str()));
    let stderr = trim_chars(&chars_of(out.stderr.as_str()));
    let mut detail = owned("remote command failed with exit status ");
    push_chars(&mut detail, &decimal_exec(out.status as u64));
    let ghost d0 = detail@;
    if stderr.len() > 0 {
        push_str(&mut detail, "\nstderr:\n");
        push_chars(&mut detail, &stderr);
    }
    let ghost d1 = detail@;
    if stdout.len() > 0 {
        push_str(&mut detail, "\nstdout:\n");
        push_chars(&mut detail, &stdout);
    }
    let ghost d2 = detail@;
    if stdout.len() == 0 && stderr.len() == 0 {
        push_str(
            &mut detail,
            "\nThe SSH host returned no diagnostic output. Check that llama-server is still running and retry.",
        );
    }
    proof {
        let e = if stderr@.len() > 0 {
            "\nstderr:\n"@ + stderr@
        } else {
            Seq::empty()
        };
        let o = if stdout@.len() > 0 {
            "\nstdout:\n"@ + stdout@
        } else {
            Seq::empty()
        };
        assert(d1 == d0 + e);
        assert(d2 == d0 + e + o);
    }
    Err(detail)
}

/// `s` without one pair of surrounding single quotes, when it has them.
pub open spec fn unquoted(s: Seq<char>) -> Seq<char> {
    if s.len() >= 2 && s[0] == '\'' && s.last() == '\'' {
        s.subrange(1, s.len() - 1)
    } else {
        s
    }
}

/// `s` with its first occurrence of `pat` replaced by `rep`.
pub open spec fn replace_first(s: Seq<char>, pat: Seq<char>, rep: Seq<char>) -> Seq<char> {
    let i = find(s, pat);
    if i < 0 {
        s
    } else {
        s.take(i) + rep + s.skip(i + pat.len())
    }
}

/// The model a file path on the SSH host stands for: the file name and the repository
/// recovered from its directory name (`org__model` back to `org/model`), each without
/// surrounding quotes; `None` when the path has no file name.
pub open spec fn remote_model(path: Seq<char>, bytes: u64) -> Option<ModelInfo> {
    match path_file_name(path) {
        None => None,
        Some(raw_filename) => {
            let raw_repo = match path_parent(path) {
                Some(d) => match path_file_name(d) {
                    Some(n) => n,
                    None => Seq::empty(),
                },
                None => Seq::empty(),
            };
            let filename = unquoted(raw_filename);
            let repo = replace_first(unquoted(raw_repo), "__"@, "/"@);
            Some(ModelInfo { id: repo + "/"@ + filename, repo, filename, path, bytes })
        },
    }
}

fn unquoted_exec(s: &[char]) -> (res: Vec<char>)
    ensures
        res@ == unquoted(s@),
{
    if s.len() >= 2 && s[0] == '\'' && s[s.len() - 1] == '\'' {
        slice_chars(s, 1, s.len() - 1)
    } else {
        slice_chars(s, 0, s.len())
    }
}

/// Reconstructs the model record of a GGUF file path on the SSH host.
pub fn model_from_remote_path(path: &str, bytes: u64) -> (res: Option<DownloadedModel>)
    ensures
        match res {
            Some(m) => remote_model(path@, bytes) == Some(m@),
            None => remote_model(path@, bytes) is None,
        },
{
    let raw_filename = file_name_of(path)?;
    let raw_safe_repo = match parent_of(path) {
        Some(d) => match file_name_of(d.as_str()) {
            Some(n) => n,
            None => String::new(),
        },
        None => String::new(),
    };
    let filename = unquoted_exec(&chars_of(raw_filename.as_str()));
    let safe_repo = unquoted_exec(&chars_of(raw_safe_repo.as_str()));
    proof {
        reveal_strlit("__");
    }
    let sep = chars_of("__");
    assert(sep@.len() == 2);
    let repo_chars = match find_exec(safe_repo.as_slice(), sep.as_slice()) {
        Some(i) => {
            let len = safe_repo.len();
            let mut r = slice_chars(&safe_repo, 0, i);
            r.push('/');
            let tail = slice_chars(&safe_repo, i + 2, len);
            let mut k: usize = 0;
            let ghost r0 = r@;
            while k < tail.len()
                invariant
                    k <= tail.len(),
                    r@ == r0 + tail@.take(k as int),
                decreases tail.len() - k,
            {
                r.push(tail[k]);
                assert(tail@.take(k as int).push(tail@[k as int]) == tail@.take(k + 1));
                k = k + 1;
            }
            proof {
                reveal_strlit("/");
                assert(tail@.take(tail@.len() as int) == tail@);
                assert(r@ == safe_repo@.take(i as int) + "/"@ + safe_repo@.skip(i + 2));
            }
            r
        },
        None => safe_repo,
    };
    let repo = string_of(&repo_chars);
    let mut id = string_of(&repo_chars);
    push_str(&mut id, "/");
    push_chars(&mut id, &filename);
    Some(
        DownloadedModel {
            id,
            repo,
            filename: string_of(&filename),
            path: owned(path),
            bytes,
        },
    )
}

/// The word after the first `-m` or `--model` flag, when the flag has one.
pub open spec fn model_arg(ws: Seq<Seq<char>>) -> Option<Seq<char>>
    decreases ws.len(),
{
    if ws.len() == 0 {
        None
    } else if ws[0] == "-m"@ || ws[0] == "--model"@ {
        if ws.len() >= 2 {
            Some(ws[1])
        } else {
            None
        }
    } else {
        model_arg(ws.drop_first())
    }
}

/// Extracts the `-m <path>` argument from a llama-server command line.
pub fn model_arg_from_args(args: &str) -> (res: Option<String>)
    ensures
        match res {
            Some(s) => model_arg(words(args@)) == Some(s@),
            None => model_arg(words(args@)) is None,
        },
{
    let ws = split_words(&chars_of(args));
    let ghost wv = words(args@);
    let short = chars_of("-m");
    let long = chars_of("--model");
    let mut i: usize = 0;
    assert(wv.skip(0) == wv);
    while i < ws.len()
        invariant
            i <= ws.len(),
            wv == words(args@),
            ws@.len() == wv.len(),
            forall|j: int| 0 <= j < ws@.len() ==> (#[trigger] ws@[j])@ == wv[j],
            short@ == "-m"@,
            long@ == "--model"@,
            model_arg(wv) == model_arg(wv.skip(i as int)),
        decreases ws.len() - i,
    {
        proof {
            assert(wv.skip(i as int)[0] == wv[i as int]);
            assert(wv.skip(i as int).drop_first() == wv.skip(i + 1));
        }
        let is_flag = chars_eq(&ws[i], &short) || chars_eq(&ws[i], &long);
        assert(ws@[i as int]@ == wv[i as int]);
        if is_flag {
            assert(wv.skip(i as int)[0] == "-m"@ || wv.skip(i as int)[0] == "--model"@);
            if i + 1 < ws.len() {
                assert(wv.skip(i as int)[1] == wv[i + 1]);
                assert(ws@[i + 1]@ == wv[i + 1]);
                return Some(string_of(&ws[i + 1]));
            }
            assert(wv.skip(i as int).len() == 1);
            return None;
        }
        i = i + 1;
    }
    assert(wv.skip(i as int).len() == 0);
    None
}

/// The password of the Remote HF provider: stored under its own slug, or under the Local HF
/// slug that older builds used.
pub fn password_for_remotehf(
    creds: &SshCredentialStore,
    remote_hf_slug: &str,
    local_hf_slug: &str,
) -> (res: String)
    ensures
        res@ == password_with_fallback(creds@, remote_hf_slug@, local_hf_slug@),
{
    match creds.get(remote_hf_slug) {
        Some(p) => owned(p),
        None => match creds.get(local_hf_slug) {
            Some(p) => owned(p),
            None => String::new(),
        },
    }
}

/// The path and size a remote download reports: the first output line and the second
/// parsed as a byte count (0 when missing or not a number).
pub open spec fn download_report(out: Seq<char>) -> (Seq<char>, u64) {
    let ls = lines(out);
    (
        if ls.len() > 0 {
            ls[0]
        } else {
            Seq::empty()
        },
        if ls.len() > 1 {
            match parse_u64(ls[1]) {
                Some(n) => n,
                None => 0,
            }
        } else {
            0
        },
    )
}

/// Reads the output of the remote download command.
pub fn parse_download_report(out: &str) -> (res: (String, u64))
    ensures
        (res.0@, res.1) == download_report(out@),
{
    let ls = split_lines(&chars_of(out));
    proof {
        assert(ls@.len() == lines(out@).len());
        if ls@.len() > 0 {
            assert(ls@[0]@ == lines(out@)[0]);
        }
        if ls@.len() > 1 {
            assert(ls@[1]@ == lines(out@)[1]);
        }
    }
    let path = if ls.len() > 0 {
        string_of(&ls[0])
    } else {
        String::new()
    };
    let bytes = if ls.len() > 1 {
        match parse_u64_exec(&ls[1]) {
            Some(n) => n,
            None => 0,
        }
    } else {
        0
    };
    (path, bytes)
}

/// GGUF files on the SSH host, plus what is running there.
#[derive(Debug)]
pub struct RemoteModelList {
    pub models: Vec<DownloadedModel>,
    /// The `-m <path>` of the llama-server running on the host. A non-empty path always has
    /// a row in `models`. Empty string = a server is running but its model is unknown.
    pub running_path: Option<String>,
}

/// What the listing lines `ls` report: the models of the `model\t<path>\t<bytes>` lines in
/// order, and the model argument of the last `running\t<args>` line (empty when it names
/// none).
pub open spec fn listing_scan(ls: Seq<Seq<char>>) -> (Seq<ModelInfo>, Option<Seq<char>>)
    decreases ls.len(),
{
    if ls.len() == 0 {
        (Seq::empty(), None)
    } else {
        let (ms, running) = listing_scan(ls.drop_last());
        let line = ls.last();
        if starts_with(line, "model\t"@) {
            let rest = line.skip(6);
            let t = rfind(rest, "\t"@);
            if t < 0 {
                (ms, running)
            } else {
                let bytes = match parse_u64(trim(rest.skip(t + 1))) {
                    Some(n) => n,
                    None => 0,
                };
                match remote_model(rest.take(t), bytes) {
                    Some(m) => (ms.push(m), running),
                    None => (ms, running),
                }
            }
        } else if starts_with(line, "running\t"@) {
            (
                ms,
                Some(
                    match model_arg(words(line.skip(8))) {
                        Some(a) => a,
                        None => Seq::empty(),
                    },
                ),
            )
        } else {
            (ms, running)
        }
    }
}

/// Some model in `ms` has path `p`.
pub open spec fn has_path(ms: Seq<ModelInfo>, p: Seq<char>) -> bool {
    exists|i: int| 0 <= i < ms.len() && #[trigger] ms[i].path == p
}

/// `ms` without an element whose path equals that of the element kept just before it.
pub open spec fn dedup_by_path(ms: Seq<ModelInfo>) -> Seq<ModelInfo>
    decreases ms.len(),
{
    if ms.len() <= 1 {
        ms
    } else {
        let d = dedup_by_path(ms.drop_last());
        if d.len() > 0 && d.last().path == ms.last().path {
            d
        } else {
            d.push(ms.last())
        }
    }
}

/// The row shown for a running model that no listed file stands for: the model its path
/// names, or, when the path has no file name, a row whose id and file name are the path.
pub open spec fn running_row(p: Seq<char>) -> ModelInfo {
    match remote_model(p, 0) {
        Some(m) => m,
        None => ModelInfo { id: p, repo: Seq::empty(), filename: p, path: p, bytes: 0 },
    }
}

/// The models listed by the remote host, with a row added for a running model outside the
/// models folder, sorted by id with consecutive duplicates of a path removed; and the
/// running model's path.
pub open spec fn remote_listing(out: Seq<char>) -> (Seq<ModelInfo>, Option<Seq<char>>) {
    let (ms, running) = listing_scan(lines(out));
    let ms2 = match running {
        Some(p) => if p.len() > 0 && !has_path(ms, p) {
            ms.push(running_row(p))
        } else {
            ms
        },
        None => ms,
    };
    (dedup_by_path(sort_by_id(ms2)), running)
}

proof fn lemma_remote_model_path(p: Seq<char>, bytes: u64)
    ensures
        remote_model(p, bytes) matches Some(m) ==> m.path == p,
{
}

/// Removing consecutive duplicates of a path keeps at least one row of every path.
proof fn lemma_dedup_keeps_path(ms: Seq<ModelInfo>, p: Seq<char>)
    requires
        has_path(ms, p),
    ensures
        has_path(dedup_by_path(ms), p),
    decreases ms.len(),
{
    if ms.len() > 1 {
        let t = ms.drop_last();
        let d = dedup_by_path(t);
        let i = choose|i: int| 0 <= i < ms.len() && #[trigger] ms[i].path == p;
        if i < ms.len() - 1 {
            assert(t[i].path == p);
            lemma_dedup_keeps_path(t, p);
            let j = choose|j: int| 0 <= j < d.len() && #[trigger] d[j].path == p;
            if !(d.len() > 0 && d.last().path == ms.last().path) {
                assert(d.push(ms.last())[j] == d[j]);
            }
        } else {
            if d.len() > 0 && d.last().path == ms.last().path {
                assert(d[d.len() - 1].path == p);
            } else {
                assert(d.push(ms.last())[d.len() as int] == ms.last());
            }
        }
    }
}

/// A running model with a non-empty path always has a row in the listing.
pub proof fn lemma_listing_has_running_row(out: Seq<char>)
    ensures
        remote_listing(out).1 matches Some(p) ==> (p.len() > 0 ==> has_path(remote_listing(out).0, p)),
{
    let (ms, running) = listing_scan(lines(out));
    if let Some(p) = running {
        if p.len() > 0 {
            let ms2 = if !has_path(ms, p) {
                ms.push(running_row(p))
            } else {
                ms
            };
            if !has_path(ms, p) {
                lemma_remote_model_path(p, 0);
                assert(ms2[ms.len() as int].path == p);
            }
            assert(has_path(ms2, p));
            let i = choose|i: int| 0 <= i < ms2.len() && #[trigger] ms2[i].path == p;
            assert(ms2.contains(ms2[i]));
            lemma_sort_by_id_facts(ms2);
            let sorted = sort_by_id(ms2);
            assert(sorted.contains(ms2[i]));
            let k = choose|k: int| 0 <= k < sorted.len() && sorted[k] == ms2[i];
            assert(sorted[k].path == p);
            lemma_dedup_keeps_path(sorted, p);
        }
    }
}

fn has_path_exec(ms: &Vec<DownloadedModel>, p: &[char]) -> (res: bool)
    ensures
        res == has_path(models_view(ms@), p@),
{
    let mut i: usize = 0;
    while i < ms.len()
        invariant
            i <= ms.len(),
            forall|j: int| 0 <= j < i ==> (#[trigger] models_view(ms@)[j]).path != p@,
        decreases ms.len() - i,
    {
        if chars_eq(&chars_of(ms[i].path.as_str()), p) {
            assert(models_view(ms@)[i as int].path == p@);
            return true;
        }
        i = i + 1;
    }
    false
}

fn dedup_models_by_path(ms: Vec<DownloadedModel>) -> (res: Vec<DownloadedModel>)
    ensures
        models_view(res@) == dedup_by_path(models_view(ms@)),
{
    let ghost s0 = models_view(ms@);
    let mut out: Vec<DownloadedModel> = Vec::new();
    let mut items = ms;
    // reverse so that popping yields the models front to back
    let mut rev: Vec<DownloadedModel> = Vec::new();
    while items.len() > 0
        invariant
            models_view(items@) == s0.take(items@.len() as int),
            items@.len() <= s0.len(),
            rev@.len() == s0.len() - items@.len(),
            forall|j: int| 0 <= j < rev@.len() ==> (#[trigger] rev@[j])@ == s0[s0.len() - 1 - j],
        decreases items.len(),
    {
        let ghost r0 = items@;
        let x = items.pop().unwrap();
        proof {
            assert(models_view(r0.drop_last()) =~= s0.take(items@.len() as int));
            assert(x@ == models_view(r0)[r0.len() - 1]);
        }
        rev.push(x);
    }
    let mut k = rev.len();
    while k > 0
        invariant
            k == rev@.len(),
            k <= s0.len(),
            forall|j: int| 0 <= j < k ==> (#[trigger] rev@[j])@ == s0[s0.len() - 1 - j],
            models_view(out@) == dedup_by_path(s0.take(s0.len() - k)),
        decreases k,
    {
        let ghost before = rev@;
        let ghost o0 = models_view(out@);
        let x = rev.pop().unwrap();
        proof {
            assert(x == before[k - 1]);
            assert forall|j: int| 0 <= j < k - 1 implies (#[trigger] rev@[j])@ == s0[s0.len() - 1
                - j] by {
                assert(rev@[j] == before[j]);
            }
            let t = s0.take(s0.len() - k + 1);
            assert(t.drop_last() == s0.take(s0.len() - k));
            assert(t.last() == x@);
        }
        let n = out.len();
        let dup = n > 0 && chars_eq(
            &chars_of(out[n - 1].path.as_str()),
            &chars_of(x.path.as_str()),
        );
        if !dup {
            out.push(x);
            assert(models_view(out@) =~= o0.push(x@));
        } else {
            assert(o0.last() == models_view(out@)[n - 1]);
        }
        k = k - 1;
    }
    assert(s0.take(s0.len() as int) == s0);
    out
}

/// Reads the listing the remote host prints: its GGUF models and the running model.
pub fn parse_remote_listing(out: &str) -> (res: RemoteModelList)
    ensures
        ({
            let (ms, running) = remote_listing(out@);
            &&& models_view(res.models@) == ms
            &&& match res.running_path {
                Some(p) => running == Some(p@),
                None => running is None,
            }
        }),
        res.running_path matches Some(p) ==> (p@.len() > 0 ==> exists|i: int|
            0 <= i < res.models@.len() && (#[trigger] res.models@[i])@.path == p@),
{
    let ls = split_lines(&chars_of(out));
    let ghost lv = lines(out@);
    let mut models: Vec<DownloadedModel> = Vec::new();
    let mut running_path: Option<String> = None;
    let model_tag = chars_of("model\t");
    let running_tag = chars_of("running\t");
    let tab = chars_of("\t");
    proof {
        reveal_strlit("model\t");
        reveal_strlit("running\t");
        reveal_strlit("\t");
    }
    let mut i: usize = 0;
    while i < ls.len()
        invariant
            i <= ls.len(),
            ls@.map_values(|l: Vec<char>| l@) == lv,
            model_tag@ == "model\t"@,
            running_tag@ == "running\t"@,
            tab@ == "\t"@,
            model_tag@.len() == 6,
            running_tag@.len() == 8,
            tab@.len() == 1,
            ({
                let (ms, running) = listing_scan(lv.take(i as int));
                &&& models_view(models@) == ms
                &&& match running_path {
                    Some(p) => running == Some(p@),
                    None => running is None,
                }
            }),
        decreases ls.len() - i,
    {
        let line = &ls[i];
        proof {
            let t = lv.take(i + 1);
            assert(t.drop_last() == lv.take(i as int));
            assert(t.last() == line@);
        }
        let ghost m0 = models_view(models@);
        if starts_with_exec(line, &model_tag) {
            let len = line.len();
            let rest = slice_chars(line, 6, len);
            assert(rest@ == line@.skip(6));
            match rfind_exec(rest.as_slice(), tab.as_slice()) {
                Some(t) => {
                    let rlen = rest.len();
                    let path = slice_chars(&rest, 0, t);
                    let count = trim_chars(&slice_chars(&rest, t + 1, rlen));
                    assert(path@ == rest@.take(t as int));
                    let bytes = match parse_u64_exec(&count) {
                        Some(n) => n,
                        None => 0,
                    };
                    let ps = string_of(&path);
                    if let Some(m) = model_from_remote_path(ps.as_str(), bytes) {
                        models.push(m);
                        assert(models_view(models@) =~= m0.push(m@));
                    }
                },
                None => {},
            }
        } else if starts_with_exec(line, &running_tag) {
            let len = line.len();
            let args = string_of(&slice_chars(line, 8, len));
            assert(args@ == line@.skip(8));
            running_path = Some(
                match model_arg_from_args(args.as_str()) {
                    Some(a) => a,
                    None => String::new(),
                },
            );
        }
        i = i + 1;
    }
    proof {
        assert(lv.take(lv.len() as int) == lv);
    }
    let ghost ms = models_view(models@);
    if let Some(p) = &running_path {
        let pc = chars_of(p.as_str());
        if pc.len() > 0 && !has_path_exec(&models, &pc) {
            let m = match model_from_remote_path(p.as_str(), 0) {
                Some(m) => m,
                None => DownloadedModel {
                    id: owned(p.as_str()),
                    repo: String::new(),
                    filename: owned(p.as_str()),
                    path: owned(p.as_str()),
                    bytes: 0,
                },
            };
            assert(m@ == running_row(p@));
            models.push(m);
            assert(models_view(models@) =~= ms.push(running_row(p@)));
        }
    }
    let sorted = sort_models_by_id(models);
    let res = RemoteModelList { models: dedup_models_by_path(sorted), running_path };
    proof {
        lemma_listing_has_running_row(out@);
        if res.running_path is Some {
            let p = res.running_path->0;
            if p@.len() > 0 {
                let mv = models_view(res.models@);
                let i = choose|i: int| 0 <= i < mv.len() && #[trigger] mv[i].path == p@;
                assert(res.models@[i]@ == mv[i]);
            }
        }
    }
    res
}

} // verus!
