//! The shell scripts that install, download, list, start, stop and delete llama.cpp models
//! on an SSH host. Every value that comes from the user or the network enters a script
//! only as a single shell-quoted word.

use vstd::prelude::*;

use crate::local_models::DownloadedModel;
use crate::local_models_remote::{
    download_report, file_name_of, parse_download_report, path_file_name, sh_quote, shell_quoted,
};
use crate::text::{decimal, decimal_exec, owned, push_chars, push_str};

verus! {

// The fixed text of each script, in the order it is laid out, between the values put into
// it.

pub const INSTALL_SCRIPT_A: &'static str = r#"set -eu
base=$HOME/.local/share/oxi/remote-hf
rt="$base/runtime"
mkdir -p "$rt"
find "$rt" -maxdepth 1 -type f ! -name 'llama-server.log' -delete 2>/dev/null || true
archive="$rt/runtime.archive"
if command -v curl >/dev/null 2>&1; then
  curl -L --fail -o "$archive" "#;

pub const INSTALL_SCRIPT_B: &'static str = r#"
elif command -v wget >/dev/null 2>&1; then
  wget -O "$archive" "#;

pub const INSTALL_SCRIPT_C: &'static str = r#"
else
  echo "curl or wget is required on the remote host" >&2
  exit 127
fi
case "$archive" in
  *.zip) unzip -oq "$archive" -d "$rt/extract" ;;
  *) mkdir -p "$rt/extract"; tar -xzf "$archive" -C "$rt/extract" ;;
esac
find "$rt/extract" -type f \( -name 'llama-server' -o -name 'llama-server.exe' -o -name '*.dylib' -o -name '*.so' -o -name '*.so.*' -o -name '*.dll' \) -exec sh -c 'for f do cp "$f" "$0/$(basename "$f")"; done' "$rt" {} +
rm -rf "$rt/extract" "$archive"
chmod +x "$rt/llama-server" 2>/dev/null || true
cd "$rt"
find . -maxdepth 1 -type f -name '*.dylib' -print | while IFS= read -r p; do
  f=${p#./}
  stem=${f%.dylib}
  prefix=${stem%%.*}
  rest=${stem#*.}
  major=${rest%%.*}
  [ "$stem" != "$rest" ] || continue
  case "$major" in ''|*[!0-9]*) continue ;; esac
  short="$prefix.$major.dylib"
  [ "$short" = "$f" ] || ln -sf "$f" "$short"
done
find . -maxdepth 1 -type f -name '*.so.*' -print | while IFS= read -r p; do
  f=${p#./}
  short=$(printf '%s\n' "$f" | sed -E 's/^(.*\.so\.[0-9]+)\..*$/\1/')
  [ "$short" = "$f" ] || ln -sf "$f" "$short"
done
printf '%s/llama-server' "$rt"
"#;

pub const DOWNLOAD_SCRIPT_A: &'static str = r#"set -eu
base=$HOME/.local/share/oxi/remote-hf
# Keep shell-quoted user-controlled components outside double quotes. Putting
# one inside `"$base/..."` made its quote characters part of the filename.
dir="$base/models"/"#;

pub const DOWNLOAD_SCRIPT_B: &'static str = r#"
mkdir -p "$dir"
out="$dir"/"#;

pub const DOWNLOAD_SCRIPT_C: &'static str = r#"
part="$out.download"
if command -v curl >/dev/null 2>&1; then
  curl -L --fail -C - -o "$part" "#;

pub const DOWNLOAD_SCRIPT_D: &'static str = r#"
elif command -v wget >/dev/null 2>&1; then
  wget -c -O "$part" "#;

pub const DOWNLOAD_SCRIPT_E: &'static str = r#"
else
  echo "curl or wget is required on the remote host" >&2
  exit 127
fi
mv "$part" "$out"
bytes=$(wc -c < "$out" | tr -d ' ')
printf '%s\n%s' "$out" "$bytes"
"#;

pub const LIST_SCRIPT_A: &'static str = r#"set -eu
base=$HOME/.local/share/oxi/remote-hf
rt="$base/runtime"
pid_file="$rt/llama-server.pid"
running_args=""
if [ -f "$pid_file" ] && kill -0 "$(cat "$pid_file")" 2>/dev/null; then
  running_args=$(ps -o args= -p "$(cat "$pid_file")" 2>/dev/null || true)
fi
# Recover from a stale/overwritten pid file by inspecting only Oxi's managed binary.
if [ -z "$running_args" ]; then
  running_args=$(ps -axo command= 2>/dev/null | grep -F "$rt/llama-server" | grep -F -- '--port "#;

pub const LIST_SCRIPT_B: &'static str = r#"' | head -n 1 || true)
fi
if [ -n "$running_args" ]; then
  printf 'running\t%s\n' "$running_args"
fi
dir="$base/models"
if [ -d "$dir" ]; then
  # Avoid GNU-only -mindepth: remote hosts may use BSD find (macOS).
  # The final two patterns also discover files written by older Oxi builds which
  # accidentally included literal single quotes around the repo/file components.
  find "$dir" -type f \( -name '*.gguf' -o -name '*.GGUF' -o -name "*.gguf'" -o -name "*.GGUF'" \) | while IFS= read -r f; do
    bytes=$(wc -c < "$f" | tr -d ' ')
    printf 'model\t%s\t%s\n' "$f" "$bytes"
  done
fi
"#;

pub const DELETE_SCRIPT_A: &'static str = r#"set -eu
f="#;

pub const DELETE_SCRIPT_B: &'static str = r#"
rm -f -- "$f"
rmdir -- "$(dirname "$f")" 2>/dev/null || true
"#;

pub const START_SCRIPT_A: &'static str = r#"set -eu
base=$HOME/.local/share/oxi/remote-hf
rt="$base/runtime"
log="$rt/llama-server.log"
pid="$rt/llama-server.pid"
model="#;

pub const START_SCRIPT_B: &'static str = r#"
# `set -e` can otherwise terminate on a host-specific shell/process utility failure
# without producing any output. Always return enough context for the composer notice.
on_exit() {
  oxi_status=$?
  trap - 0
  if [ "$oxi_status" -ne 0 ]; then
    echo "Remote model switch failed (status $oxi_status)." >&2
    if [ -f "$pid" ]; then
      server_pid=$(cat "$pid" 2>/dev/null || true)
      echo "Recorded llama-server pid: ${server_pid:-none}" >&2
      if [ -n "$server_pid" ] && kill -0 "$server_pid" 2>/dev/null; then
        echo "The recorded llama-server process is still running." >&2
      else
        echo "The recorded llama-server process is not running." >&2
      fi
    fi
    if [ -f "$log" ]; then
      echo "Last llama-server log lines ($log):" >&2
      tail -n 120 "$log" >&2 || true
    else
      echo "llama-server log does not exist: $log" >&2
    fi
  fi
  exit "$oxi_status"
}
trap on_exit 0
if [ ! -f "$model" ]; then
  candidate="$base/models"/"#;

pub const START_SCRIPT_C: &'static str = r#"/"#;

pub const START_SCRIPT_D: &'static str = r#"
  if [ -f "$candidate" ]; then
    model="$candidate"
  else
    echo "Model file not found on remote host." >&2
    echo "Tried saved path: $model" >&2
    echo "Tried remote download path: $candidate" >&2
    echo "Download the model while Local HF is set to Remote SSH, then press Play again." >&2
    exit 1
  fi
fi
# The pid file can become stale after a failed replacement. Stop every Oxi-managed
# llama-server on this runtime port, but signal each process only once. llama-server may
# spend several seconds freeing a large model; launching after the old 5-second wait made
# the first switch lose the port race while a second attempt appeared to work.
managed_pids() {
  ps -axo pid=,command= 2>/dev/null | while read -r old_pid old_args; do
    case "$old_args" in
      "$rt/llama-server "*"--port "#;

pub const START_SCRIPT_E: &'static str = r#""*) printf '%s\n' "$old_pid" ;;
    esac
  done
}
old_pids=$(managed_pids)
for old_pid in $old_pids; do
  kill "$old_pid" 2>/dev/null || true
done
i=0
while [ "$i" -lt 30 ] && [ -n "$(managed_pids)" ]; do
  i=$((i + 1))
  sleep 1
done
# Do not let a wedged old runtime make every replacement fail forever.
remaining_pids=$(managed_pids)
for old_pid in $remaining_pids; do
  kill -9 "$old_pid" 2>/dev/null || true
done
if [ -n "$remaining_pids" ]; then
  sleep 1
fi
rm -f "$pid"
cd "$rt"
# Self-heal macOS/Linux runtime library aliases in case the runtime was installed
# by an older oxi build. llama-server's LC_LOAD_DYLIB may ask for e.g.
# libllama-common.0.dylib while the archive contains libllama-common.0.0.9910.dylib.
find . -maxdepth 1 -type f -name '*.dylib' -print | while IFS= read -r p; do
  f=${p#./}
  stem=${f%.dylib}
  prefix=${stem%%.*}
  rest=${stem#*.}
  major=${rest%%.*}
  [ "$stem" != "$rest" ] || continue
  case "$major" in ''|*[!0-9]*) continue ;; esac
  short="$prefix.$major.dylib"
  [ "$short" = "$f" ] || ln -sf "$f" "$short"
done
find . -maxdepth 1 -type f -name '*.so.*' -print | while IFS= read -r p; do
  f=${p#./}
  short=$(printf '%s\n' "$f" | sed -E 's/^(.*\.so\.[0-9]+)\..*$/\1/')
  [ "$short" = "$f" ] || ln -sf "$f" "$short"
done
: > "$log"
(DYLD_LIBRARY_PATH="$rt:${DYLD_LIBRARY_PATH:-}" LD_LIBRARY_PATH="$rt:${LD_LIBRARY_PATH:-}" PATH="$rt:$PATH" nohup "$rt/llama-server" -m "$model" --host 127.0.0.1 --port "#;

pub const START_SCRIPT_F: &'static str = r#" -c "#;

pub const START_SCRIPT_G: &'static str = r#" >> "$log" 2>&1 & echo $! > "$pid")
# Wait until llama-server is actually reachable. Starting the process can succeed while
# the port is not open yet (or it can fail a few seconds later while loading the model).
# Returning early makes the SSH tunnel probe fail with "ConnectFailed".
i=0
while [ "$i" -lt 90 ]; do
  if ! kill -0 "$(cat "$pid")" 2>/dev/null; then
    tail -n 120 "$log" >&2 || true
    exit 1
  fi
  if command -v curl >/dev/null 2>&1; then
    # Do not require llama.cpp to echo the absolute model path: versions differ and
    # often expose an alias/name instead. Process ownership plus a healthy API response
    # proves this newly launched managed server owns the endpoint.
    health=$(curl -sS --max-time 2 "http://127.0.0.1:"#;

pub const START_SCRIPT_H: &'static str = r#"/health" 2>/dev/null || true)
    models=$(curl -sS --max-time 2 "http://127.0.0.1:"#;

pub const START_SCRIPT_I: &'static str = r#"/v1/models" 2>/dev/null || true)
    if [ -n "$health" ] || [ -n "$models" ]; then
      printf 'Remote llama-server ready with %s on 127.0.0.1:%s. Log: %s' "$model" "#;

pub const START_SCRIPT_J: &'static str = r#" "$log"
      exit 0
    fi
  elif command -v nc >/dev/null 2>&1 && nc -z 127.0.0.1 "#;

pub const START_SCRIPT_K: &'static str = r#" >/dev/null 2>&1; then
    # With no curl, process ownership plus an open port is the best available check.
    printf 'Remote llama-server ready on 127.0.0.1:%s. Log: %s' "#;

pub const START_SCRIPT_L: &'static str = r#" "$log"
    exit 0
  fi
  i=$((i + 1))
  sleep 1
done
echo "llama-server started but did not open 127.0.0.1:"#;

pub const START_SCRIPT_M: &'static str = r#" within 90s" >&2
tail -n 120 "$log" >&2 || true
exit 1
"#;

pub const STOP_SCRIPT_A: &'static str = r#"set -eu
rt=$HOME/.local/share/oxi/remote-hf/runtime
pid="$rt/llama-server.pid"
port="#;

pub const STOP_SCRIPT_B: &'static str = r#"
stopped=0
if [ -f "$pid" ] && kill -0 "$(cat "$pid")" 2>/dev/null; then
  kill "$(cat "$pid")" 2>/dev/null || true
  stopped=1
fi
# Also stop an older managed process if its pid file was overwritten or stale.
ps -axo pid=,command= 2>/dev/null | while read -r old_pid old_args; do
  case "$old_args" in
    "$rt/llama-server "*"--port $port"*) kill "$old_pid" 2>/dev/null || true ;;
  esac
done
rm -f "$pid"
# Report stopped even when only the stale process scan found it; this command is idempotent.
echo stopped
"#;


/// The name of the folder a repository's downloads go to: each `/`, `\` and `:` of the
/// repository id becomes `__`.
pub open spec fn repo_dir_name(repo: Seq<char>) -> Seq<char>
    decreases repo.len(),
{
    if repo.len() == 0 {
        Seq::empty()
    } else {
        repo_dir_name(repo.drop_last()) + (if repo.last() == '/' || repo.last() == '\\'
            || repo.last() == ':' {
            "__"@
        } else {
            seq![repo.last()]
        })
    }
}

/// The name a downloaded file is stored under: the file name of `filename` as a path, or
/// `filename` itself when it has none.
pub open spec fn model_file_name(filename: Seq<char>) -> Seq<char> {
    match path_file_name(filename) {
        Some(n) => n,
        None => filename,
    }
}

/// The download URL of a file of a Hugging Face repository.
pub open spec fn hf_file_url(repo: Seq<char>, filename: Seq<char>) -> Seq<char> {
    "https://huggingface.co/"@ + repo + "/resolve/main/"@ + filename
}

/// The `-ngl` argument for a GPU layer count; none for zero.
pub open spec fn gpu_layers_flag(gpu_layers: i32) -> Seq<char> {
    if gpu_layers == 0 {
        Seq::empty()
    } else if gpu_layers < 0 {
        " -ngl -"@ + decimal((0 - gpu_layers) as nat)
    } else {
        " -ngl "@ + decimal(gpu_layers as nat)
    }
}

/// The script that installs the llama.cpp runtime from the archive at `url`.
pub open spec fn install_script(url: Seq<char>) -> Seq<char> {
    INSTALL_SCRIPT_A@
        + shell_quoted(url)
        + INSTALL_SCRIPT_B@
        + shell_quoted(url)
        + INSTALL_SCRIPT_C@
}

/// The script that downloads a model file into the folder `safe_repo` as `base_name`.
pub open spec fn download_script(safe_repo: Seq<char>, base_name: Seq<char>, url: Seq<char>) -> Seq<char> {
    DOWNLOAD_SCRIPT_A@
        + shell_quoted(safe_repo)
        + DOWNLOAD_SCRIPT_B@
        + shell_quoted(base_name)
        + DOWNLOAD_SCRIPT_C@
        + shell_quoted(url)
        + DOWNLOAD_SCRIPT_D@
        + shell_quoted(url)
        + DOWNLOAD_SCRIPT_E@
}

/// The script that lists the downloaded models and the server running on `port`.
pub open spec fn list_script(port: u16) -> Seq<char> {
    LIST_SCRIPT_A@
        + decimal(port as nat)
        + LIST_SCRIPT_B@
}

/// The script that deletes the model file at `path` (and its folder when left empty).
pub open spec fn delete_script(path: Seq<char>) -> Seq<char> {
    DELETE_SCRIPT_A@
        + shell_quoted(path)
        + DELETE_SCRIPT_B@
}

/// The script that (re)starts the server on `port` with the model at `model` (or, when that
/// file is missing, the downloaded file `base_name` of `safe_repo`).
pub open spec fn start_script(
    model: Seq<char>,
    safe_repo: Seq<char>,
    base_name: Seq<char>,
    port: u16,
    ctx: usize,
    gpu_layers: i32,
) -> Seq<char> {
    START_SCRIPT_A@
        + shell_quoted(model)
        + START_SCRIPT_B@
        + shell_quoted(safe_repo)
        + START_SCRIPT_C@
        + shell_quoted(base_name)
        + START_SCRIPT_D@
        + decimal(port as nat)
        + START_SCRIPT_E@
        + decimal(port as nat)
        + START_SCRIPT_F@
        + decimal(ctx as nat)
        + gpu_layers_flag(gpu_layers)
        + START_SCRIPT_G@
        + decimal(port as nat)
        + START_SCRIPT_H@
        + decimal(port as nat)
        + START_SCRIPT_I@
        + decimal(port as nat)
        + START_SCRIPT_J@
        + decimal(port as nat)
        + START_SCRIPT_K@
        + decimal(port as nat)
        + START_SCRIPT_L@
        + decimal(port as nat)
        + START_SCRIPT_M@
}

/// The script that stops the server on `port`.
pub open spec fn stop_script(port: u16) -> Seq<char> {
    STOP_SCRIPT_A@
        + decimal(port as nat)
        + STOP_SCRIPT_B@
}

/// The folder name for a repository's downloads.
pub fn repo_dir_name_exec(repo: &str) -> (res: String)
    ensures
        res@ == repo_dir_name(repo@),
{
    let cs = crate::text::chars_of(repo);
    let mut out = String::new();
    let mut i: usize = 0;
    while i < cs.len()
        invariant
            i <= cs.len(),
            cs@ == repo@,
            out@ == repo_dir_name(cs@.take(i as int)),
        decreases cs.len() - i,
    {
        proof {
            let t = cs@.take(i + 1);
            assert(t.drop_last() == cs@.take(i as int));
        }
        let c = cs[i];
        if c == '/' || c == '\\' || c == ':' {
            push_str(&mut out, "__");
        } else {
            crate::text::push_char(&mut out, c);
        }
        i = i + 1;
    }
    assert(cs@.take(cs.len() as int) == cs@);
    out
}

fn model_file_name_exec(filename: &str) -> (res: String)
    ensures
        res@ == model_file_name(filename@),
{
    match file_name_of(filename) {
        Some(n) => n,
        None => owned(filename),
    }
}

fn gpu_layers_text(gpu_layers: i32) -> (res: String)
    ensures
        res@ == gpu_layers_flag(gpu_layers),
{
    if gpu_layers == 0 {
        String::new()
    } else if gpu_layers < 0 {
        let mut s = owned(" -ngl -");
        let m: i64 = 0 - (gpu_layers as i64);
        push_chars(&mut s, &decimal_exec(m as u64));
        s
    } else {
        let mut s = owned(" -ngl ");
        push_chars(&mut s, &decimal_exec(gpu_layers as u64));
        s
    }
}

/// The script that installs the llama.cpp runtime from `url`.
pub fn install_runtime_script(url: &str) -> (res: String)
    ensures
        res@ == install_script(url@),
{
    let q_url = sh_quote(url);
    let mut s = String::new();
    push_str(&mut s, INSTALL_SCRIPT_A);
    push_str(&mut s, q_url.as_str());
    push_str(&mut s, INSTALL_SCRIPT_B);
    push_str(&mut s, q_url.as_str());
    push_str(&mut s, INSTALL_SCRIPT_C);
    s
}

/// The script that downloads `filename` of the Hugging Face repository `repo`.
pub fn download_model_script(repo: &str, filename: &str) -> (res: String)
    ensures
        res@ == download_script(
            repo_dir_name(repo@),
            model_file_name(filename@),
            hf_file_url(repo@, filename@),
        ),
{
    let q_safe_repo = sh_quote(repo_dir_name_exec(repo).as_str());
    let q_base_name = sh_quote(model_file_name_exec(filename).as_str());
    let mut url = owned("https://huggingface.co/");
    push_str(&mut url, repo);
    push_str(&mut url, "/resolve/main/");
    push_str(&mut url, filename);
    let q_url = sh_quote(url.as_str());
    let mut s = String::new();
    push_str(&mut s, DOWNLOAD_SCRIPT_A);
    push_str(&mut s, q_safe_repo.as_str());
    push_str(&mut s, DOWNLOAD_SCRIPT_B);
    push_str(&mut s, q_base_name.as_str());
    push_str(&mut s, DOWNLOAD_SCRIPT_C);
    push_str(&mut s, q_url.as_str());
    push_str(&mut s, DOWNLOAD_SCRIPT_D);
    push_str(&mut s, q_url.as_str());
    push_str(&mut s, DOWNLOAD_SCRIPT_E);
    s
}

/// The model a finished download describes: identified by `repo/filename`, at the path and
/// with the size that the download script reported in `out`.
pub fn downloaded_model(repo: &str, filename: &str, out: &str) -> (res: DownloadedModel)
    ensures
        res.id@ == repo@ + "/"@ + filename@,
        res.repo@ == repo@,
        res.filename@ == filename@,
        (res.path@, res.bytes) == download_report(out@),
{
    let (path, bytes) = parse_download_report(out);
    let mut id = owned(repo);
    push_str(&mut id, "/");
    push_str(&mut id, filename);
    DownloadedModel { id, repo: owned(repo), filename: owned(filename), path, bytes }
}

/// The script that lists the models on the host and the server running on `port`.
pub fn list_models_script(port: u16) -> (res: String)
    ensures
        res@ == list_script(port),
{
    let port_text = decimal_exec(port as u64);
    let mut s = String::new();
    push_str(&mut s, LIST_SCRIPT_A);
    push_chars(&mut s, &port_text);
    push_str(&mut s, LIST_SCRIPT_B);
    s
}

/// The script that deletes the model file at `path`.
pub fn delete_model_script(path: &str) -> (res: String)
    ensures
        res@ == delete_script(path@),
{
    let q_path = sh_quote(path);
    let mut s = String::new();
    push_str(&mut s, DELETE_SCRIPT_A);
    push_str(&mut s, q_path.as_str());
    push_str(&mut s, DELETE_SCRIPT_B);
    s
}

/// The script that starts the server on `port` with the model at `model_path`, falling back
/// to the download location of `filename` of `repo`.
pub fn start_model_script(
    model_path: &str,
    repo: &str,
    filename: &str,
    port: u16,
    context: usize,
    gpu_layers: i32,
) -> (res: String)
    ensures
        res@ == start_script(
            model_path@,
            repo_dir_name(repo@),
            model_file_name(filename@),
            port,
            context,
            gpu_layers,
        ),
{
    let ctx = context;
    let q_model = sh_quote(model_path);
    let q_safe_repo = sh_quote(repo_dir_name_exec(repo).as_str());
    let q_base_name = sh_quote(model_file_name_exec(filename).as_str());
    let port_text = decimal_exec(port as u64);
    let ctx_text = decimal_exec(ctx as u64);
    let ngl_text = gpu_layers_text(gpu_layers);
    let mut s = String::new();
    push_str(&mut s, START_SCRIPT_A);
    push_str(&mut s, q_model.as_str());
    push_str(&mut s, START_SCRIPT_B);
    push_str(&mut s, q_safe_repo.as_str());
    push_str(&mut s, START_SCRIPT_C);
    push_str(&mut s, q_base_name.as_str());
    push_str(&mut s, START_SCRIPT_D);
    push_chars(&mut s, &port_text);
    push_str(&mut s, START_SCRIPT_E);
    push_chars(&mut s, &port_text);
    push_str(&mut s, START_SCRIPT_F);
    push_chars(&mut s, &ctx_text);
    push_str(&mut s, ngl_text.as_str());
    push_str(&mut s, START_SCRIPT_G);
    push_chars(&mut s, &port_text);
    push_str(&mut s, START_SCRIPT_H);
    push_chars(&mut s, &port_text);
    push_str(&mut s, START_SCRIPT_I);
    push_chars(&mut s, &port_text);
    push_str(&mut s, START_SCRIPT_J);
    push_chars(&mut s, &port_text);
    push_str(&mut s, START_SCRIPT_K);
    push_chars(&mut s, &port_text);
    push_str(&mut s, START_SCRIPT_L);
    push_chars(&mut s, &port_text);
    push_str(&mut s, START_SCRIPT_M);
    s
}

/// The script that stops the server on `port`.
pub fn stop_model_script(port: u16) -> (res: String)
    ensures
        res@ == stop_script(port),
{
    let port_text = decimal_exec(port as u64);
    let mut s = String::new();
    push_str(&mut s, STOP_SCRIPT_A);
    push_chars(&mut s, &port_text);
    push_str(&mut s, STOP_SCRIPT_B);
    s
}

} // verus!
