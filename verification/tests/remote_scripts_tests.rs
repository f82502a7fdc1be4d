use oxi::remote_scripts::{
    delete_model_script, download_model_script, downloaded_model, install_runtime_script,
    list_models_script, repo_dir_name_exec, start_model_script, stop_model_script,
};

const BASE: &str = "$HOME/.local/share/oxi/remote-hf";

fn sh_quote(s: &str) -> String {
    format!("'{}'", s.replace('\'', "'\\''"))
}

fn expected_install(url: &str) -> String {
    format!(
        r#"set -eu
base={base}
rt="$base/runtime"
mkdir -p "$rt"
find "$rt" -maxdepth 1 -type f ! -name 'llama-server.log' -delete 2>/dev/null || true
archive="$rt/runtime.archive"
if command -v curl >/dev/null 2>&1; then
  curl -L --fail -o "$archive" {url}
elif command -v wget >/dev/null 2>&1; then
  wget -O "$archive" {url}
else
  echo "curl or wget is required on the remote host" >&2
  exit 127
fi
case "$archive" in
  *.zip) unzip -oq "$archive" -d "$rt/extract" ;;
  *) mkdir -p "$rt/extract"; tar -xzf "$archive" -C "$rt/extract" ;;
esac
find "$rt/extract" -type f \( -name 'llama-server' -o -name 'llama-server.exe' -o -name '*.dylib' -o -name '*.so' -o -name '*.so.*' -o -name '*.dll' \) -exec sh -c 'for f do cp "$f" "$0/$(basename "$f")"; done' "$rt" {{}} +
rm -rf "$rt/extract" "$archive"
chmod +x "$rt/llama-server" 2>/dev/null || true
cd "$rt"
find . -maxdepth 1 -type f -name '*.dylib' -print | while IFS= read -r p; do
  f=${{p#./}}
  stem=${{f%.dylib}}
  prefix=${{stem%%.*}}
  rest=${{stem#*.}}
  major=${{rest%%.*}}
  [ "$stem" != "$rest" ] || continue
  case "$major" in ''|*[!0-9]*) continue ;; esac
  short="$prefix.$major.dylib"
  [ "$short" = "$f" ] || ln -sf "$f" "$short"
done
find . -maxdepth 1 -type f -name '*.so.*' -print | while IFS= read -r p; do
  f=${{p#./}}
  short=$(printf '%s\n' "$f" | sed -E 's/^(.*\.so\.[0-9]+)\..*$/\1/')
  [ "$short" = "$f" ] || ln -sf "$f" "$short"
done
printf '%s/llama-server' "$rt"
"#,
        base = BASE, url = sh_quote(url),
    )
}

fn expected_download(safe_repo: &str, base_name: &str, url: &str) -> String {
    format!(
        r#"set -eu
base={base}
# Keep shell-quoted user-controlled components outside double quotes. Putting
# one inside `"$base/..."` made its quote characters part of the filename.
dir="$base/models"/{safe_repo}
mkdir -p "$dir"
out="$dir"/{base_name}
part="$out.download"
if command -v curl >/dev/null 2>&1; then
  curl -L --fail -C - -o "$part" {url}
elif command -v wget >/dev/null 2>&1; then
  wget -c -O "$part" {url}
else
  echo "curl or wget is required on the remote host" >&2
  exit 127
fi
mv "$part" "$out"
bytes=$(wc -c < "$out" | tr -d ' ')
printf '%s\n%s' "$out" "$bytes"
"#,
        base = BASE, safe_repo = sh_quote(safe_repo), base_name = sh_quote(base_name), url = sh_quote(url),
    )
}

fn expected_list(port: u16) -> String {
    format!(
        r#"set -eu
base={base}
rt="$base/runtime"
pid_file="$rt/llama-server.pid"
running_args=""
if [ -f "$pid_file" ] && kill -0 "$(cat "$pid_file")" 2>/dev/null; then
  running_args=$(ps -o args= -p "$(cat "$pid_file")" 2>/dev/null || true)
fi
# Recover from a stale/overwritten pid file by inspecting only Oxi's managed binary.
if [ -z "$running_args" ]; then
  running_args=$(ps -axo command= 2>/dev/null | grep -F "$rt/llama-server" | grep -F -- '--port {port}' | head -n 1 || true)
fi
if [ -n "$running_args" ]; then
  printf 'running\t%s\n' "$running_args"
fi
dir="$base/models"
if [ -d "$dir" ]; then
  # Avoid GNU-only -mindepth: remote hosts may use BSD find (macOS).
  # The final two patterns also discover files written by older Oxi builds which
  # accidentally included literal single quotes around the repo/file components.
  find "$dir" -type f \( -name '*.gguf' -o -name '*.GGUF' -o -name "*.gguf'" -o -name "*.GGUF'" \) | while IFS= read -r f; do
    bytes=$(wc -c < "$f" | tr -d ' ')
    printf 'model\t%s\t%s\n' "$f" "$bytes"
  done
fi
"#,
        base = BASE, port = port,
    )
}

fn expected_delete(path: &str) -> String {
    format!(
        r#"set -eu
f={path}
rm -f -- "$f"
rmdir -- "$(dirname "$f")" 2>/dev/null || true
"#,
        path = sh_quote(path),
    )
}

fn expected_start(model: &str, safe_repo: &str, base_name: &str, port: u16, ctx: usize, ngl: &str) -> String {
    format!(
        r#"set -eu
base={base}
rt="$base/runtime"
log="$rt/llama-server.log"
pid="$rt/llama-server.pid"
model={model}
# `set -e` can otherwise terminate on a host-specific shell/process utility failure
# without producing any output. Always return enough context for the composer notice.
on_exit() {{
  oxi_status=$?
  trap - 0
  if [ "$oxi_status" -ne 0 ]; then
    echo "Remote model switch failed (status $oxi_status)." >&2
    if [ -f "$pid" ]; then
      server_pid=$(cat "$pid" 2>/dev/null || true)
      echo "Recorded llama-server pid: ${{server_pid:-none}}" >&2
      if [ -n "$server_pid" ] && kill -0 "$server_pid" 2>/dev/null; then
        echo "The recorded llama-server process is still running." >&2
      else
        echo "The recorded llama-server process is not running." >&2
      fi
    fi
    if [ -f "$log" ]; then
      echo "Last llama-server log lines ($log):" >&2
      tail -n 120 "$log" >&2 || true
    else
      echo "llama-server log does not exist: $log" >&2
    fi
  fi
  exit "$oxi_status"
}}
trap on_exit 0
if [ ! -f "$model" ]; then
  candidate="$base/models"/{safe_repo}/{base_name}
  if [ -f "$candidate" ]; then
    model="$candidate"
  else
    echo "Model file not found on remote host." >&2
    echo "Tried saved path: $model" >&2
    echo "Tried remote download path: $candidate" >&2
    echo "Download the model while Local HF is set to Remote SSH, then press Play again." >&2
    exit 1
  fi
fi
# The pid file can become stale after a failed replacement. Stop every Oxi-managed
# llama-server on this runtime port, but signal each process only once. llama-server may
# spend several seconds freeing a large model; launching after the old 5-second wait made
# the first switch lose the port race while a second attempt appeared to work.
managed_pids() {{
  ps -axo pid=,command= 2>/dev/null | while read -r old_pid old_args; do
    case "$old_args" in
      "$rt/llama-server "*"--port {port}"*) printf '%s\n' "$old_pid" ;;
    esac
  done
}}
old_pids=$(managed_pids)
for old_pid in $old_pids; do
  kill "$old_pid" 2>/dev/null || true
done
i=0
while [ "$i" -lt 30 ] && [ -n "$(managed_pids)" ]; do
  i=$((i + 1))
  sleep 1
done
# Do not let a wedged old runtime make every replacement fail forever.
remaining_pids=$(managed_pids)
for old_pid in $remaining_pids; do
  kill -9 "$old_pid" 2>/dev/null || true
done
if [ -n "$remaining_pids" ]; then
  sleep 1
fi
rm -f "$pid"
cd "$rt"
# Self-heal macOS/Linux runtime library aliases in case the runtime was installed
# by an older oxi build. llama-server's LC_LOAD_DYLIB may ask for e.g.
# libllama-common.0.dylib while the archive contains libllama-common.0.0.9910.dylib.
find . -maxdepth 1 -type f -name '*.dylib' -print | while IFS= read -r p; do
  f=${{p#./}}
  stem=${{f%.dylib}}
  prefix=${{stem%%.*}}
  rest=${{stem#*.}}
  major=${{rest%%.*}}
  [ "$stem" != "$rest" ] || continue
  case "$major" in ''|*[!0-9]*) continue ;; esac
  short="$prefix.$major.dylib"
  [ "$short" = "$f" ] || ln -sf "$f" "$short"
done
find . -maxdepth 1 -type f -name '*.so.*' -print | while IFS= read -r p; do
  f=${{p#./}}
  short=$(printf '%s\n' "$f" | sed -E 's/^(.*\.so\.[0-9]+)\..*$/\1/')
  [ "$short" = "$f" ] || ln -sf "$f" "$short"
done
: > "$log"
(DYLD_LIBRARY_PATH="$rt:${{DYLD_LIBRARY_PATH:-}}" LD_LIBRARY_PATH="$rt:${{LD_LIBRARY_PATH:-}}" PATH="$rt:$PATH" nohup "$rt/llama-server" -m "$model" --host 127.0.0.1 --port {port} -c {ctx}{ngl} >> "$log" 2>&1 & echo $! > "$pid")
# Wait until llama-server is actually reachable. Starting the process can succeed while
# the port is not open yet (or it can fail a few seconds later while loading the model).
# Returning early makes the SSH tunnel probe fail with "ConnectFailed".
i=0
while [ "$i" -lt 90 ]; do
  if ! kill -0 "$(cat "$pid")" 2>/dev/null; then
    tail -n 120 "$log" >&2 || true
    exit 1
  fi
  if command -v curl >/dev/null 2>&1; then
    # Do not require llama.cpp to echo the absolute model path: versions differ and
    # often expose an alias/name instead. Process ownership plus a healthy API response
    # proves this newly launched managed server owns the endpoint.
    health=$(curl -sS --max-time 2 "http://127.0.0.1:{port}/health" 2>/dev/null || true)
    models=$(curl -sS --max-time 2 "http://127.0.0.1:{port}/v1/models" 2>/dev/null || true)
    if [ -n "$health" ] || [ -n "$models" ]; then
      printf 'Remote llama-server ready with %s on 127.0.0.1:%s. Log: %s' "$model" {port} "$log"
      exit 0
    fi
  elif command -v nc >/dev/null 2>&1 && nc -z 127.0.0.1 {port} >/dev/null 2>&1; then
    # With no curl, process ownership plus an open port is the best available check.
    printf 'Remote llama-server ready on 127.0.0.1:%s. Log: %s' {port} "$log"
    exit 0
  fi
  i=$((i + 1))
  sleep 1
done
echo "llama-server started but did not open 127.0.0.1:{port} within 90s" >&2
tail -n 120 "$log" >&2 || true
exit 1
"#,
        base = BASE, model = sh_quote(model), safe_repo = sh_quote(safe_repo), base_name = sh_quote(base_name), port = port, ctx = ctx, ngl = ngl,
    )
}

fn expected_stop(port: u16) -> String {
    format!(
        r#"set -eu
rt={base}/runtime
pid="$rt/llama-server.pid"
port={port}
stopped=0
if [ -f "$pid" ] && kill -0 "$(cat "$pid")" 2>/dev/null; then
  kill "$(cat "$pid")" 2>/dev/null || true
  stopped=1
fi
# Also stop an older managed process if its pid file was overwritten or stale.
ps -axo pid=,command= 2>/dev/null | while read -r old_pid old_args; do
  case "$old_args" in
    "$rt/llama-server "*"--port $port"*) kill "$old_pid" 2>/dev/null || true ;;
  esac
done
rm -f "$pid"
# Report stopped even when only the stale process scan found it; this command is idempotent.
echo stopped
"#,
        base = BASE, port = port,
    )
}

#[test]
fn install_script_quotes_the_archive_url() {
    let url = "https://github.com/ggml-org/llama.cpp/releases/download/b9910/llama-b9910-bin-ubuntu-x64.tar.gz";
    assert_eq!(install_runtime_script(url), expected_install(url));
}

#[test]
fn download_script_uses_flattened_repo_and_quoted_names() {
    let repo = "unsloth/Qwen3-GGUF";
    let filename = "sub/q4 it's.gguf";
    let script = download_model_script(repo, filename);
    assert_eq!(
        script,
        expected_download(
            "unsloth__Qwen3-GGUF",
            "q4 it's.gguf",
            "https://huggingface.co/unsloth/Qwen3-GGUF/resolve/main/sub/q4 it's.gguf"
        )
    );
    assert!(script.contains("out=\"$dir\"/'q4 it'\\''s.gguf'"));
    assert_eq!(repo_dir_name_exec("a/b\\c:d"), "a__b__c__d");
}

#[test]
fn finished_download_describes_the_model() {
    let m = downloaded_model("org/m", "m.gguf", "/h/models/org__m/m.gguf\n123");
    assert_eq!(m.id, "org/m/m.gguf");
    assert_eq!(m.repo, "org/m");
    assert_eq!(m.filename, "m.gguf");
    assert_eq!(m.path, "/h/models/org__m/m.gguf");
    assert_eq!(m.bytes, 123);
}

#[test]
fn list_stop_and_delete_scripts() {
    assert_eq!(list_models_script(8081), expected_list(8081));
    assert_eq!(stop_model_script(18080), expected_stop(18080));
    assert_eq!(delete_model_script("/m/'x'.gguf"), expected_delete("/m/'x'.gguf"));
}

#[test]
fn start_script_carries_port_context_and_gpu_layers() {
    let script = start_model_script("/m/a b.gguf", "org/repo", "a b.gguf", 8090, 8192, 99);
    assert_eq!(
        script,
        expected_start("/m/a b.gguf", "org__repo", "a b.gguf", 8090, 8192, " -ngl 99")
    );
    let cpu = start_model_script("/m/x.gguf", "o/r", "x.gguf", 1, 2048, 0);
    assert_eq!(cpu, expected_start("/m/x.gguf", "o__r", "x.gguf", 1, 2048, ""));
    let all = start_model_script("/m/x.gguf", "o/r", "x.gguf", 1, 2048, -1);
    assert_eq!(all, expected_start("/m/x.gguf", "o__r", "x.gguf", 1, 2048, " -ngl -1"));
}
