# oxi

The core of the oxi desktop chat client, written in Verus. The library's logic in `src/`
carries contracts that Verus proves. The exceptions are a small set of trusted wrappers
around outside crates and std (marked `#[verifier::external_body]`, listed below): Verus
believes their contracts without proof, and three of them (two JSON tree conversions and
the `Instant::now` call) carry none.

## Layout

- `src/` — the verified library.
  - `text` — character-level string helpers with exact specifications (trim, words,
    lines, search, decimal printing).
  - `model` — chat messages, assistant blocks and how they are grouped for display.
  - `streaming` — how streamed text, thinking and tool events update the last assistant
    message; how a prompt becomes a user/assistant message pair.
  - `composer` — the prompt history and arrow-key navigation.
  - `mentions` — `@path` mentions and the file or folder context they expand to.
  - `hydrate` — rebuilding a transcript from an agent's JSON message history.
  - `sessions` — opening, deleting and loading chats; image attachments.
  - `state` — workspaces and per-chat run state.
  - `compute` — SSH passwords, and the decisions around SSH commands and tunnels.
  - `git` — the source-control panel's state and the decisions around repository work.
  - `local_models`, `local_models_remote`, `local_models_panel`, `remote_scripts`,
    `runtime_archive` — Hugging Face GGUF models, the llama.cpp runtime (local and on an
    SSH host), and the settings panel that shows their progress.
  - `oauth` — token stores, the PKCE login and its localhost callback, GitHub device flow.
  - `secrets` — the keychain's unified secrets record and what saving puts into it.
  - `settings_input` — how the numeric settings fields (tool-round cap, bash timeout cap,
    ports) read what was typed.
  - `markdown`, `json` — small pieces of message rendering; the command a tool's JSON
    arguments name.
- `tests/` — tests run against the compiled library with the real outside crates.
- `app/` — the program around the library: file locations, the model manifest on disk,
  starting the runtime, reading mentioned files, the OAuth redirect listener, and the loop
  that feeds background reports into the settings panel.

Calls into outside crates (`serde_json`, `base64`, `url`, `sha2`, `rand`, `zip`,
`flate2`, `tar`) and a few std functions (`str::to_lowercase`, `String::push`,
`Path::file_name`, `Path::parent`, `Instant::now`) are made from small trusted wrappers
whose doc comments say what their contracts claim of the called function.
