use oxi::compute::{RemoteOutput, SshCredentialStore};
use oxi::local_models_remote::{
    model_arg_from_args, model_from_remote_path, parse_download_report, parse_platform_probe,
    parse_remote_listing, password_for_remotehf, remote_command_result, runtime_url_for,
    sh_quote,
};

#[test]
fn remote_path_recovers_repo_and_filename() {
    let m = model_from_remote_path(
        "/home/u/.local/share/oxi/local-models/models/unsloth__Qwen3-GGUF/q4.gguf",
        42,
    )
    .unwrap();
    assert_eq!(m.repo, "unsloth/Qwen3-GGUF");
    assert_eq!(m.filename, "q4.gguf");
    assert_eq!(m.id, "unsloth/Qwen3-GGUF/q4.gguf");
    assert_eq!(m.bytes, 42);
}

#[test]
fn remote_path_recovers_identity_from_legacy_quoted_components() {
    let m = model_from_remote_path(
        "/Users/manu/.local/share/oxi/local-models/models/'deepreinforce-ai__Ornith-GGUF'/'ornith-Q4.gguf'",
        99,
    )
    .unwrap();
    assert_eq!(m.repo, "deepreinforce-ai/Ornith-GGUF");
    assert_eq!(m.filename, "ornith-Q4.gguf");
    assert_eq!(m.id, "deepreinforce-ai/Ornith-GGUF/ornith-Q4.gguf");
    assert!(m.path.ends_with("/'ornith-Q4.gguf'"));
}

#[test]
fn model_arg_parses_short_and_long_flags() {
    assert_eq!(
        model_arg_from_args("/rt/llama-server -m /models/a.gguf --port 8080"),
        Some("/models/a.gguf".to_string())
    );
    assert_eq!(
        model_arg_from_args("llama-server --model /m/b.gguf -c 8192"),
        Some("/m/b.gguf".to_string())
    );
    assert_eq!(model_arg_from_args("llama-server --port 8080"), None);
}

#[test]
fn model_arg_flag_without_value() {
    assert_eq!(model_arg_from_args("llama-server -m"), None);
}

#[test]
fn shell_quoting_escapes_single_quotes() {
    assert_eq!(sh_quote("abc"), "'abc'");
    assert_eq!(sh_quote("it's"), "'it'\\''s'");
    assert_eq!(sh_quote(""), "''");
}

#[test]
fn remote_runtime_urls() {
    assert_eq!(
        runtime_url_for("linux", "amd64").unwrap(),
        "https://github.com/ggml-org/llama.cpp/releases/download/b9910/llama-b9910-bin-ubuntu-x64.tar.gz"
    );
    assert_eq!(
        runtime_url_for("darwin", "arm64").unwrap(),
        "https://github.com/ggml-org/llama.cpp/releases/download/b9910/llama-b9910-bin-macos-arm64.tar.gz"
    );
    assert_eq!(
        runtime_url_for("plan9", "mips").unwrap_err(),
        "No llama.cpp runtime mapping for remote plan9/mips"
    );
}

#[test]
fn probe_and_download_reports() {
    let (os, arch) = parse_platform_probe("linux x86_64");
    assert_eq!((os.as_str(), arch.as_str()), ("linux", "x86_64"));
    let (os, arch) = parse_platform_probe("");
    assert_eq!((os.as_str(), arch.as_str()), ("", ""));
    let (p, b) = parse_download_report("/x/y.gguf\n1234");
    assert_eq!(p, "/x/y.gguf");
    assert_eq!(b, 1234);
    let (p, b) = parse_download_report("/x/y.gguf\nnope");
    assert_eq!(p, "/x/y.gguf");
    assert_eq!(b, 0);
}

#[test]
fn remote_command_failures_describe_status_and_output() {
    let ok = RemoteOutput {
        status: 0,
        stdout: "fine".into(),
        stderr: String::new(),
        host_key_fingerprint: String::new(),
    };
    assert_eq!(remote_command_result(ok).unwrap(), "fine");
    let bad = RemoteOutput {
        status: 3,
        stdout: " out \n".into(),
        stderr: "err".into(),
        host_key_fingerprint: String::new(),
    };
    assert_eq!(
        remote_command_result(bad).unwrap_err(),
        "remote command failed with exit status 3\nstderr:\nerr\nstdout:\nout"
    );
    let silent = RemoteOutput {
        status: 1,
        stdout: String::new(),
        stderr: "  ".into(),
        host_key_fingerprint: String::new(),
    };
    assert_eq!(
        remote_command_result(silent).unwrap_err(),
        "remote command failed with exit status 1\nThe SSH host returned no diagnostic output. Check that llama-server is still running and retry."
    );
}

#[test]
fn listing_collects_models_and_running_server() {
    let out = "running\t/rt/llama-server -m /elsewhere/org__m/x.gguf --port 8080\n\
model\t/b/models/zz__repo/b.gguf\t10\n\
model\t/b/models/aa__repo/a.gguf\t 20 \n\
model\t/b/models/aa__repo/a.gguf\t20\n\
junk line\n";
    let list = parse_remote_listing(out);
    assert_eq!(list.running_path.as_deref(), Some("/elsewhere/org__m/x.gguf"));
    let ids: Vec<&str> = list.models.iter().map(|m| m.id.as_str()).collect();
    assert_eq!(ids, vec!["aa/repo/a.gguf", "org/m/x.gguf", "zz/repo/b.gguf"]);
    assert_eq!(list.models[0].bytes, 20);
    assert_eq!(list.models[1].bytes, 0);
}

#[test]
fn remote_hf_password_falls_back_to_local_slug() {
    let mut creds = SshCredentialStore::default();
    assert_eq!(password_for_remotehf(&creds, "remote-hf", "local-hf"), "");
    creds.set("local-hf", "old");
    assert_eq!(password_for_remotehf(&creds, "remote-hf", "local-hf"), "old");
    creds.set("remote-hf", "new");
    assert_eq!(password_for_remotehf(&creds, "remote-hf", "local-hf"), "new");
}

#[test]
fn running_model_without_file_name_still_gets_a_row() {
    let out = "running\t/rt/llama-server -m / --port 8080\nmodel\t/b/org__r/q.gguf\t5\n";
    let list = parse_remote_listing(out);
    assert_eq!(list.running_path.as_deref(), Some("/"));
    let row = list.models.iter().find(|m| m.path == "/").expect("a row for the running model");
    assert_eq!(row.id, "/");
    assert_eq!(row.filename, "/");
    assert_eq!(row.repo, "");
    assert_eq!(row.bytes, 0);
    assert_eq!(list.models.len(), 2);
}

#[test]
fn unknown_running_model_adds_no_row() {
    let out = "running\t/rt/llama-server --port 8080\n";
    let list = parse_remote_listing(out);
    assert_eq!(list.running_path.as_deref(), Some(""));
    assert!(list.models.is_empty());
}
