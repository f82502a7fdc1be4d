use oxi::local_models::{
    archive_is_tarball, linux_so_compat_name, llama_cpp_release_url, macos_dylib_compat_name,
    quant_rank, rank_gguf_files, runtime_payload_file, should_extract_runtime_file, snippet,
    take_downloaded, upsert_downloaded, zip_member_base_name, DownloadedModel, LocalModelManifest,
};

fn model(id: &str, path: &str) -> DownloadedModel {
    DownloadedModel {
        id: id.into(),
        repo: "r".into(),
        filename: "f".into(),
        path: path.into(),
        bytes: 1,
    }
}

#[test]
fn upsert_replaces_and_sorts_by_id() {
    let mut m = LocalModelManifest::default();
    upsert_downloaded(&mut m, model("b", "/1"));
    upsert_downloaded(&mut m, model("a", "/2"));
    upsert_downloaded(&mut m, model("b", "/3"));
    let ids: Vec<(&str, &str)> = m.models.iter().map(|x| (x.id.as_str(), x.path.as_str())).collect();
    assert_eq!(ids, vec![("a", "/2"), ("b", "/3")]);
    let removed = take_downloaded(&mut m, "a");
    assert_eq!(removed.len(), 1);
    assert_eq!(m.models.len(), 1);
    assert_eq!(m.models[0].id, "b");
}

#[test]
fn quant_ranking() {
    assert_eq!(quant_rank("Model-Q4_K_M.gguf"), 0);
    assert_eq!(quant_rank("model-q8_0.gguf"), 3);
    assert_eq!(quant_rank("model-F16.gguf"), 6);
    assert_eq!(quant_rank("model.gguf"), 99);
    let files = vec![
        "README.md".to_string(),
        "m-f16.gguf".to_string(),
        "m-Q4_K_M.GGUF".to_string(),
        "b-q8_0.gguf".to_string(),
        "a-q8_0.gguf".to_string(),
    ];
    assert_eq!(
        rank_gguf_files(files),
        vec!["m-Q4_K_M.GGUF", "a-q8_0.gguf", "b-q8_0.gguf", "m-f16.gguf"]
    );
}

#[test]
fn snippets_are_cut() {
    assert_eq!(snippet("short"), "short");
    let long = "x".repeat(300);
    assert_eq!(snippet(&long), format!("{}\u{2026}", "x".repeat(240)));
}

#[test]
fn runtime_archive_rules() {
    assert!(archive_is_tarball("a.tar.gz"));
    assert!(archive_is_tarball("a.tgz"));
    assert!(!archive_is_tarball("a.zip"));
    assert!(should_extract_runtime_file("llama-server.exe", "llama-server.exe"));
    assert!(should_extract_runtime_file("ggml.dll", "llama-server.exe"));
    assert!(should_extract_runtime_file("libggml.so.1", "llama-server"));
    assert!(!should_extract_runtime_file("README.txt", "llama-server.exe"));
    assert!(runtime_payload_file("llama-server"));
    assert!(runtime_payload_file("libx.dylib"));
    assert!(!runtime_payload_file("llama-server.log"));
    assert_eq!(zip_member_base_name("llama/bin/llama-server.exe"), "llama-server.exe");
    assert_eq!(zip_member_base_name("llama\\bin\\ggml.dll"), "ggml.dll");
    assert_eq!(zip_member_base_name("plain"), "plain");
}

#[test]
fn library_aliases() {
    assert_eq!(
        macos_dylib_compat_name("libllama-common.0.0.9910.dylib").as_deref(),
        Some("libllama-common.0.dylib")
    );
    assert_eq!(macos_dylib_compat_name("libx.dylib"), None);
    assert_eq!(macos_dylib_compat_name("libx.a.0.1.dylib"), None);
    assert_eq!(macos_dylib_compat_name("lib.x.9.0.1.dylib").as_deref(), Some("lib.x.9.dylib"));
    assert_eq!(macos_dylib_compat_name("libx.1.2.b.dylib"), None);
    assert_eq!(linux_so_compat_name("libggml.so.1.2.3").as_deref(), Some("libggml.so.1"));
    assert_eq!(linux_so_compat_name("libggml.so"), None);
    assert_eq!(linux_so_compat_name("libggml.so.x"), None);
}

#[test]
fn release_urls() {
    assert_eq!(
        llama_cpp_release_url("windows", "x86_64").unwrap(),
        "https://github.com/ggml-org/llama.cpp/releases/download/b9910/llama-b9910-bin-win-cpu-x64.zip"
    );
    assert_eq!(
        llama_cpp_release_url("freebsd", "x86_64").unwrap_err(),
        "No bundled llama-server build for freebsd/x86_64. Set a custom llama-server path."
    );
}

#[test]
fn runtime_aliases_for_versioned_libraries() {
    let names: Vec<String> = ["libllama.0.0.9910.dylib", "libmtmd.so.1.2", "plain.so", "libx.so.1", "llama-server"]
        .iter()
        .map(|s| s.to_string())
        .collect();
    let aliases = oxi::local_models::runtime_library_aliases(&names);
    assert_eq!(
        aliases,
        vec![
            ("libllama.0.0.9910.dylib".to_string(), "libllama.0.dylib".to_string()),
            ("libmtmd.so.1.2".to_string(), "libmtmd.so.1".to_string()),
        ]
    );
}

#[test]
fn local_server_command_line() {
    let c = oxi::local_models::llama_server_command("  ", Some("/rt/llama-server"), "/m/a.gguf", 8080, 4096, -1);
    assert_eq!(c.program, "/rt/llama-server");
    assert!(c.in_runtime_dir);
    assert_eq!(
        c.args,
        vec!["-m", "/m/a.gguf", "--host", "127.0.0.1", "--port", "8080", "-c", "4096", "-ngl", "-1"]
    );
    let own = oxi::local_models::llama_server_command(" /opt/ls ", Some("/rt/llama-server"), "/m/a.gguf", 1, 2, 0);
    assert_eq!(own.program, "/opt/ls");
    assert!(!own.in_runtime_dir);
    assert_eq!(own.args.len(), 8);
    let path = oxi::local_models::llama_server_command("", None, "m", 1, 2, 33);
    assert_eq!(path.program, "llama-server");
    assert_eq!(path.args[9], "33");
}

#[test]
fn local_server_start_errors() {
    assert_eq!(
        oxi::local_models::server_start_error("", "not found", "/l.log"),
        "Could not start bundled/PATH llama-server: not found. Use Install runtime or set llama-server path. Log: /l.log"
    );
    assert_eq!(
        oxi::local_models::server_start_error(" /x ", "denied", "/l.log"),
        "Could not start llama-server at `/x`: denied. Log: /l.log"
    );
}
