use std::io::{Cursor, Write};

use oxi::runtime_archive::{runtime_archive_files, runtime_tgz_files, runtime_zip_files};

fn runtime_zip(entries: &[(&str, &[u8])]) -> Vec<u8> {
    let cursor = Cursor::new(Vec::new());
    let mut writer = zip::ZipWriter::new(cursor);
    let options = zip::write::SimpleFileOptions::default()
        .compression_method(zip::CompressionMethod::Deflated);
    for (name, contents) in entries {
        writer.start_file(*name, options).expect("start ZIP file");
        writer.write_all(contents).expect("write ZIP file");
    }
    writer.finish().expect("finish ZIP").into_inner()
}

fn runtime_tgz(entries: &[(&str, &[u8])]) -> Vec<u8> {
    let gz = flate2::write::GzEncoder::new(Vec::new(), flate2::Compression::default());
    let mut builder = tar::Builder::new(gz);
    for (name, contents) in entries {
        let mut header = tar::Header::new_gnu();
        header.set_size(contents.len() as u64);
        header.set_mode(0o644);
        header.set_cksum();
        builder.append_data(&mut header, name, *contents).expect("append tar entry");
    }
    builder.into_inner().expect("finish tar").finish().expect("finish gzip")
}

#[test]
fn extracts_server_and_sibling_libraries_from_nested_zip() {
    let archive = runtime_zip(&[
        ("llama/bin/llama-server.exe", b"server"),
        ("llama/bin/ggml.dll", b"library"),
        ("llama/bin/README.txt", b"ignored"),
    ]);
    let (files, result) = runtime_zip_files(&archive, "llama-server.exe");
    assert!(result.is_ok());
    assert_eq!(files.len(), 2);
    assert_eq!(files[0].name, "llama-server.exe");
    assert_eq!(files[0].data, b"server");
    assert!(files[0].executable);
    assert_eq!(files[1].name, "ggml.dll");
    assert_eq!(files[1].data, b"library");
    assert!(!files[1].executable);
}

#[test]
fn runtime_zip_requires_server_binary() {
    let archive = runtime_zip(&[("llama/bin/ggml.dll", b"library")]);
    let (files, result) = runtime_zip_files(&archive, "llama-server.exe");
    let error = result.expect_err("ZIP without server must fail");
    assert!(error.contains("does not contain llama-server.exe"));
    assert_eq!(files.len(), 1);
}

#[test]
fn corrupt_runtime_zip_is_rejected() {
    let (files, result) = runtime_zip_files(b"not a ZIP", "llama-server.exe");
    let error = result.expect_err("corrupt ZIP must fail");
    assert!(error.contains("runtime zip open failed"));
    assert!(files.is_empty());
}

#[test]
fn windows_style_member_names_are_reduced_to_their_base() {
    let archive = runtime_zip(&[("bin\\llama-server.exe", b"srv"), ("bin\\libmtmd.so.1", b"lib")]);
    let (files, result) = runtime_zip_files(&archive, "llama-server.exe");
    assert!(result.is_ok());
    let names: Vec<&str> = files.iter().map(|f| f.name.as_str()).collect();
    assert_eq!(names, vec!["llama-server.exe", "libmtmd.so.1"]);
}

#[test]
fn tarballs_give_the_server_and_libraries() {
    let archive = runtime_tgz(&[
        ("build/bin/llama-server", b"server"),
        ("build/bin/libllama.so", b"lib"),
        ("build/bin/libggml.dylib", b"dylib"),
        ("build/LICENSE", b"text"),
    ]);
    let (files, result) = runtime_tgz_files(&archive, "llama-server");
    assert!(result.is_ok());
    let names: Vec<&str> = files.iter().map(|f| f.name.as_str()).collect();
    assert_eq!(names, vec!["llama-server", "libllama.so", "libggml.dylib"]);
    assert!(files[0].executable && !files[1].executable);
    let (via_url, ok) =
        runtime_archive_files("https://example.com/llama-b1-bin-ubuntu-x64.tar.gz", &archive, "llama-server");
    assert!(ok.is_ok());
    assert_eq!(via_url.len(), 3);
}

#[test]
fn tarball_without_server_fails() {
    let archive = runtime_tgz(&[("x/libggml.so", b"lib")]);
    let (files, result) = runtime_tgz_files(&archive, "llama-server");
    assert_eq!(result, Err("runtime tar.gz does not contain llama-server".to_string()));
    assert_eq!(files.len(), 1);
    let (_, zipped) = runtime_archive_files("https://example.com/llama-bin-win.zip", &archive, "llama-server");
    assert!(zipped.unwrap_err().starts_with("runtime zip open failed"));
}
