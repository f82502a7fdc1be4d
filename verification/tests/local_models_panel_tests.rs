use oxi::local_models::{DownloadedModel, HfModelHit, LocalModelMsg};
use oxi::local_models_panel::{apply_local_model_msg, LocalModelsPanel, PanelAction};
use oxi::local_models_remote::RemoteModelList;
use oxi::state::FetchedModels;

fn panel() -> LocalModelsPanel {
    LocalModelsPanel {
        search_loading: true,
        search_results: vec![],
        search_error: Some("old".into()),
        files_loading: true,
        selected_repo: String::new(),
        selected_file: String::new(),
        gguf_files: vec![],
        files_error: None,
        download_label: String::new(),
        download_progress: None,
        downloading: true,
        runtime_status: None,
        runtime_install_progress: None,
        runtime_installing: true,
        runtime_path: String::new(),
        remote_runtime_status: None,
        remote_list_loading: true,
        remote_downloaded: vec![],
        remote_running_model_id: None,
    }
}

fn fetched() -> FetchedModels {
    FetchedModels {
        models: vec!["stale".into()],
        loading: true,
        error: None,
    }
}

fn model(id: &str, path: &str) -> DownloadedModel {
    let (repo, file) = id.rsplit_once('/').unwrap();
    DownloadedModel {
        id: id.into(),
        repo: repo.into(),
        filename: file.into(),
        path: path.into(),
        bytes: 1,
    }
}

#[test]
fn search_results_replace_error() {
    let mut p = panel();
    let mut f = fetched();
    let hit = HfModelHit {
        model_id: "org/m-GGUF".into(),
        downloads: Some(3),
        likes: None,
    };
    let a = apply_local_model_msg(&mut p, &mut f, false, LocalModelMsg::Search(Ok(vec![hit])));
    assert!(matches!(a, PanelAction::Nothing));
    assert!(!p.search_loading);
    assert_eq!(p.search_results.len(), 1);
    assert_eq!(p.search_results[0].model_id, "org/m-GGUF");
    assert_eq!(p.search_error, None);
}

#[test]
fn file_list_selects_first_file() {
    let mut p = panel();
    let mut f = fetched();
    apply_local_model_msg(
        &mut p,
        &mut f,
        false,
        LocalModelMsg::Files {
            repo: "org/m".into(),
            result: Ok(vec!["a-Q4_K_M.gguf".into(), "a-Q8_0.gguf".into()]),
        },
    );
    assert_eq!(p.selected_repo, "org/m");
    assert_eq!(p.selected_file, "a-Q4_K_M.gguf");
    assert_eq!(p.gguf_files.len(), 2);
    assert!(!p.files_loading);
}

#[test]
fn failed_download_reports_on_runtime_status() {
    let mut p = panel();
    let mut f = fetched();
    let a = apply_local_model_msg(&mut p, &mut f, false, LocalModelMsg::DownloadDone(Err("disk full".into())));
    assert!(matches!(a, PanelAction::Nothing));
    assert!(!p.downloading);
    assert_eq!(p.runtime_status.as_deref(), Some("Download failed: disk full"));
}

#[test]
fn finished_download_asks_to_start_it() {
    let mut p = panel();
    let mut f = fetched();
    let a = apply_local_model_msg(
        &mut p,
        &mut f,
        false,
        LocalModelMsg::DownloadDone(Ok(model("org/m/q4.gguf", "/m/q4.gguf"))),
    );
    match a {
        PanelAction::ReloadManifestAndStart(m) => assert_eq!(m.id, "org/m/q4.gguf"),
        _ => panic!("expected a start"),
    }
}

#[test]
fn runtime_install_sets_path_and_status() {
    let mut p = panel();
    let mut f = fetched();
    apply_local_model_msg(&mut p, &mut f, false, LocalModelMsg::RuntimeInstallDone(Ok("/rt/llama-server".into())));
    assert!(!p.runtime_installing);
    assert_eq!(p.runtime_path, "/rt/llama-server");
    assert_eq!(p.runtime_status.as_deref(), Some("Runtime installed: /rt/llama-server"));
}

#[test]
fn remote_download_is_recorded_once_and_started() {
    let mut p = panel();
    p.remote_downloaded = vec![model("b/x/f.gguf", "/old"), model("a/y/g.gguf", "/g")];
    let mut f = fetched();
    let a = apply_local_model_msg(
        &mut p,
        &mut f,
        true,
        LocalModelMsg::RemoteDownloadDone(Ok(model("b/x/f.gguf", "/new"))),
    );
    match a {
        PanelAction::StartRemote(m) => assert_eq!(m.path, "/new"),
        _ => panic!("expected a remote start"),
    }
    let ids: Vec<&str> = p.remote_downloaded.iter().map(|m| m.id.as_str()).collect();
    assert_eq!(ids, vec!["a/y/g.gguf", "b/x/f.gguf"]);
    assert_eq!(p.remote_downloaded[1].path, "/new");
}

#[test]
fn remote_start_activates_and_notifies() {
    let mut p = panel();
    let mut f = fetched();
    let a = apply_local_model_msg(
        &mut p,
        &mut f,
        true,
        LocalModelMsg::RemoteStartDone {
            model: model("o/r/q.gguf", "/q"),
            result: Ok("started".into()),
        },
    );
    assert_eq!(p.remote_running_model_id.as_deref(), Some("o/r/q.gguf"));
    assert_eq!(p.remote_runtime_status.as_deref(), Some("started"));
    match a {
        PanelAction::ActivateRemote { model, notice } => {
            assert_eq!(model.id, "o/r/q.gguf");
            assert_eq!(notice, "Remote HF is now running o/r/q.gguf.");
        }
        _ => panic!("expected activation"),
    }
}

#[test]
fn failed_remote_start_notifies() {
    let mut p = panel();
    p.remote_running_model_id = Some("x".into());
    let mut f = fetched();
    let a = apply_local_model_msg(
        &mut p,
        &mut f,
        true,
        LocalModelMsg::RemoteStartDone {
            model: model("o/r/q.gguf", "/q"),
            result: Err("port busy".into()),
        },
    );
    assert_eq!(p.remote_running_model_id, None);
    assert_eq!(p.remote_runtime_status.as_deref(), Some("Remote start failed: port busy"));
    match a {
        PanelAction::Notify(n) => assert_eq!(n, "Could not switch Remote HF model: port busy"),
        _ => panic!("expected a notice"),
    }
}

#[test]
fn remote_stop_reports_outcome() {
    let mut p = panel();
    p.remote_running_model_id = Some("x".into());
    let mut f = fetched();
    apply_local_model_msg(&mut p, &mut f, true, LocalModelMsg::RemoteStopDone(Ok("stopped".into())));
    assert_eq!(p.remote_running_model_id, None);
    assert_eq!(p.remote_runtime_status.as_deref(), Some("Remote runtime stopped"));
}

#[test]
fn failed_listing_marks_picker_and_status() {
    let mut p = panel();
    let mut f = fetched();
    apply_local_model_msg(&mut p, &mut f, true, LocalModelMsg::RemoteListDone(Err("timeout".into())));
    let msg = "Could not list models on SSH host: timeout";
    assert!(!p.remote_list_loading);
    assert_eq!(p.remote_runtime_status.as_deref(), Some(msg));
    assert!(!f.loading);
    assert_eq!(f.error.as_deref(), Some(msg));
    assert_eq!(f.models, vec!["stale".to_string()]);
}

#[test]
fn listing_adopts_running_model_and_clears_listing_error() {
    let mut p = panel();
    let mut f = fetched();
    apply_local_model_msg(&mut p, &mut f, true, LocalModelMsg::RemoteListDone(Err("timeout".into())));
    let list = RemoteModelList {
        models: vec![model("a/b/c.gguf", "/m/c.gguf"), model("d/e/f.gguf", "/m/f.gguf")],
        running_path: Some("/m/f.gguf".into()),
    };
    let a = apply_local_model_msg(&mut p, &mut f, true, LocalModelMsg::RemoteListDone(Ok(list)));
    assert!(matches!(a, PanelAction::RefreshModelChoices));
    assert_eq!(p.remote_runtime_status, None);
    assert_eq!(p.remote_running_model_id.as_deref(), Some("d/e/f.gguf"));
    assert_eq!(p.remote_downloaded.len(), 2);
    assert_eq!(f.models, vec!["a/b/c.gguf".to_string(), "d/e/f.gguf".to_string()]);
    assert_eq!(f.error, None);
    assert!(!f.loading);
}

#[test]
fn listing_reports_unidentified_server() {
    let mut p = panel();
    let mut f = fetched();
    let list = RemoteModelList {
        models: vec![],
        running_path: Some(String::new()),
    };
    apply_local_model_msg(&mut p, &mut f, true, LocalModelMsg::RemoteListDone(Ok(list)));
    assert_eq!(p.remote_running_model_id, None);
    assert_eq!(
        p.remote_runtime_status.as_deref(),
        Some("A llama-server is running on the SSH host, but its model could not be identified. Press Play on a model to replace it.")
    );
}

#[test]
fn listing_of_local_target_keeps_running_model() {
    let mut p = panel();
    p.remote_running_model_id = Some("keep".into());
    let mut f = fetched();
    let list = RemoteModelList {
        models: vec![],
        running_path: Some(String::new()),
    };
    apply_local_model_msg(&mut p, &mut f, false, LocalModelMsg::RemoteListDone(Ok(list)));
    assert_eq!(p.remote_running_model_id.as_deref(), Some("keep"));
    assert_eq!(p.remote_runtime_status, None);
}

#[test]
fn remote_delete_drops_the_model() {
    let mut p = panel();
    p.remote_downloaded = vec![model("a/b/c.gguf", "/c"), model("d/e/f.gguf", "/f")];
    let mut f = fetched();
    apply_local_model_msg(
        &mut p,
        &mut f,
        true,
        LocalModelMsg::RemoteDeleteDone {
            id: "a/b/c.gguf".into(),
            result: Ok(()),
        },
    );
    assert_eq!(p.remote_downloaded.len(), 1);
    assert_eq!(p.remote_downloaded[0].id, "d/e/f.gguf");
    apply_local_model_msg(
        &mut p,
        &mut f,
        true,
        LocalModelMsg::RemoteDeleteDone {
            id: "d/e/f.gguf".into(),
            result: Err("busy".into()),
        },
    );
    assert_eq!(p.remote_downloaded.len(), 1);
    assert_eq!(p.remote_runtime_status.as_deref(), Some("Remote delete failed: busy"));
}
