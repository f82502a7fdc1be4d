//! The local-model settings panel and how it takes in what background model work reports:
//! searches, file lists, downloads, runtime installs and the remote host's model list.

use vstd::prelude::*;

use crate::composer::strings_view;
use crate::local_models::{
    models_view, take_downloaded, upsert_downloaded, upserted, without_id, DownloadedModel,
    HfModelHit, LocalModelManifest, LocalModelMsg, ModelInfo,
};
use crate::local_models_remote::RemoteModelList;
use crate::state::FetchedModels;
use crate::streaming::opt_view;
use crate::text::{chars_eq, chars_of, owned, push_str, starts_with, starts_with_exec};

verus! {

/// What the local-model settings show while background work runs.
pub struct LocalModelsPanel {
    pub search_loading: bool,
    pub search_results: Vec<HfModelHit>,
    pub search_error: Option<String>,
    pub files_loading: bool,
    pub selected_repo: String,
    pub selected_file: String,
    pub gguf_files: Vec<String>,
    pub files_error: Option<String>,
    pub download_label: String,
    pub download_progress: Option<(u64, Option<u64>)>,
    pub downloading: bool,
    pub runtime_status: Option<String>,
    pub runtime_install_progress: Option<(u64, Option<u64>)>,
    pub runtime_installing: bool,
    pub runtime_path: String,
    pub remote_runtime_status: Option<String>,
    pub remote_list_loading: bool,
    pub remote_downloaded: Vec<DownloadedModel>,
    pub remote_running_model_id: Option<String>,
}

/// The mathematical value of a [`LocalModelsPanel`].
pub struct PanelView {
    pub search_loading: bool,
    pub search_results: Seq<HfModelHit>,
    pub search_error: Option<Seq<char>>,
    pub files_loading: bool,
    pub selected_repo: Seq<char>,
    pub selected_file: Seq<char>,
    pub gguf_files: Seq<Seq<char>>,
    pub files_error: Option<Seq<char>>,
    pub download_label: Seq<char>,
    pub download_progress: Option<(u64, Option<u64>)>,
    pub downloading: bool,
    pub runtime_status: Option<Seq<char>>,
    pub runtime_install_progress: Option<(u64, Option<u64>)>,
    pub runtime_installing: bool,
    pub runtime_path: Seq<char>,
    pub remote_runtime_status: Option<Seq<char>>,
    pub remote_list_loading: bool,
    pub remote_downloaded: Seq<ModelInfo>,
    pub remote_running_model_id: Option<Seq<char>>,
}

impl View for LocalModelsPanel {
    type V = PanelView;

    open spec fn view(&self) -> PanelView {
        PanelView {
            search_loading: self.search_loading,
            search_results: self.search_results@,
            search_error: opt_view(self.search_error),
            files_loading: self.files_loading,
            selected_repo: self.selected_repo@,
            selected_file: self.selected_file@,
            gguf_files: strings_view(self.gguf_files@),
            files_error: opt_view(self.files_error),
            download_label: self.download_label@,
            download_progress: self.download_progress,
            downloading: self.downloading,
            runtime_status: opt_view(self.runtime_status),
            runtime_install_progress: self.runtime_install_progress,
            runtime_installing: self.runtime_installing,
            runtime_path: self.runtime_path@,
            remote_runtime_status: opt_view(self.remote_runtime_status),
            remote_list_loading: self.remote_list_loading,
            remote_downloaded: models_view(self.remote_downloaded@),
            remote_running_model_id: opt_view(self.remote_running_model_id),
        }
    }
}

/// The model list of one provider, by value.
pub struct FetchedView {
    pub models: Seq<Seq<char>>,
    pub loading: bool,
    pub error: Option<Seq<char>>,
}

/// The value of a provider's model list.
pub open spec fn fetched_view(f: FetchedModels) -> FetchedView {
    FetchedView { models: strings_view(f.models@), loading: f.loading, error: opt_view(f.error) }
}

/// What the app does once a report was taken in.
pub enum PanelAction {
    /// Nothing beyond repainting.
    Nothing,
    /// Reload the local manifest into the panel, then start this freshly downloaded model.
    ReloadManifestAndStart(DownloadedModel),
    /// Refresh both Hugging Face model pickers from the downloaded lists.
    RefreshModelChoices,
    /// Start this model on the SSH host.
    StartRemote(DownloadedModel),
    /// Make this remote model the provider's model and tell the user so.
    ActivateRemote { model: DownloadedModel, notice: String },
    /// Tell the user in the composer.
    Notify(String),
}

/// The status shown when the host runs a server whose model is not among the listed ones.
pub open spec fn unidentified_server_text() -> Seq<char> {
    "A llama-server is running on the SSH host, but its model could not be identified. Press Play on a model to replace it."@
}

/// The status and model-list error after the host's models could not be listed.
pub open spec fn list_error_text(e: Seq<char>) -> Seq<char> {
    "Could not list models on SSH host: "@ + e
}

/// The id of the first model stored at `path`.
pub open spec fn id_at_path(ms: Seq<ModelInfo>, path: Seq<char>) -> Option<Seq<char>>
    decreases ms.len(),
{
    if ms.len() == 0 {
        None
    } else if ms[0].path == path {
        Some(ms[0].id)
    } else {
        id_at_path(ms.drop_first(), path)
    }
}

/// The ids of the models, in order.
pub open spec fn model_ids(ms: Seq<ModelInfo>) -> Seq<Seq<char>> {
    ms.map_values(|m: ModelInfo| m.id)
}

/// The panel after a fresh listing of the host's models: the list replaces the old one,
/// a stale listing error is cleared, and on an SSH host the running model is adopted (by
/// the path the server was started with) or reported as unidentified.
pub open spec fn panel_listed(p: PanelView, remote_ssh: bool, list: RemoteModelList) -> PanelView {
    let models = models_view(list.models@);
    let kept_status = match p.remote_runtime_status {
        Some(s) => if starts_with(s, "Could not list models"@) {
            None
        } else {
            Some(s)
        },
        None => None,
    };
    let running = if remote_ssh {
        match list.running_path {
            Some(rp) => if rp@.len() > 0 {
                id_at_path(models, rp@)
            } else {
                None
            },
            None => None,
        }
    } else {
        p.remote_running_model_id
    };
    let status = if remote_ssh && (list.running_path matches Some(rp) && rp@.len() == 0) {
        Some(unidentified_server_text())
    } else {
        kept_status
    };
    PanelView {
        remote_list_loading: false,
        remote_downloaded: models,
        remote_running_model_id: running,
        remote_runtime_status: status,
        ..p
    }
}

/// The panel after taking in `msg`; `remote_ssh` tells whether the remote provider runs on
/// an SSH host.
pub open spec fn panel_after(p: PanelView, remote_ssh: bool, msg: LocalModelMsg) -> PanelView {
    match msg {
        LocalModelMsg::Search(r) => match r {
            Ok(v) => PanelView { search_loading: false, search_results: v@, search_error: None, ..p },
            Err(e) => PanelView { search_loading: false, search_error: Some(e@), ..p },
        },
        LocalModelMsg::Files { repo, result } => match result {
            Ok(v) => PanelView {
                files_loading: false,
                selected_repo: repo@,
                selected_file: if v@.len() > 0 {
                    v@[0]@
                } else {
                    Seq::empty()
                },
                gguf_files: strings_view(v@),
                files_error: None,
                ..p
            },
            Err(e) => PanelView {
                files_loading: false,
                selected_repo: repo@,
                files_error: Some(e@),
                ..p
            },
        },
        LocalModelMsg::DownloadProgress { id, downloaded, total } => PanelView {
            download_label: id@,
            download_progress: Some((downloaded, total)),
            ..p
        },
        LocalModelMsg::DownloadDone(r) => match r {
            Ok(_) => PanelView { downloading: false, ..p },
            Err(e) => PanelView {
                downloading: false,
                runtime_status: Some("Download failed: "@ + e@),
                ..p
            },
        },
        LocalModelMsg::RuntimeInstallProgress { downloaded, total } => PanelView {
            runtime_install_progress: Some((downloaded, total)),
            ..p
        },
        LocalModelMsg::RuntimeInstallDone(r) => match r {
            Ok(path) => PanelView {
                runtime_installing: false,
                runtime_path: path@,
                runtime_status: Some("Runtime installed: "@ + path@),
                ..p
            },
            Err(e) => PanelView {
                runtime_installing: false,
                runtime_status: Some("Runtime install failed: "@ + e@),
                ..p
            },
        },
        LocalModelMsg::RemoteRuntimeInstallDone(r) => PanelView {
            runtime_installing: false,
            remote_runtime_status: Some(
                match r {
                    Ok(path) => "Remote runtime installed: "@ + path@,
                    Err(e) => "Remote runtime install failed: "@ + e@,
                },
            ),
            ..p
        },
        LocalModelMsg::RemoteDownloadDone(r) => match r {
            Ok(m) => PanelView {
                downloading: false,
                remote_downloaded: upserted(p.remote_downloaded, m@),
                ..p
            },
            Err(e) => PanelView {
                downloading: false,
                remote_runtime_status: Some("Remote download failed: "@ + e@),
                ..p
            },
        },
        LocalModelMsg::RemoteStartDone { model, result } => match result {
            Ok(text) => PanelView {
                remote_running_model_id: Some(model.id@),
                remote_runtime_status: Some(text@),
                ..p
            },
            Err(e) => PanelView {
                remote_running_model_id: None,
                remote_runtime_status: Some("Remote start failed: "@ + e@),
                ..p
            },
        },
        LocalModelMsg::RemoteStopDone(r) => PanelView {
            remote_running_model_id: None,
            remote_runtime_status: Some(
                match r {
                    Ok(s) => "Remote runtime "@ + s@,
                    Err(e) => "Remote stop failed: "@ + e@,
                },
            ),
            ..p
        },
        LocalModelMsg::RemoteListDone(r) => match r {
            Ok(list) => panel_listed(p, remote_ssh, list),
            Err(e) => PanelView {
                remote_list_loading: false,
                remote_runtime_status: Some(list_error_text(e@)),
                ..p
            },
        },
        LocalModelMsg::RemoteDeleteDone { id, result } => match result {
            Ok(_) => PanelView { remote_downloaded: without_id(p.remote_downloaded, id@), ..p },
            Err(e) => PanelView {
                remote_runtime_status: Some("Remote delete failed: "@ + e@),
                ..p
            },
        },
    }
}

/// The remote provider's model list after taking in `msg`: only a listing of the host
/// changes it.
pub open spec fn fetched_after(f: FetchedView, msg: LocalModelMsg) -> FetchedView {
    match msg {
        LocalModelMsg::RemoteListDone(r) => match r {
            Ok(list) => FetchedView {
                models: model_ids(models_view(list.models@)),
                loading: false,
                error: None,
            },
            Err(e) => FetchedView { loading: false, error: Some(list_error_text(e@)), ..f },
        },
        _ => f,
    }
}

/// `a` is what the app is asked to do after `msg`.
pub open spec fn action_for(msg: LocalModelMsg, a: PanelAction) -> bool {
    match msg {
        LocalModelMsg::DownloadDone(Ok(m)) => a == PanelAction::ReloadManifestAndStart(m),
        LocalModelMsg::RemoteListDone(Ok(_)) => a is RefreshModelChoices,
        LocalModelMsg::RemoteDownloadDone(Ok(m)) => a matches PanelAction::StartRemote(s) && s@ == m@,
        LocalModelMsg::RemoteStartDone { model, result } => match result {
            Ok(_) => a matches PanelAction::ActivateRemote { model: am, notice } && am@ == model@
                && notice@ == "Remote HF is now running "@ + model.id@ + "."@,
            Err(e) => a matches PanelAction::Notify(n) && n@ == "Could not switch Remote HF model: "@
                + e@,
        },
        _ => a is Nothing,
    }
}

/// `prefix` followed by `rest`.
fn joined(prefix: &str, rest: &str) -> (res: String)
    ensures
        res@ == prefix@ + rest@,
{
    let mut s = owned(prefix);
    push_str(&mut s, rest);
    s
}

/// The id of the first model in `ms` stored at `path`.
fn find_id_at_path(ms: &Vec<DownloadedModel>, path: &str) -> (res: Option<String>)
    ensures
        opt_view(res) == id_at_path(models_view(ms@), path@),
{
    let pc = chars_of(path);
    let ghost all = models_view(ms@);
    let mut i: usize = 0;
    assert(all.skip(0) =~= all);
    while i < ms.len()
        invariant
            i <= ms@.len(),
            all == models_view(ms@),
            pc@ == path@,
            id_at_path(all, path@) == id_at_path(all.skip(i as int), path@),
        decreases ms.len() - i,
    {
        let ghost rest = all.skip(i as int);
        assert(rest[0] == all[i as int]);
        assert(rest.drop_first() =~= all.skip(i + 1));
        if chars_eq(&chars_of(ms[i].path.as_str()), &pc) {
            return Some(ms[i].id.clone());
        }
        i = i + 1;
    }
    assert(all.skip(i as int) =~= Seq::<ModelInfo>::empty());
    None
}

/// The ids of the models, in order.
fn ids_of(ms: &Vec<DownloadedModel>) -> (res: Vec<String>)
    ensures
        strings_view(res@) == model_ids(models_view(ms@)),
{
    let mut out: Vec<String> = Vec::new();
    let mut i: usize = 0;
    while i < ms.len()
        invariant
            i <= ms@.len(),
            strings_view(out@) == model_ids(models_view(ms@)).take(i as int),
        decreases ms.len() - i,
    {
        let ghost o0 = out@;
        out.push(ms[i].id.clone());
        assert(strings_view(out@) =~= strings_view(o0).push(ms@[i as int].id@));
        assert(model_ids(models_view(ms@)).take(i + 1) =~= model_ids(models_view(ms@)).take(
            i as int,
        ).push(ms@[i as int].id@));
        i = i + 1;
    }
    assert(model_ids(models_view(ms@)).take(i as int) =~= model_ids(models_view(ms@)));
    out
}

/// Takes in a fresh listing of the host's models.
fn take_listing(
    panel: &mut LocalModelsPanel,
    remote_fetched: &mut FetchedModels,
    remote_ssh: bool,
    list: RemoteModelList,
)
    ensures
        final(panel)@ == panel_listed(old(panel)@, remote_ssh, list),
        fetched_view(*final(remote_fetched)) == (FetchedView {
            models: model_ids(models_view(list.models@)),
            loading: false,
            error: None,
        }),
{
    let ghost old_list = list;
    panel.remote_list_loading = false;
    let stale = match &panel.remote_runtime_status {
        Some(s) => starts_with_exec(&chars_of(s.as_str()), &chars_of("Could not list models")),
        None => false,
    };
    if stale {
        panel.remote_runtime_status = None;
    }
    let RemoteModelList { models, running_path } = list;
    remote_fetched.loading = false;
    remote_fetched.error = None;
    remote_fetched.models = ids_of(&models);
    if remote_ssh {
        let running = match &running_path {
            Some(rp) => if rp.as_str().is_empty() {
                None
            } else {
                find_id_at_path(&models, rp.as_str())
            },
            None => None,
        };
        panel.remote_running_model_id = running;
        let unidentified = match &running_path {
            Some(rp) => rp.as_str().is_empty(),
            None => false,
        };
        if unidentified {
            panel.remote_runtime_status = Some(
                owned(
                    "A llama-server is running on the SSH host, but its model could not be identified. Press Play on a model to replace it.",
                ),
            );
        }
    }
    panel.remote_downloaded = models;
}

/// Takes in one report of background model work: updates the panel and, for a listing of
/// the host, the remote provider's model list, and says what the app does next.
pub fn apply_local_model_msg(
    panel: &mut LocalModelsPanel,
    remote_fetched: &mut FetchedModels,
    remote_ssh: bool,
    msg: LocalModelMsg,
) -> (action: PanelAction)
    ensures
        final(panel)@ == panel_after(old(panel)@, remote_ssh, msg),
        fetched_view(*final(remote_fetched)) == fetched_after(fetched_view(*old(remote_fetched)), msg),
        action_for(msg, action),
{
    let ghost m0 = msg;
    match msg {
        LocalModelMsg::Search(r) => {
            panel.search_loading = false;
            match r {
                Ok(v) => {
                    panel.search_results = v;
                    panel.search_error = None;
                },
                Err(e) => {
                    panel.search_error = Some(e);
                },
            }
            PanelAction::Nothing
        },
        LocalModelMsg::Files { repo, result } => {
            panel.files_loading = false;
            panel.selected_repo = repo;
            match result {
                Ok(v) => {
                    panel.selected_file = if v.len() > 0 {
                        v[0].clone()
                    } else {
                        String::new()
                    };
                    panel.gguf_files = v;
                    panel.files_error = None;
                },
                Err(e) => {
                    panel.files_error = Some(e);
                },
            }
            PanelAction::Nothing
        },
        LocalModelMsg::DownloadProgress { id, downloaded, total } => {
            panel.download_label = id;
            panel.download_progress = Some((downloaded, total));
            PanelAction::Nothing
        },
        LocalModelMsg::DownloadDone(r) => {
            panel.downloading = false;
            match r {
                Ok(m) => PanelAction::ReloadManifestAndStart(m),
                Err(e) => {
                    panel.runtime_status = Some(joined("Download failed: ", e.as_str()));
                    PanelAction::Nothing
                },
            }
        },
        LocalModelMsg::RuntimeInstallProgress { downloaded, total } => {
            panel.runtime_install_progress = Some((downloaded, total));
            PanelAction::Nothing
        },
        LocalModelMsg::RuntimeInstallDone(r) => {
            panel.runtime_installing = false;
            match r {
                Ok(path) => {
                    panel.runtime_status = Some(joined("Runtime installed: ", path.as_str()));
                    panel.runtime_path = path;
                },
                Err(e) => {
                    panel.runtime_status = Some(joined("Runtime install failed: ", e.as_str()));
                },
            }
            PanelAction::Nothing
        },
        LocalModelMsg::RemoteRuntimeInstallDone(r) => {
            panel.runtime_installing = false;
            panel.remote_runtime_status = Some(
                match r {
                    Ok(path) => joined("Remote runtime installed: ", path.as_str()),
                    Err(e) => joined("Remote runtime install failed: ", e.as_str()),
                },
            );
            PanelAction::Nothing
        },
        LocalModelMsg::RemoteDownloadDone(r) => {
            panel.downloading = false;
            match r {
                Ok(m) => {
                    let start = m.clone();
                    let mut list = LocalModelManifest { models: Vec::new() };
                    std::mem::swap(&mut list.models, &mut panel.remote_downloaded);
                    upsert_downloaded(&mut list, m);
                    std::mem::swap(&mut list.models, &mut panel.remote_downloaded);
                    PanelAction::StartRemote(start)
                },
                Err(e) => {
                    panel.remote_runtime_status = Some(joined("Remote download failed: ", e.as_str()));
                    PanelAction::Nothing
                },
            }
        },
        LocalModelMsg::RemoteStartDone { model, result } => {
            match result {
                Ok(text) => {
                    panel.remote_running_model_id = Some(model.id.clone());
                    panel.remote_runtime_status = Some(text);
                    let mut notice = joined("Remote HF is now running ", model.id.as_str());
                    push_str(&mut notice, ".");
                    PanelAction::ActivateRemote { model, notice }
                },
                Err(e) => {
                    panel.remote_running_model_id = None;
                    panel.remote_runtime_status = Some(joined("Remote start failed: ", e.as_str()));
                    PanelAction::Notify(joined("Could not switch Remote HF model: ", e.as_str()))
                },
            }
        },
        LocalModelMsg::RemoteStopDone(r) => {
            panel.remote_running_model_id = None;
            panel.remote_runtime_status = Some(
                match r {
                    Ok(s) => joined("Remote runtime ", s.as_str()),
                    Err(e) => joined("Remote stop failed: ", e.as_str()),
                },
            );
            PanelAction::Nothing
        },
        LocalModelMsg::RemoteListDone(r) => {
            match r {
                Ok(list) => {
                    take_listing(panel, remote_fetched, remote_ssh, list);
                    PanelAction::RefreshModelChoices
                },
                Err(e) => {
                    panel.remote_list_loading = false;
                    let message = joined("Could not list models on SSH host: ", e.as_str());
                    panel.remote_runtime_status = Some(message.clone());
                    remote_fetched.loading = false;
                    remote_fetched.error = Some(message);
                    PanelAction::Nothing
                },
            }
        },
        LocalModelMsg::RemoteDeleteDone { id, result } => {
            match result {
                Ok(_) => {
                    let mut list = LocalModelManifest { models: Vec::new() };
                    std::mem::swap(&mut list.models, &mut panel.remote_downloaded);
                    let _removed = take_downloaded(&mut list, id.as_str());
                    std::mem::swap(&mut list.models, &mut panel.remote_downloaded);
                },
                Err(e) => {
                    panel.remote_runtime_status = Some(joined("Remote delete failed: ", e.as_str()));
                },
            }
            PanelAction::Nothing
        },
    }
}

/// The model `id_at_path` finds is one stored at that path.
proof fn lemma_id_at_path(ms: Seq<ModelInfo>, path: Seq<char>)
    ensures
        id_at_path(ms, path) matches Some(id) ==> exists|i: int|
            0 <= i < ms.len() && #[trigger] ms[i].path == path && ms[i].id == id,
    decreases ms.len(),
{
    if ms.len() > 0 && ms[0].path != path {
        lemma_id_at_path(ms.drop_first(), path);
        if let Some(id) = id_at_path(ms, path) {
            let i = choose|i: int|
                0 <= i < ms.drop_first().len() && #[trigger] ms.drop_first()[i].path == path
                    && ms.drop_first()[i].id == id;
            assert(ms[i + 1] == ms.drop_first()[i]);
        }
    }
}

/// Law: a successful listing of the host supersedes the error of a failed one; the
/// status is clear afterwards unless the host runs a server whose model is unknown.
pub proof fn law_listing_clears_listing_error(
    p: PanelView,
    remote_ssh: bool,
    e: String,
    list: RemoteModelList,
)
    requires
        !(remote_ssh && (list.running_path matches Some(rp) && rp@.len() == 0)),
    ensures
        panel_after(
            panel_after(p, remote_ssh, LocalModelMsg::RemoteListDone(Err(e))),
            remote_ssh,
            LocalModelMsg::RemoteListDone(Ok(list)),
        ).remote_runtime_status is None,
{
    reveal_strlit("Could not list models on SSH host: ");
    reveal_strlit("Could not list models");
    let t = list_error_text(e@);
    assert(t.subrange(0, 21) =~= "Could not list models"@);
}

/// Law: after a successful listing the remote model picker offers exactly the listed
/// models, in the panel's order.
pub proof fn law_listing_feeds_the_picker(
    p: PanelView,
    f: FetchedView,
    remote_ssh: bool,
    list: RemoteModelList,
)
    ensures
        fetched_after(f, LocalModelMsg::RemoteListDone(Ok(list))).models == model_ids(
            panel_after(p, remote_ssh, LocalModelMsg::RemoteListDone(Ok(list))).remote_downloaded,
        ),
        !fetched_after(f, LocalModelMsg::RemoteListDone(Ok(list))).loading,
        fetched_after(f, LocalModelMsg::RemoteListDone(Ok(list))).error is None,
{
}

/// Law: on an SSH host, the model a listing marks as running is a listed model stored at
/// the path the server was started with.
pub proof fn law_adopted_model_is_listed(p: PanelView, list: RemoteModelList)
    ensures
        panel_after(p, true, LocalModelMsg::RemoteListDone(Ok(list))).remote_running_model_id matches Some(
            id,
        ) ==> list.running_path matches Some(rp) && exists|i: int|
            0 <= i < list.models@.len() && #[trigger] list.models@[i].path@ == rp@
                && list.models@[i].id@ == id,
{
    let ms = models_view(list.models@);
    if let Some(rp) = list.running_path {
        lemma_id_at_path(ms, rp@);
        if let Some(id) = id_at_path(ms, rp@) {
            let i = choose|i: int| 0 <= i < ms.len() && #[trigger] ms[i].path == rp@ && ms[i].id == id;
            assert(ms[i] == list.models@[i]@);
        }
    }
}

} // verus!
