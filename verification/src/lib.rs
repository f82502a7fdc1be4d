//! Core logic of the oxi chat client: conversation model, credential stores,
//! local/remote model runtime helpers and OAuth helpers.

pub mod text;
pub mod compute;
pub mod git;
pub mod composer;
pub mod hydrate;
pub mod json;
pub mod local_models;
pub mod local_models_panel;
pub mod local_models_remote;
pub mod markdown;
pub mod mentions;
pub mod model;
pub mod oauth;
pub mod remote_scripts;
pub mod runtime_archive;
pub mod secrets;
pub mod settings_input;
pub mod sessions;
pub mod state;
pub mod streaming;
