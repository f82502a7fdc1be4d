//! The unified secrets blob that the OS keychain holds: OAuth tokens, SSH passwords and
//! the GitHub token, saved and loaded as one record.

use vstd::prelude::*;

use crate::compute::{loaded_ssh, SshCredentialStore};
use crate::oauth::{loaded_oauth, OAuthStore};

verus! {

/// The secrets kept together in the keychain.
pub struct UnifiedSecrets {
    pub oauth: OAuthStore,
    pub ssh: SshCredentialStore,
    pub github_token: String,
}

/// Puts the SSH passwords into the secrets blob that is written back to the keychain; the
/// other secrets are kept.
pub fn save_ssh_credentials(unified: &mut UnifiedSecrets, store: SshCredentialStore)
    ensures
        final(unified).ssh@ == store@,
        final(unified).oauth == old(unified).oauth,
        final(unified).github_token == old(unified).github_token,
{
    unified.ssh = store;
}

/// Puts the OAuth store into the secrets blob that is written back to the keychain; the
/// other secrets are kept. Tokens are not written to a plaintext `oauth.json`: such a file
/// is only read, as the legacy source that `load_oauth_store` migrates from.
pub fn save_oauth_store(unified: &mut UnifiedSecrets, store: OAuthStore)
    ensures
        final(unified).oauth == store,
        final(unified).ssh@ == old(unified).ssh@,
        final(unified).github_token == old(unified).github_token,
{
    unified.oauth = store;
}

/// Law: SSH passwords that were saved are what loading gives back, whatever legacy file
/// is still around, as long as any password was saved.
pub proof fn law_ssh_load_after_save(
    saved: Map<Seq<char>, Seq<char>>,
    legacy: Option<Map<Seq<char>, Seq<char>>>,
)
    requires
        saved != Map::<Seq<char>, Seq<char>>::empty(),
    ensures
        loaded_ssh(saved, legacy) == saved,
{
}

/// Law: a saved Codex sign-in is what loading gives back, whatever legacy file is still
/// around.
pub proof fn law_oauth_load_after_save(saved: OAuthStore, legacy: Option<OAuthStore>)
    requires
        saved.openai_codex is Some,
    ensures
        loaded_oauth(saved, legacy) == saved,
{
}

} // verus!
