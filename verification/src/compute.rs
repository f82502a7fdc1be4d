//! Remote compute targets: SSH password store and the outcomes of SSH commands and tunnels.

use vstd::prelude::*;

use crate::text::{
    chars_eq, chars_of, decimal, decimal_exec, is_blank, is_blank_exec, owned, push_chars, push_str,
};

verus! {

/// SSH passwords of remote compute targets, keyed by provider slug (older entries may still
/// be keyed by profile id). Each key occurs at most once.
#[derive(Debug)]
pub struct SshCredentialStore {
    passwords: Vec<(String, String)>,
}

/// No two entries share a key.
pub open spec fn keys_unique(ps: Seq<(String, String)>) -> bool {
    forall|i: int, j: int| 0 <= i < ps.len() && 0 <= j < ps.len() && i != j ==> #[trigger] ps[i].0@ != #[trigger] ps[j].0@
}

/// Some entry has key `k`.
pub open spec fn has_key(ps: Seq<(String, String)>, k: Seq<char>) -> bool {
    exists|i: int| 0 <= i < ps.len() && #[trigger] ps[i].0@ == k
}

/// The entries as a map from key to password.
pub open spec fn entries_map(ps: Seq<(String, String)>) -> Map<Seq<char>, Seq<char>> {
    Map::new(
        |k: Seq<char>| has_key(ps, k),
        |k: Seq<char>| ps[choose|i: int| 0 <= i < ps.len() && #[trigger] ps[i].0@ == k].1@,
    )
}

impl SshCredentialStore {
    #[verifier::type_invariant]
    spec fn inv(self) -> bool {
        keys_unique(self.passwords@)
    }
}

impl View for SshCredentialStore {
    type V = Map<Seq<char>, Seq<char>>;

    /// The passwords, by key.
    closed spec fn view(&self) -> Map<Seq<char>, Seq<char>> {
        entries_map(self.passwords@)
    }
}

proof fn lemma_lookup(ps: Seq<(String, String)>, i: int)
    requires
        keys_unique(ps),
        0 <= i < ps.len(),
    ensures
        entries_map(ps).contains_key(ps[i].0@),
        entries_map(ps)[ps[i].0@] == ps[i].1@,
{
    let k = ps[i].0@;
    assert(has_key(ps, k));
    let c = choose|j: int| 0 <= j < ps.len() && #[trigger] ps[j].0@ == k;
    assert(c == i);
}

impl Clone for SshCredentialStore {
    fn clone(&self) -> (res: SshCredentialStore)
        ensures
            res@ == self@,
    {
        proof {
            use_type_invariant(self);
        }
        let mut ps: Vec<(String, String)> = Vec::new();
        let mut i: usize = 0;
        while i < self.passwords.len()
            invariant
                i <= self.passwords@.len(),
                ps@ == self.passwords@.take(i as int),
            decreases self.passwords.len() - i,
        {
            let k = self.passwords[i].0.clone();
            let v = self.passwords[i].1.clone();
            ps.push((k, v));
            assert(ps@ =~= self.passwords@.take(i + 1));
            i = i + 1;
        }
        assert(self.passwords@.take(self.passwords@.len() as int) == self.passwords@);
        SshCredentialStore { passwords: ps }
    }
}

impl Default for SshCredentialStore {
    fn default() -> (res: SshCredentialStore)
        ensures
            res@ == Map::<Seq<char>, Seq<char>>::empty(),
    {
        let res = SshCredentialStore { passwords: Vec::new() };
        assert(res@ =~= Map::<Seq<char>, Seq<char>>::empty());
        res
    }
}

impl SshCredentialStore {
    /// Whether no password is stored.
    pub fn is_empty(&self) -> (res: bool)
        ensures
            res == (self@ == Map::<Seq<char>, Seq<char>>::empty()),
    {
        proof {
            use_type_invariant(self);
        }
        if self.passwords.len() == 0 {
            assert(self@ =~= Map::<Seq<char>, Seq<char>>::empty());
            true
        } else {
            proof {
                lemma_lookup(self.passwords@, 0);
                assert(!Map::<Seq<char>, Seq<char>>::empty().contains_key(self.passwords@[0].0@));
            }
            false
        }
    }
}

/// The passwords that loading yields: the keychain's when it holds any, else those of the
/// migrated legacy file when there is one, else the keychain's (empty) store.
pub open spec fn loaded_ssh(
    keychain: Map<Seq<char>, Seq<char>>,
    legacy: Option<Map<Seq<char>, Seq<char>>>,
) -> Map<Seq<char>, Seq<char>> {
    if keychain != Map::<Seq<char>, Seq<char>>::empty() {
        keychain
    } else {
        match legacy {
            Some(l) => l,
            None => keychain,
        }
    }
}

/// Loads the SSH passwords from the keychain's store and, when it is empty, the legacy
/// file's.
pub fn load_ssh_credentials(keychain: SshCredentialStore, legacy: Option<SshCredentialStore>) -> (res:
    SshCredentialStore)
    ensures
        res@ == loaded_ssh(
            keychain@,
            match legacy {
                Some(l) => Some(l@),
                None => None,
            },
        ),
{
    if !keychain.is_empty() {
        return keychain;
    }
    match legacy {
        Some(l) => l,
        None => keychain,
    }
}

impl SshCredentialStore {
    /// The password stored under `key`.
    pub fn get(&self, key: &str) -> (res: Option<&str>)
        ensures
            match res {
                Some(p) => self@.contains_key(key@) && self@[key@] == p@,
                None => !self@.contains_key(key@),
            },
    {
        proof {
            use_type_invariant(self);
        }
        match self.position_in(&self.passwords, key) {
            Some(i) => {
                proof {
                    lemma_lookup(self.passwords@, i as int);
                }
                Some(self.passwords[i].1.as_str())
            },
            None => None,
        }
    }

    /// Stores `password` under `key`, replacing any earlier password for it.
    pub fn set(&mut self, key: &str, password: &str)
        ensures
            final(self)@ == old(self)@.insert(key@, password@),
    {
        proof {
            use_type_invariant(&*self);
        }
        let ghost before = self.passwords@;
        let entry = (owned(key), owned(password));
        let mut ps: Vec<(String, String)> = Vec::new();
        std::mem::swap(&mut ps, &mut self.passwords);
        proof {
            assert(ps@ == before);
        }
        match self.position_in(&ps, key) {
            Some(i) => {
                ps.set(i, entry);
                proof {
                    assert forall|a: int, b: int|
                        0 <= a < ps@.len() && 0 <= b < ps@.len() && a != b implies #[trigger] ps@[a].0@
                        != #[trigger] ps@[b].0@ by {
                        if a != i && b != i {
                            assert(ps@[a] == before[a] && ps@[b] == before[b]);
                        } else if a == i {
                            assert(ps@[b] == before[b]);
                        } else {
                            assert(ps@[a] == before[a]);
                        }
                    }
                    assert forall|k: Seq<char>| has_key(ps@, k) <==> has_key(before, k) || k == key@ by {
                        if has_key(ps@, k) {
                            let j = choose|j: int| 0 <= j < ps@.len() && #[trigger] ps@[j].0@ == k;
                            if j != i {
                                assert(before[j].0@ == k);
                            }
                        }
                        if has_key(before, k) {
                            let j = choose|j: int| 0 <= j < before.len() && #[trigger] before[j].0@ == k;
                            if j != i {
                                assert(ps@[j].0@ == k);
                            } else {
                                assert(ps@[i as int].0@ == k);
                            }
                        }
                        if k == key@ {
                            assert(ps@[i as int].0@ == k);
                        }
                    }
                    assert forall|k: Seq<char>| #[trigger] has_key(ps@, k) implies entries_map(ps@)[k]
                        == entries_map(before).insert(key@, password@)[k] by {
                        let j = choose|j: int| 0 <= j < ps@.len() && #[trigger] ps@[j].0@ == k;
                        lemma_lookup(ps@, j);
                        if j != i {
                            assert(ps@[j] == before[j]);
                            assert(ps@[j].0@ != ps@[i as int].0@);
                            lemma_lookup(before, j);
                        } else {
                            assert(ps@[i as int].1@ == password@);
                        }
                    }
                    assert forall|k: Seq<char>| #[trigger] entries_map(ps@).dom().contains(k)
                        <==> entries_map(before).insert(key@, password@).dom().contains(k) by {
                        assert(entries_map(ps@).dom().contains(k) == has_key(ps@, k));
                        assert(entries_map(before).dom().contains(k) == has_key(before, k));
                    }
                    assert(entries_map(ps@) =~= entries_map(before).insert(key@, password@));
                }
            },
            None => {
                ps.push(entry);
                proof {
                    assert forall|a: int, b: int|
                        0 <= a < ps@.len() && 0 <= b < ps@.len() && a != b implies #[trigger] ps@[a].0@
                        != #[trigger] ps@[b].0@ by {
                        if a < before.len() && b < before.len() {
                            assert(ps@[a] == before[a] && ps@[b] == before[b]);
                        } else if a < before.len() {
                            assert(ps@[a] == before[a]);
                            assert(has_key(before, ps@[a].0@));
                        } else {
                            assert(ps@[b] == before[b]);
                            assert(has_key(before, ps@[b].0@));
                        }
                    }
                    let n = before.len() as int;
                    assert forall|k: Seq<char>| has_key(ps@, k) <==> has_key(before, k) || k == key@ by {
                        if has_key(ps@, k) {
                            let j = choose|j: int| 0 <= j < ps@.len() && #[trigger] ps@[j].0@ == k;
                            if j < n {
                                assert(before[j].0@ == k);
                            }
                        }
                        if has_key(before, k) {
                            let j = choose|j: int| 0 <= j < before.len() && #[trigger] before[j].0@ == k;
                            assert(ps@[j].0@ == k);
                        }
                        if k == key@ {
                            assert(ps@[n].0@ == k);
                        }
                    }
                    assert forall|k: Seq<char>| #[trigger] has_key(ps@, k) implies entries_map(ps@)[k]
                        == entries_map(before).insert(key@, password@)[k] by {
                        let j = choose|j: int| 0 <= j < ps@.len() && #[trigger] ps@[j].0@ == k;
                        lemma_lookup(ps@, j);
                        if j < n {
                            assert(ps@[j] == before[j]);
                            assert(has_key(before, ps@[j].0@));
                            lemma_lookup(before, j);
                        } else {
                            assert(ps@[n].1@ == password@);
                            assert(ps@[n].0@ == key@);
                        }
                    }
                    assert(entries_map(ps@) =~= entries_map(before).insert(key@, password@));
                }
            },
        }
        self.passwords = ps;
    }

    /// The position of the entry with key `key` in `ps`.
    fn position_in(&self, ps: &Vec<(String, String)>, key: &str) -> (res: Option<usize>)
        ensures
            match res {
                Some(i) => i < ps@.len() && ps@[i as int].0@ == key@,
                None => !has_key(ps@, key@),
            },
    {
        let kc = chars_of(key);
        let mut i: usize = 0;
        while i < ps.len()
            invariant
                i <= ps@.len(),
                kc@ == key@,
                forall|j: int| 0 <= j < i ==> #[trigger] ps@[j].0@ != key@,
            decreases ps.len() - i,
        {
            if chars_eq(&chars_of(ps[i].0.as_str()), &kc) {
                return Some(i);
            }
            i = i + 1;
        }
        None
    }

    /// Forgets the password stored under `key`.
    pub fn clear(&mut self, key: &str)
        ensures
            final(self)@ == old(self)@.remove(key@),
    {
        proof {
            use_type_invariant(&*self);
        }
        let ghost before = self.passwords@;
        let mut ps: Vec<(String, String)> = Vec::new();
        std::mem::swap(&mut ps, &mut self.passwords);
        proof {
            assert(ps@ == before);
        }
        match self.position_in(&ps, key) {
            Some(i) => {
                ps.remove(i);
                proof {
                    assert forall|a: int| 0 <= a < ps@.len() implies #[trigger] ps@[a] == before[if a
                        < i {
                        a
                    } else {
                        a + 1
                    }] by {}
                    assert forall|a: int, b: int|
                        0 <= a < ps@.len() && 0 <= b < ps@.len() && a != b implies #[trigger] ps@[a].0@
                        != #[trigger] ps@[b].0@ by {
                        let a2 = if a < i {
                            a
                        } else {
                            a + 1
                        };
                        let b2 = if b < i {
                            b
                        } else {
                            b + 1
                        };
                        assert(ps@[a] == before[a2] && ps@[b] == before[b2]);
                    }
                    assert forall|k: Seq<char>| has_key(ps@, k) <==> has_key(before, k) && k != key@ by {
                        if has_key(ps@, k) {
                            let j = choose|j: int| 0 <= j < ps@.len() && #[trigger] ps@[j].0@ == k;
                            let j2 = if j < i {
                                j
                            } else {
                                j + 1
                            };
                            assert(ps@[j] == before[j2]);
                            assert(before[j2].0@ == k);
                        }
                        if has_key(before, k) && k != key@ {
                            let j = choose|j: int| 0 <= j < before.len() && #[trigger] before[j].0@ == k;
                            assert(j != i);
                            let j2 = if j < i {
                                j
                            } else {
                                j - 1
                            };
                            assert(ps@[j2] == before[j]);
                            assert(ps@[j2].0@ == k);
                        }
                    }
                    assert forall|k: Seq<char>| #[trigger] has_key(ps@, k) implies entries_map(ps@)[k]
                        == entries_map(before)[k] by {
                        let j = choose|j: int| 0 <= j < ps@.len() && #[trigger] ps@[j].0@ == k;
                        let j2 = if j < i {
                            j
                        } else {
                            j + 1
                        };
                        lemma_lookup(ps@, j);
                        assert(ps@[j] == before[j2]);
                        lemma_lookup(before, j2);
                    }
                    assert(entries_map(ps@) =~= entries_map(before).remove(key@));
                }
            },
            None => {
                assert(entries_map(ps@) =~= entries_map(before).remove(key@));
            },
        }
        self.passwords = ps;
    }
}

/// Law: a password reads back as it was stored.
pub proof fn law_get_after_set(m: Map<Seq<char>, Seq<char>>, key: Seq<char>, pw: Seq<char>)
    ensures
        m.insert(key, pw).contains_key(key),
        m.insert(key, pw)[key] == pw,
{
}

/// Law: storing under one key leaves every other key as it was.
pub proof fn law_set_keeps_other_keys(
    m: Map<Seq<char>, Seq<char>>,
    key: Seq<char>,
    pw: Seq<char>,
    other: Seq<char>,
)
    requires
        other != key,
    ensures
        m.insert(key, pw).contains_key(other) == m.contains_key(other),
        m.contains_key(other) ==> m.insert(key, pw)[other] == m[other],
{
}

/// Law: a cleared key reads back as absent, and clearing undoes storing under a new key.
pub proof fn law_clear_after_set(m: Map<Seq<char>, Seq<char>>, key: Seq<char>, pw: Seq<char>)
    ensures
        !m.insert(key, pw).remove(key).contains_key(key),
        !m.contains_key(key) ==> m.insert(key, pw).remove(key) == m,
{
    assert(!m.contains_key(key) ==> m.insert(key, pw).remove(key) =~= m);
}

/// The password for a provider slug, falling back to a second slug used by older builds,
/// or empty when neither is stored.
pub open spec fn password_with_fallback(
    creds: Map<Seq<char>, Seq<char>>,
    primary: Seq<char>,
    fallback: Seq<char>,
) -> Seq<char> {
    if creds.contains_key(primary) {
        creds[primary]
    } else if creds.contains_key(fallback) {
        creds[fallback]
    } else {
        Seq::empty()
    }
}

/// Output of a command run over SSH.
#[derive(Debug, Clone)]
pub struct RemoteOutput {
    pub status: u32,
    pub stdout: String,
    pub stderr: String,
    pub host_key_fingerprint: String,
}

/// Outcome of a successful tunnel connect.
#[derive(Debug, Clone)]
pub struct TunnelSuccess {
    /// Local `127.0.0.1` port forwarding to the remote runtime.
    pub local_port: u16,
    /// SHA-256 fingerprint ("SHA256:<base64>") of the host key the server presented.
    pub host_key_fingerprint: String,
}

/// Why a tunnel connect failed. A host key mismatch is distinguished so the UI can offer to
/// accept the new key.
#[derive(Debug, Clone)]
pub enum TunnelError {
    HostKeyMismatch { pinned: String, observed: String },
    Other(String),
}

/// The user-facing message of a tunnel error.
pub open spec fn tunnel_error_message(e: TunnelError) -> Seq<char> {
    match e {
        TunnelError::HostKeyMismatch { pinned, observed } => "SSH host key mismatch: pinned "@
            + pinned@ + ", server presented "@ + observed@
            + ". If the host was reinstalled, accept the new key in Settings."@,
        TunnelError::Other(m) => m@,
    }
}

impl TunnelError {
    /// The user-facing message (what `Display` prints).
    pub fn to_message(&self) -> (res: String)
        ensures
            res@ == tunnel_error_message(*self),
    {
        match self {
            TunnelError::HostKeyMismatch { pinned, observed } => {
                let mut s = owned("SSH host key mismatch: pinned ");
                push_str(&mut s, pinned.as_str());
                push_str(&mut s, ", server presented ");
                push_str(&mut s, observed.as_str());
                push_str(&mut s, ". If the host was reinstalled, accept the new key in Settings.");
                s
            },
            TunnelError::Other(m) => owned(m.as_str()),
        }
    }
}

/// An optional string by its characters.
pub open spec fn str_opt(o: Option<&str>) -> Option<Seq<char>> {
    match o {
        Some(s) => Some(s@),
        None => None,
    }
}

/// Trust-on-first-use: a presented host key is accepted when nothing is pinned yet or it
/// equals the pinned fingerprint.
pub open spec fn key_accepted(pinned: Option<Seq<char>>, presented: Seq<char>) -> bool {
    match pinned {
        None => true,
        Some(p) => p == presented,
    }
}

/// The host-key check of trust-on-first-use: accept when nothing is pinned yet or the
/// presented fingerprint equals the pinned one.
pub fn host_key_accepted(pinned: Option<&str>, presented: &str) -> (res: bool)
    ensures
        res == key_accepted(str_opt(pinned), presented@),
{
    match pinned {
        None => true,
        Some(p) => chars_eq(&chars_of(p), &chars_of(presented)),
    }
}

/// Why an SSH target cannot be tried at all: a blank host, then a blank user.
pub open spec fn ssh_target_problem(host: Seq<char>, user: Seq<char>) -> Option<Seq<char>> {
    if is_blank(host) {
        Some("SSH host is empty"@)
    } else if is_blank(user) {
        Some("SSH user is empty"@)
    } else {
        None
    }
}

/// The error an SSH command or tunnel fails with before connecting: `None` when host and
/// user are both set.
pub fn ssh_target_error(host: &str, user: &str) -> (res: Option<TunnelError>)
    ensures
        match ssh_target_problem(host@, user@) {
            None => res is None,
            Some(msg) => res matches Some(TunnelError::Other(m)) && m@ == msg,
        },
{
    proof {
        reveal_strlit("SSH host is empty");
        reveal_strlit("SSH user is empty");
    }
    if is_blank_exec(&chars_of(host)) {
        Some(TunnelError::Other(owned("SSH host is empty")))
    } else if is_blank_exec(&chars_of(user)) {
        Some(TunnelError::Other(owned("SSH user is empty")))
    } else {
        None
    }
}

/// The `host:port` address an SSH connection is opened to.
pub fn ssh_address(host: &str, port: u16) -> (res: String)
    ensures
        res@ == host@ + ":"@ + decimal(port as nat),
{
    let mut s = owned(host);
    push_str(&mut s, ":");
    push_chars(&mut s, &decimal_exec(port as u64));
    s
}

/// A failed handshake was caused by the host-key check: a key is pinned, the server
/// presented one, and they differ.
pub open spec fn refused_key(pinned: Option<Seq<char>>, observed: Option<Seq<char>>) -> bool {
    &&& pinned is Some
    &&& observed is Some
    &&& pinned->0 != observed->0
}

/// The error of a failed connect to `addr`: a host-key mismatch when the recorded
/// fingerprint differs from the pinned one, else the connect error itself.
pub fn connect_failure(pinned: Option<&str>, observed: Option<&str>, addr: &str, error: &str) -> (res:
    TunnelError)
    ensures
        refused_key(str_opt(pinned), str_opt(observed)) ==> (res matches TunnelError::HostKeyMismatch {
            pinned: p,
            observed: o,
        } && p@ == pinned->0@ && o@ == observed->0@),
        !refused_key(str_opt(pinned), str_opt(observed)) ==> (res matches TunnelError::Other(m) && m@
            == "SSH connect to "@ + addr@ + " failed: "@ + error@),
{
    if let (Some(p), Some(o)) = (pinned, observed) {
        if !chars_eq(&chars_of(p), &chars_of(o)) {
            return TunnelError::HostKeyMismatch { pinned: owned(p), observed: owned(o) };
        }
    }
    let mut m = owned("SSH connect to ");
    push_str(&mut m, addr);
    push_str(&mut m, " failed: ");
    push_str(&mut m, error);
    TunnelError::Other(m)
}

/// Law: a failed connect is reported as a host-key mismatch exactly when the key the
/// server presented would be refused by the trust-on-first-use check, and never when no
/// key was recorded.
pub proof fn law_mismatch_iff_key_refused(pinned: Option<Seq<char>>, presented: Seq<char>)
    ensures
        refused_key(pinned, Some(presented)) == !key_accepted(pinned, presented),
        !refused_key(pinned, None),
{
}

/// The error when the password was not accepted.
pub fn auth_rejected() -> (res: TunnelError)
    ensures
        res matches TunnelError::Other(m) && m@ == "SSH authentication rejected (check user/password)"@,
{
    TunnelError::Other(owned("SSH authentication rejected (check user/password)"))
}

/// The error when SSH connected but nothing answers on the runtime's port on the far side.
pub fn probe_failure(remote_port: u16, host: &str, error: &str) -> (res: TunnelError)
    ensures
        res matches TunnelError::Other(m) && m@ == "SSH connected, but nothing is reachable on 127.0.0.1:"@
            + decimal(remote_port as nat) + " on "@ + host@
            + " (is the runtime running and listening on that port?): "@ + error@,
{
    let mut m = owned("SSH connected, but nothing is reachable on 127.0.0.1:");
    push_chars(&mut m, &decimal_exec(remote_port as u64));
    push_str(&mut m, " on ");
    push_str(&mut m, host);
    push_str(&mut m, " (is the runtime running and listening on that port?): ");
    push_str(&mut m, error);
    TunnelError::Other(m)
}

/// The base URL requests use through a tunnel: its local port, with the `/v1` API suffix.
pub fn tunneled_base_url(local_port: u16) -> (res: String)
    ensures
        res@ == "http://127.0.0.1:"@ + decimal(local_port as nat) + "/v1"@,
{
    let mut s = owned("http://127.0.0.1:");
    push_chars(&mut s, &decimal_exec(local_port as u64));
    push_str(&mut s, "/v1");
    s
}

/// The exit status a finished remote command reports: the one the server sent, else 255.
pub fn exit_status_or_default(status: Option<u32>) -> (res: u32)
    ensures
        res == match status {
            Some(s) => s,
            None => 255,
        },
{
    match status {
        Some(s) => s,
        None => 255,
    }
}

/// `s` without its trailing `/` characters.
pub open spec fn trim_end_slashes(s: Seq<char>) -> Seq<char>
    decreases s.len(),
{
    if s.len() > 0 && s.last() == '/' {
        trim_end_slashes(s.drop_last())
    } else {
        s
    }
}

/// A base URL whose API lives under `/v1`: kept when it already ends in `/v1` (ignoring
/// trailing slashes), else the suffix is added after its trailing slashes are dropped.
pub open spec fn v1_base(base: Seq<char>) -> Seq<char> {
    let t = trim_end_slashes(base);
    if t.len() >= 3 && t.subrange(t.len() - 3, t.len() as int) == "/v1"@ {
        base
    } else {
        t + "/v1"@
    }
}

/// Makes a provider's base URL point at its `/v1` API (for a provider whose default base
/// lacks it).
pub fn with_v1_suffix(base: &str) -> (res: String)
    ensures
        res@ == v1_base(base@),
{
    let cs = chars_of(base);
    let mut n = cs.len();
    assert(cs@.take(cs@.len() as int) =~= cs@);
    while n > 0 && cs[n - 1] == '/'
        invariant
            n <= cs@.len(),
            trim_end_slashes(cs@) == trim_end_slashes(cs@.take(n as int)),
        decreases n,
    {
        assert(cs@.take(n as int).drop_last() =~= cs@.take(n - 1));
        n = n - 1;
    }
    let ghost t = cs@.take(n as int);
    assert(trim_end_slashes(t) == t);
    let v1 = chars_of("/v1");
    proof {
        reveal_strlit("/v1");
    }
    let ends = n >= 3 && cs[n - 3] == '/' && cs[n - 2] == 'v' && cs[n - 1] == '1';
    proof {
        if t.len() >= 3 {
            let sub = t.subrange(t.len() - 3, t.len() as int);
            assert(sub[0] == cs@[n - 3] && sub[1] == cs@[n - 2] && sub[2] == cs@[n - 1]);
            if ends {
                assert(sub =~= "/v1"@);
            } else if sub == "/v1"@ {
                assert(sub[0] == '/' && sub[1] == 'v' && sub[2] == '1');
            }
        }
    }
    if ends {
        owned(base)
    } else {
        let mut out = crate::text::string_of(&crate::text::slice_chars(&cs, 0, n));
        push_chars(&mut out, &v1);
        assert(cs@.subrange(0, n as int) =~= t);
        out
    }
}

} // verus!
