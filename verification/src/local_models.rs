//! HuggingFace GGUF model records and the decisions behind the local llama.cpp runtime:
//! the downloaded-model manifest, quantization ranking, runtime archive selection and the
//! library aliases a runtime needs.

use vstd::prelude::*;

use crate::local_models_remote::RemoteModelList;

use crate::text::{
    all_ascii_digits, all_digits_exec, ascii_lower_seq, chars_eq, chars_of, contains_exec,
    contains_seq, ends_with, ends_with_exec, find, find_exec, lemma_lex_total, lemma_lex_trans,
    lex_le, lex_le_exec, owned, push_chars, push_str, rfind, rfind_exec, slice_chars, string_of,
    to_ascii_lower, trim, trim_chars,
};

verus! {

/// The models downloaded so far.
#[derive(Debug)]
pub struct LocalModelManifest {
    pub models: Vec<DownloadedModel>,
}

/// One downloaded GGUF file.
#[derive(Debug)]
pub struct DownloadedModel {
    pub id: String,
    pub repo: String,
    pub filename: String,
    pub path: String,
    pub bytes: u64,
}

/// One hit of a HuggingFace model search.
#[derive(Debug, Clone)]
pub struct HfModelHit {
    pub model_id: String,
    pub downloads: Option<u64>,
    pub likes: Option<u64>,
}

/// Progress and results of background model/runtime work.
#[derive(Debug)]
pub enum LocalModelMsg {
    Search(Result<Vec<HfModelHit>, String>),
    Files { repo: String, result: Result<Vec<String>, String> },
    DownloadProgress { id: String, downloaded: u64, total: Option<u64> },
    DownloadDone(Result<DownloadedModel, String>),
    RuntimeInstallProgress { downloaded: u64, total: Option<u64> },
    RuntimeInstallDone(Result<String, String>),
    RemoteRuntimeInstallDone(Result<String, String>),
    RemoteDownloadDone(Result<DownloadedModel, String>),
    RemoteStartDone { model: DownloadedModel, result: Result<String, String> },
    RemoteStopDone(Result<String, String>),
    RemoteListDone(Result<RemoteModelList, String>),
    RemoteDeleteDone { id: String, result: Result<(), String> },
}

impl Default for LocalModelManifest {
    fn default() -> (res: LocalModelManifest)
        ensures
            res.models@.len() == 0,
    {
        LocalModelManifest { models: Vec::new() }
    }
}

impl Clone for DownloadedModel {
    fn clone(&self) -> (res: DownloadedModel)
        ensures
            res == *self,
    {
        DownloadedModel {
            id: self.id.clone(),
            repo: self.repo.clone(),
            filename: self.filename.clone(),
            path: self.path.clone(),
            bytes: self.bytes,
        }
    }
}

// ---------------------------------------------------------------------------
// The manifest
// ---------------------------------------------------------------------------

/// The mathematical value of a [`DownloadedModel`].
pub struct ModelInfo {
    pub id: Seq<char>,
    pub repo: Seq<char>,
    pub filename: Seq<char>,
    pub path: Seq<char>,
    pub bytes: u64,
}

impl View for DownloadedModel {
    type V = ModelInfo;

    open spec fn view(&self) -> ModelInfo {
        ModelInfo {
            id: self.id@,
            repo: self.repo@,
            filename: self.filename@,
            path: self.path@,
            bytes: self.bytes,
        }
    }
}

/// The values of a list of models.
pub open spec fn models_view(ms: Seq<DownloadedModel>) -> Seq<ModelInfo> {
    ms.map_values(|m: DownloadedModel| m@)
}

/// `x` goes before `y` in id order.
pub open spec fn id_le(x: ModelInfo, y: ModelInfo) -> bool {
    lex_le(x.id, y.id)
}

/// `x` inserted into `s` after every element whose id is not greater than its own
/// (the insertion step of a stable sort).
pub open spec fn insert_by_id(s: Seq<ModelInfo>, x: ModelInfo) -> Seq<ModelInfo>
    decreases s.len(),
{
    if s.len() == 0 {
        seq![x]
    } else if id_le(s.last(), x) {
        s.push(x)
    } else {
        insert_by_id(s.drop_last(), x).push(s.last())
    }
}

/// `s` stably sorted by id (what `sort_by(|a, b| a.id.cmp(&b.id))` produces).
pub open spec fn sort_by_id(s: Seq<ModelInfo>) -> Seq<ModelInfo>
    decreases s.len(),
{
    if s.len() == 0 {
        Seq::empty()
    } else {
        insert_by_id(sort_by_id(s.drop_last()), s.last())
    }
}

/// The models whose id is not `id`, in order.
pub open spec fn without_id(s: Seq<ModelInfo>, id: Seq<char>) -> Seq<ModelInfo> {
    s.filter(|m: ModelInfo| m.id != id)
}

/// The manifest after recording `model`: any entry with the same id is replaced, and the
/// entries are sorted by id.
pub open spec fn upserted(s: Seq<ModelInfo>, model: ModelInfo) -> Seq<ModelInfo> {
    sort_by_id(without_id(s, model.id).push(model))
}

fn insert_sorted_by_id(v: &mut Vec<DownloadedModel>, x: DownloadedModel)
    ensures
        models_view(final(v)@) == insert_by_id(models_view(old(v)@), x@),
{
    let ghost s0 = models_view(v@);
    // find the insertion point: after the last element not greater than x
    let mut k = v.len();
    assert(s0.take(k as int) == s0 && s0.skip(k as int) == Seq::<ModelInfo>::empty());
    while k > 0 && !lex_le_exec(&chars_of(v[k - 1].id.as_str()), &chars_of(x.id.as_str()))
        invariant
            k <= v.len(),
            models_view(v@) == s0,
            insert_by_id(s0, x@) == insert_by_id(s0.take(k as int), x@) + s0.skip(k as int),
        decreases k,
    {
        proof {
            let t = s0.take(k as int);
            assert(t.last() == s0[k - 1]);
            assert(t.drop_last() == s0.take(k - 1));
            assert(insert_by_id(t, x@) == insert_by_id(s0.take(k - 1), x@).push(s0[k - 1]));
            assert(insert_by_id(s0.take(k - 1), x@).push(s0[k - 1]) + s0.skip(k as int)
                =~= insert_by_id(s0.take(k - 1), x@) + s0.skip(k - 1));
        }
        k = k - 1;
    }
    proof {
        let t = s0.take(k as int);
        if k > 0 {
            assert(t.last() == s0[k - 1]);
        }
        assert(insert_by_id(t, x@) == t.push(x@));
    }
    v.insert(k, x);
    assert(models_view(v@) =~= s0.take(k as int).push(x@) + s0.skip(k as int));
}

/// The models stably sorted by id.
pub fn sort_models_by_id(v: Vec<DownloadedModel>) -> (res: Vec<DownloadedModel>)
    ensures
        models_view(res@) == sort_by_id(models_view(v@)),
{
    let mut out: Vec<DownloadedModel> = Vec::new();
    let mut rest = v;
    let ghost s0 = models_view(rest@);
    let mut items: Vec<Option<DownloadedModel>> = Vec::new();
    while rest.len() > 0
        invariant
            models_view(rest@) == s0.take(rest@.len() as int),
            rest@.len() <= s0.len(),
            items@.len() == s0.len() - rest@.len(),
            forall|j: int|
                0 <= j < items@.len() ==> (#[trigger] items@[j]) is Some && items@[j]->0@ == s0[s0.len()
                    - 1 - j],
        decreases rest.len(),
    {
        let ghost r0 = rest@;
        let x = rest.pop().unwrap();
        proof {
            assert(rest@ == r0.drop_last());
            assert(x == r0.last());
            assert(models_view(r0.drop_last()) =~= s0.take(rest@.len() as int));
            assert(x@ == models_view(r0)[r0.len() - 1]);
        }
        items.push(Some(x));
    }
    // items holds the models in reverse; insert them from the back of items to the front
    let mut k = items.len();
    while k > 0
        invariant
            k == items@.len(),
            k <= s0.len(),
            forall|j: int|
                0 <= j < k ==> (#[trigger] items@[j]) is Some && items@[j]->0@ == s0[s0.len() - 1
                    - j],
            models_view(out@) == sort_by_id(s0.take(s0.len() - k)),
        decreases k,
    {
        let ghost before = items@;
        let slot = items.pop().unwrap();
        proof {
            assert(slot == before[k - 1]);
            assert forall|j: int| 0 <= j < k - 1 implies (#[trigger] items@[j]) is Some
                && items@[j]->0@ == s0[s0.len() - 1 - j] by {
                assert(items@[j] == before[j]);
            }
        }
        let x = slot.unwrap();
        proof {
            let t = s0.take(s0.len() - k + 1);
            assert(t.drop_last() == s0.take(s0.len() - k));
            assert(t.last() == x@);
        }
        insert_sorted_by_id(&mut out, x);
        k = k - 1;
    }
    assert(s0.take(s0.len() as int) == s0);
    out
}

/// The models are in id order.
pub open spec fn sorted_by_id(s: Seq<ModelInfo>) -> bool {
    forall|i: int, j: int| 0 <= i < j < s.len() ==> lex_le(#[trigger] s[i].id, #[trigger] s[j].id)
}

/// The number of models with id `k`.
pub open spec fn id_count(s: Seq<ModelInfo>, k: Seq<char>) -> nat
    decreases s.len(),
{
    if s.len() == 0 {
        0
    } else {
        id_count(s.drop_last(), k) + if s.last().id == k {
            1nat
        } else {
            0nat
        }
    }
}

proof fn lemma_insert_by_id_facts(s: Seq<ModelInfo>, x: ModelInfo)
    ensures
        insert_by_id(s, x).len() == s.len() + 1,
        insert_by_id(s, x).contains(x),
        forall|i: int|
            0 <= i < insert_by_id(s, x).len() ==> #[trigger] insert_by_id(s, x)[i] == x || s.contains(
                insert_by_id(s, x)[i],
            ),
        forall|k: Seq<char>|
            #[trigger] id_count(insert_by_id(s, x), k) == id_count(s, k) + if x.id == k {
                1nat
            } else {
                0nat
            },
    decreases s.len(),
{
    let r = insert_by_id(s, x);
    if s.len() == 0 {
        assert(r == seq![x]);
        assert(r[0] == x);
        assert(r.last() == x);
        assert forall|k: Seq<char>| #[trigger] id_count(r, k) == id_count(s, k) + if x.id == k {
            1nat
        } else {
            0nat
        } by {
            assert(r.drop_last() =~= Seq::<ModelInfo>::empty());
            assert(id_count(r.drop_last(), k) == 0);
            assert(id_count(s, k) == 0);
        }
    } else if id_le(s.last(), x) {
        assert(r == s.push(x));
        assert(r[r.len() - 1] == x);
        assert forall|i: int| 0 <= i < r.len() implies #[trigger] r[i] == x || s.contains(r[i]) by {
            if i < s.len() {
                assert(r[i] == s[i]);
            }
        }
        assert forall|k: Seq<char>| #[trigger] id_count(r, k) == id_count(s, k) + if x.id == k {
            1nat
        } else {
            0nat
        } by {
            assert(r.drop_last() =~= s);
        }
    } else {
        let t = s.drop_last();
        let rt = insert_by_id(t, x);
        lemma_insert_by_id_facts(t, x);
        assert(r == rt.push(s.last()));
        let j = choose|j: int| 0 <= j < rt.len() && rt[j] == x;
        assert(r[j] == x);
        assert forall|i: int| 0 <= i < r.len() implies #[trigger] r[i] == x || s.contains(r[i]) by {
            if i < rt.len() {
                assert(r[i] == rt[i]);
                if rt[i] != x {
                    let m = choose|m: int| 0 <= m < t.len() && t[m] == rt[i];
                    assert(s[m] == t[m]);
                }
            } else {
                assert(r[i] == s[s.len() - 1]);
            }
        }
        assert forall|k: Seq<char>| #[trigger] id_count(r, k) == id_count(s, k) + if x.id == k {
            1nat
        } else {
            0nat
        } by {
            assert(r.drop_last() =~= rt);
            assert(id_count(rt, k) == id_count(t, k) + if x.id == k {
                1nat
            } else {
                0nat
            });
        }
    }
}

proof fn lemma_insert_by_id_sorted(s: Seq<ModelInfo>, x: ModelInfo)
    requires
        sorted_by_id(s),
    ensures
        sorted_by_id(insert_by_id(s, x)),
    decreases s.len(),
{
    let r = insert_by_id(s, x);
    lemma_insert_by_id_facts(s, x);
    if s.len() == 0 {
    } else if id_le(s.last(), x) {
        assert forall|i: int, j: int| 0 <= i < j < r.len() implies lex_le(
            #[trigger] r[i].id,
            #[trigger] r[j].id,
        ) by {
            if j < s.len() {
                assert(r[i] == s[i] && r[j] == s[j]);
            } else {
                assert(r[j] == x);
                assert(r[i] == s[i]);
                if i < s.len() - 1 {
                    lemma_lex_trans(s[i].id, s[s.len() - 1].id, x.id);
                }
            }
        }
    } else {
        let t = s.drop_last();
        let rt = insert_by_id(t, x);
        lemma_insert_by_id_sorted(t, x);
        lemma_insert_by_id_facts(t, x);
        lemma_lex_total(s.last().id, x.id);
        assert(r == rt.push(s.last()));
        assert forall|i: int, j: int| 0 <= i < j < r.len() implies lex_le(
            #[trigger] r[i].id,
            #[trigger] r[j].id,
        ) by {
            if j < rt.len() {
                assert(r[i] == rt[i] && r[j] == rt[j]);
            } else {
                assert(r[j] == s.last());
                assert(r[i] == rt[i]);
                if rt[i] == x {
                } else {
                    let m = choose|m: int| 0 <= m < t.len() && t[m] == rt[i];
                    assert(t[m] == s[m]);
                }
            }
        }
    }
}

/// Sorting by id keeps every model and leaves the list in id order.
pub proof fn lemma_sort_by_id_facts(s: Seq<ModelInfo>)
    ensures
        sorted_by_id(sort_by_id(s)),
        forall|k: Seq<char>| #[trigger] id_count(sort_by_id(s), k) == id_count(s, k),
        forall|y: ModelInfo| s.contains(y) ==> #[trigger] sort_by_id(s).contains(y),
    decreases s.len(),
{
    if s.len() > 0 {
        let t = s.drop_last();
        lemma_sort_by_id_facts(t);
        let st = sort_by_id(t);
        lemma_insert_by_id_sorted(st, s.last());
        lemma_insert_by_id_facts(st, s.last());
        let r = sort_by_id(s);
        assert forall|k: Seq<char>| #[trigger] id_count(r, k) == id_count(s, k) by {
            assert(id_count(r, k) == id_count(st, k) + if s.last().id == k {
                1nat
            } else {
                0nat
            });
        }
        assert forall|y: ModelInfo| s.contains(y) implies #[trigger] r.contains(y) by {
            let i = choose|i: int| 0 <= i < s.len() && s[i] == y;
            if i == s.len() - 1 {
            } else {
                assert(t[i] == y);
                assert(t.contains(y));
                assert(st.contains(y));
                let j = choose|j: int| 0 <= j < st.len() && st[j] == y;
                // every element of st is still in r
                lemma_insert_keeps(st, s.last(), j);
            }
        }
    }
}

proof fn lemma_insert_keeps(s: Seq<ModelInfo>, x: ModelInfo, j: int)
    requires
        0 <= j < s.len(),
    ensures
        insert_by_id(s, x).contains(s[j]),
    decreases s.len(),
{
    let r = insert_by_id(s, x);
    if id_le(s.last(), x) {
        assert(r[j] == s[j]);
    } else if j == s.len() - 1 {
        lemma_insert_by_id_facts(s.drop_last(), x);
        assert(r[r.len() - 1] == s[j]);
    } else {
        lemma_insert_keeps(s.drop_last(), x, j);
        let rt = insert_by_id(s.drop_last(), x);
        let m = choose|m: int| 0 <= m < rt.len() && rt[m] == s.drop_last()[j];
        lemma_insert_by_id_facts(s.drop_last(), x);
        assert(r[m] == rt[m]);
    }
}

proof fn lemma_filtered_counts(s: Seq<ModelInfo>, id: Seq<char>, k: Seq<char>)
    ensures
        id_count(without_id(s, id), k) == if k == id {
            0
        } else {
            id_count(s, k)
        },
    decreases s.len(),
{
    if s.len() > 0 {
        lemma_filtered_counts(s.drop_last(), id, k);
        let pred = |m: ModelInfo| m.id != id;
        reveal(Seq::filter);
        assert(s.filter(pred) == (if pred(s.last()) {
            s.drop_last().filter(pred).push(s.last())
        } else {
            s.drop_last().filter(pred)
        }));
        let sub = without_id(s.drop_last(), id);
        if s.last().id != id {
            assert(sub.push(s.last()).drop_last() =~= sub);
        }
    }
}

/// Recording a downloaded model leaves the list sorted by id, holding that model and no
/// other entry with its id, and every other model as often as before.
pub proof fn law_upsert_keeps_one_entry_per_model(s: Seq<ModelInfo>, model: ModelInfo)
    ensures
        sorted_by_id(upserted(s, model)),
        upserted(s, model).contains(model),
        id_count(upserted(s, model), model.id) == 1,
        forall|k: Seq<char>|
            k != model.id ==> #[trigger] id_count(upserted(s, model), k) == id_count(s, k),
{
    let w = without_id(s, model.id);
    let p = w.push(model);
    lemma_sort_by_id_facts(p);
    assert(p[p.len() - 1] == model);
    assert(p.contains(model));
    assert forall|k: Seq<char>| #[trigger] id_count(p, k) == id_count(w, k) + if model.id == k {
        1nat
    } else {
        0nat
    } by {
        assert(p.drop_last() =~= w);
    }
    lemma_filtered_counts(s, model.id, model.id);
    assert forall|k: Seq<char>| k != model.id implies #[trigger] id_count(upserted(s, model), k)
        == id_count(s, k) by {
        lemma_filtered_counts(s, model.id, k);
    }
}

/// Records a downloaded model in the manifest, replacing any entry with the same id and
/// keeping the entries sorted by id.
pub fn upsert_downloaded(manifest: &mut LocalModelManifest, model: DownloadedModel)
    ensures
        models_view(final(manifest).models@) == upserted(models_view(old(manifest).models@), model@),
{
    let ghost s0 = models_view(manifest.models@);
    let idc = chars_of(model.id.as_str());
    let mut kept: Vec<DownloadedModel> = Vec::new();
    let mut old_models: Vec<DownloadedModel> = Vec::new();
    std::mem::swap(&mut old_models, &mut manifest.models);
    let mut i: usize = 0;
    while i < old_models.len()
        invariant
            i <= old_models@.len(),
            models_view(old_models@) == s0,
            idc@ == model.id@,
            models_view(kept@) == without_id(s0.take(i as int), model.id@),
        decreases old_models.len() - i,
    {
        proof {
            let t = s0.take(i + 1);
            assert(t.drop_last() == s0.take(i as int));
            assert(t.last() == s0[i as int]);
            reveal_with_fuel(Seq::filter, 1);
        }
        let ghost k0 = kept@;
        if !chars_eq(&chars_of(old_models[i].id.as_str()), &idc) {
            kept.push(old_models[i].clone());
            assert(models_view(kept@) =~= models_view(k0).push(s0[i as int]));
        }
        i = i + 1;
    }
    proof {
        assert(s0.take(s0.len() as int) == s0);
    }
    let ghost k1 = kept@;
    kept.push(model);
    assert(models_view(kept@) =~= models_view(k1).push(model@));
    manifest.models = sort_models_by_id(kept);
}

/// The models whose id is `id`, removed from the manifest and returned (their files are
/// what a caller deletes).
pub fn take_downloaded(manifest: &mut LocalModelManifest, id: &str) -> (removed: Vec<DownloadedModel>)
    ensures
        models_view(final(manifest).models@) == without_id(models_view(old(manifest).models@), id@),
        models_view(removed@) == models_view(old(manifest).models@).filter(
            |m: ModelInfo| m.id == id@,
        ),
{
    let ghost s0 = models_view(manifest.models@);
    let idc = chars_of(id);
    let mut kept: Vec<DownloadedModel> = Vec::new();
    let mut removed: Vec<DownloadedModel> = Vec::new();
    let mut old_models: Vec<DownloadedModel> = Vec::new();
    std::mem::swap(&mut old_models, &mut manifest.models);
    let mut i: usize = 0;
    while i < old_models.len()
        invariant
            i <= old_models@.len(),
            models_view(old_models@) == s0,
            idc@ == id@,
            models_view(kept@) == without_id(s0.take(i as int), id@),
            models_view(removed@) == s0.take(i as int).filter(|m: ModelInfo| m.id == id@),
        decreases old_models.len() - i,
    {
        proof {
            let t = s0.take(i + 1);
            assert(t.drop_last() == s0.take(i as int));
            assert(t.last() == s0[i as int]);
            reveal_with_fuel(Seq::filter, 1);
        }
        let ghost k0 = kept@;
        let ghost r0 = removed@;
        if !chars_eq(&chars_of(old_models[i].id.as_str()), &idc) {
            kept.push(old_models[i].clone());
            assert(models_view(kept@) =~= models_view(k0).push(s0[i as int]));
        } else {
            removed.push(old_models[i].clone());
            assert(models_view(removed@) =~= models_view(r0).push(s0[i as int]));
        }
        i = i + 1;
    }
    proof {
        assert(s0.take(s0.len() as int) == s0);
    }
    manifest.models = kept;
    removed
}

// ---------------------------------------------------------------------------
// Quantization ranking and the file list of a repository
// ---------------------------------------------------------------------------

/// Preferred quantizations, best first.
pub open spec fn quant_names() -> Seq<Seq<char>> {
    seq!["q4_k_m"@, "q5_k_m"@, "q6_k"@, "q8_0"@, "q4_0"@, "q3_k_m"@, "f16"@]
}

/// The rank of the first preferred quantization named in `names` (compared after ASCII
/// lower-casing), starting the search at `i`; 99 when none is named.
pub open spec fn quant_rank_from(lower: Seq<char>, i: int) -> nat
    decreases 7 - i,
{
    if i < 0 || i >= 7 {
        99
    } else if contains_seq(lower, quant_names()[i]) {
        i as nat
    } else {
        quant_rank_from(lower, i + 1)
    }
}

/// How preferred the quantization in a GGUF file name is (lower is better, 99 = unknown).
pub open spec fn quant_rank_spec(s: Seq<char>) -> nat {
    quant_rank_from(ascii_lower_seq(s), 0)
}

/// The quantization rank of a GGUF file name.
pub fn quant_rank(s: &str) -> (res: usize)
    ensures
        res as nat == quant_rank_spec(s@),
{
    let l = to_ascii_lower(&chars_of(s));
    let names: [&str; 7] = ["q4_k_m", "q5_k_m", "q6_k", "q8_0", "q4_0", "q3_k_m", "f16"];
    let mut i: usize = 0;
    while i < 7
        invariant
            i <= 7,
            l@ == ascii_lower_seq(s@),
            names@ == seq!["q4_k_m", "q5_k_m", "q6_k", "q8_0", "q4_0", "q3_k_m", "f16"],
            quant_rank_spec(s@) == quant_rank_from(l@, i as int),
        decreases 7 - i,
    {
        let q = chars_of(names[i]);
        assert(q@ == quant_names()[i as int]);
        if contains_exec(&l, &q) {
            return i;
        }
        i = i + 1;
    }
    99
}

/// Maximum number of characters of a response body quoted in an error.
pub const SNIPPET_CHARS: usize = 240;

/// The first 240 characters of `s`, with an ellipsis when longer.
pub open spec fn snippet_spec(s: Seq<char>) -> Seq<char> {
    if s.len() > SNIPPET_CHARS {
        s.take(SNIPPET_CHARS as int).push('\u{2026}')
    } else {
        s
    }
}

/// A short excerpt of a response body for error messages.
pub fn snippet(s: &str) -> (res: String)
    ensures
        res@ == snippet_spec(s@),
{
    let cs = chars_of(s);
    if cs.len() > SNIPPET_CHARS {
        let mut t = slice_chars(&cs, 0, SNIPPET_CHARS);
        t.push('\u{2026}');
        string_of(&t)
    } else {
        string_of(&cs)
    }
}

/// The file name is a GGUF model (`.gguf`, any ASCII case).
pub open spec fn is_gguf_name(f: Seq<char>) -> bool {
    ends_with(ascii_lower_seq(f), ".gguf"@)
}

/// `a` goes before `b` in a repository's file list: better quantization first, then by name.
pub open spec fn gguf_le(a: Seq<char>, b: Seq<char>) -> bool {
    quant_rank_spec(a) < quant_rank_spec(b) || (quant_rank_spec(a) == quant_rank_spec(b)
        && lex_le(a, b))
}

/// `x` inserted into the sorted `s` after every element not greater than it.
pub open spec fn insert_gguf(s: Seq<Seq<char>>, x: Seq<char>) -> Seq<Seq<char>>
    decreases s.len(),
{
    if s.len() == 0 {
        seq![x]
    } else if gguf_le(s.last(), x) {
        s.push(x)
    } else {
        insert_gguf(s.drop_last(), x).push(s.last())
    }
}

/// The GGUF files among `files`, best quantization first, then by name.
pub open spec fn ranked_gguf(files: Seq<Seq<char>>) -> Seq<Seq<char>>
    decreases files.len(),
{
    if files.len() == 0 {
        Seq::empty()
    } else {
        let prev = ranked_gguf(files.drop_last());
        if is_gguf_name(files.last()) {
            insert_gguf(prev, files.last())
        } else {
            prev
        }
    }
}

fn gguf_le_exec(a: &String, b: &String) -> (res: bool)
    ensures
        res == gguf_le(a@, b@),
{
    let ra = quant_rank(a.as_str());
    let rb = quant_rank(b.as_str());
    ra < rb || (ra == rb && lex_le_exec(&chars_of(a.as_str()), &chars_of(b.as_str())))
}

fn insert_gguf_exec(v: &mut Vec<String>, x: String)
    ensures
        final(v)@.map_values(|f: String| f@) == insert_gguf(old(v)@.map_values(|f: String| f@), x@),
{
    let ghost s0 = v@.map_values(|f: String| f@);
    let mut k = v.len();
    assert(s0.take(k as int) == s0 && s0.skip(k as int) == Seq::<Seq<char>>::empty());
    while k > 0 && !gguf_le_exec(&v[k - 1], &x)
        invariant
            k <= v.len(),
            v@.map_values(|f: String| f@) == s0,
            insert_gguf(s0, x@) == insert_gguf(s0.take(k as int), x@) + s0.skip(k as int),
        decreases k,
    {
        proof {
            let t = s0.take(k as int);
            assert(t.last() == s0[k - 1]);
            assert(t.drop_last() == s0.take(k - 1));
            assert(insert_gguf(s0.take(k - 1), x@).push(s0[k - 1]) + s0.skip(k as int)
                =~= insert_gguf(s0.take(k - 1), x@) + s0.skip(k - 1));
        }
        k = k - 1;
    }
    proof {
        let t = s0.take(k as int);
        if k > 0 {
            assert(t.last() == s0[k - 1]);
        }
        assert(insert_gguf(t, x@) == t.push(x@));
    }
    v.insert(k, x);
    assert(v@.map_values(|f: String| f@) =~= s0.take(k as int).push(x@) + s0.skip(k as int));
}

/// The GGUF files of a repository listing, best quantization first, then by name.
pub fn rank_gguf_files(files: Vec<String>) -> (res: Vec<String>)
    ensures
        res@.map_values(|f: String| f@) == ranked_gguf(files@.map_values(|f: String| f@)),
{
    let ghost s0 = files@.map_values(|f: String| f@);
    let mut out: Vec<String> = Vec::new();
    let mut i: usize = 0;
    while i < files.len()
        invariant
            i <= files.len(),
            s0 == files@.map_values(|f: String| f@),
            out@.map_values(|f: String| f@) == ranked_gguf(s0.take(i as int)),
        decreases files.len() - i,
    {
        proof {
            let t = s0.take(i + 1);
            assert(t.drop_last() == s0.take(i as int));
            assert(t.last() == files@[i as int]@);
        }
        let f = &files[i];
        let lower = to_ascii_lower(&chars_of(f.as_str()));
        let ext = chars_of(".gguf");
        if ends_with_exec(&lower, &ext) {
            insert_gguf_exec(&mut out, f.clone());
        }
        i = i + 1;
    }
    assert(s0.take(s0.len() as int) == s0);
    out
}

// ---------------------------------------------------------------------------
// Runtime archives
// ---------------------------------------------------------------------------

/// The pinned llama.cpp release archive for an operating system and architecture (as in
/// `std::env::consts`), or the reason there is none.
pub open spec fn release_url(os: Seq<char>, arch: Seq<char>) -> Result<Seq<char>, Seq<char>> {
    if os == "macos"@ && arch == "aarch64"@ {
        Ok("https://github.com/ggml-org/llama.cpp/releases/download/b9910/llama-b9910-bin-macos-arm64.tar.gz"@)
    } else if os == "macos"@ && arch == "x86_64"@ {
        Ok("https://github.com/ggml-org/llama.cpp/releases/download/b9910/llama-b9910-bin-macos-x64.tar.gz"@)
    } else if os == "linux"@ && arch == "aarch64"@ {
        Ok("https://github.com/ggml-org/llama.cpp/releases/download/b9910/llama-b9910-bin-ubuntu-arm64.tar.gz"@)
    } else if os == "linux"@ && arch == "x86_64"@ {
        Ok("https://github.com/ggml-org/llama.cpp/releases/download/b9910/llama-b9910-bin-ubuntu-x64.tar.gz"@)
    } else if os == "windows"@ && arch == "x86_64"@ {
        Ok("https://github.com/ggml-org/llama.cpp/releases/download/b9910/llama-b9910-bin-win-cpu-x64.zip"@)
    } else {
        Err("No bundled llama-server build for "@ + os + "/"@ + arch
            + ". Set a custom llama-server path."@)
    }
}

fn str_eq(a: &str, b: &str) -> (res: bool)
    ensures
        res == (a@ == b@),
{
    chars_eq(&chars_of(a), &chars_of(b))
}

/// The pinned llama.cpp release archive for this platform.
pub fn llama_cpp_release_url(os: &str, arch: &str) -> (res: Result<&'static str, String>)
    ensures
        match res {
            Ok(u) => release_url(os@, arch@) == Ok::<Seq<char>, Seq<char>>(u@),
            Err(e) => release_url(os@, arch@) == Err::<Seq<char>, Seq<char>>(e@),
        },
{
    if str_eq(os, "macos") && str_eq(arch, "aarch64") {
        Ok("https://github.com/ggml-org/llama.cpp/releases/download/b9910/llama-b9910-bin-macos-arm64.tar.gz")
    } else if str_eq(os, "macos") && str_eq(arch, "x86_64") {
        Ok("https://github.com/ggml-org/llama.cpp/releases/download/b9910/llama-b9910-bin-macos-x64.tar.gz")
    } else if str_eq(os, "linux") && str_eq(arch, "aarch64") {
        Ok("https://github.com/ggml-org/llama.cpp/releases/download/b9910/llama-b9910-bin-ubuntu-arm64.tar.gz")
    } else if str_eq(os, "linux") && str_eq(arch, "x86_64") {
        Ok("https://github.com/ggml-org/llama.cpp/releases/download/b9910/llama-b9910-bin-ubuntu-x64.tar.gz")
    } else if str_eq(os, "windows") && str_eq(arch, "x86_64") {
        Ok("https://github.com/ggml-org/llama.cpp/releases/download/b9910/llama-b9910-bin-win-cpu-x64.zip")
    } else {
        let mut m = owned("No bundled llama-server build for ");
        crate::text::push_str(&mut m, os);
        crate::text::push_str(&mut m, "/");
        crate::text::push_str(&mut m, arch);
        crate::text::push_str(&mut m, ". Set a custom llama-server path.");
        Err(m)
    }
}

/// A runtime archive URL names a gzipped tarball (otherwise it is a ZIP).
pub open spec fn is_tarball_url(url: Seq<char>) -> bool {
    ends_with(url, ".tar.gz"@) || ends_with(url, ".tgz"@)
}

/// The runtime archive at `url` is a gzipped tarball.
pub fn archive_is_tarball(url: &str) -> (res: bool)
    ensures
        res == is_tarball_url(url@),
{
    let u = chars_of(url);
    ends_with_exec(&u, &chars_of(".tar.gz")) || ends_with_exec(&u, &chars_of(".tgz"))
}

/// A file name that is a shared library of the runtime.
pub open spec fn is_library_name(base: Seq<char>) -> bool {
    ends_with(base, ".dylib"@) || ends_with(base, ".so"@) || contains_seq(base, ".so."@)
        || ends_with(base, ".dll"@)
}

/// An archive member with base name `base` belongs in the runtime folder: the server
/// binary `wanted` itself or a shared library beside it.
pub open spec fn extract_wanted(base: Seq<char>, wanted: Seq<char>) -> bool {
    base == wanted || is_library_name(base)
}

fn is_library_name_exec(base: &[char]) -> (res: bool)
    ensures
        res == is_library_name(base@),
{
    ends_with_exec(base, &chars_of(".dylib")) || ends_with_exec(base, &chars_of(".so"))
        || contains_exec(base, &chars_of(".so.")) || ends_with_exec(base, &chars_of(".dll"))
}

/// Whether an archive member named `base` is extracted into the runtime folder.
pub fn should_extract_runtime_file(base: &str, wanted: &str) -> (res: bool)
    ensures
        res == extract_wanted(base@, wanted@),
{
    let b = chars_of(base);
    chars_eq(&b, &chars_of(wanted)) || is_library_name_exec(&b)
}

/// A file of an installed runtime that a reinstall removes first: the server binary or a
/// shared library.
pub open spec fn is_runtime_payload(name: Seq<char>) -> bool {
    name == "llama-server"@ || name == "llama-server.exe"@ || is_library_name(name)
}

/// Whether a file of the runtime folder is removed before a reinstall.
pub fn runtime_payload_file(name: &str) -> (res: bool)
    ensures
        res == is_runtime_payload(name@),
{
    let n = chars_of(name);
    chars_eq(&n, &chars_of("llama-server")) || chars_eq(&n, &chars_of("llama-server.exe"))
        || is_library_name_exec(&n)
}

/// The base name of a ZIP member: its last `/`- or `\`-separated segment.
pub open spec fn zip_member_base(name: Seq<char>) -> Seq<char> {
    let n = crate::text::replace_char(name, '\\', "/"@);
    let i = rfind(n, "/"@);
    if i < 0 {
        n
    } else {
        n.skip(i + 1)
    }
}

/// The base name of a ZIP member name.
pub fn zip_member_base_name(name: &str) -> (res: String)
    ensures
        res@ == zip_member_base(name@),
{
    proof {
        reveal_strlit("/");
    }
    let slash = chars_of("/");
    assert(slash@.len() == 1);
    let n = crate::text::replace_char_exec(&chars_of(name), '\\', &slash);
    match rfind_exec(n.as_slice(), slash.as_slice()) {
        Some(i) => {
            let len = n.len();
            string_of(&slice_chars(&n, i + 1, len))
        },
        None => string_of(&n),
    }
}

// ---------------------------------------------------------------------------
// Library aliases
// ---------------------------------------------------------------------------

/// `s` split at its last `.`: the part before and the part after.
pub open spec fn rsplit_dot(s: Seq<char>) -> Option<(Seq<char>, Seq<char>)> {
    let i = rfind(s, "."@);
    if i < 0 {
        None
    } else {
        Some((s.take(i), s.skip(i + 1)))
    }
}

/// The short name `libx.MAJOR.dylib` under which macOS looks for `libx.MAJOR.MINOR.PATCH.dylib`.
pub open spec fn macos_compat_name(name: Seq<char>) -> Option<Seq<char>> {
    if !ends_with(name, ".dylib"@) {
        None
    } else {
        let stem = name.take(name.len() - 6);
        match rsplit_dot(stem) {
            None => None,
            Some((prefix, patch)) => if !all_ascii_digits(patch) {
                None
            } else {
                match rsplit_dot(prefix) {
                    None => None,
                    Some((prefix2, minor)) => if !all_ascii_digits(minor) {
                        None
                    } else {
                        match rsplit_dot(prefix2) {
                            None => None,
                            Some((prefix3, major)) => if !all_ascii_digits(major) {
                                None
                            } else {
                                Some(prefix3 + "."@ + major + ".dylib"@)
                            },
                        }
                    },
                }
            },
        }
    }
}

fn rsplit_dot_exec(s: &[char]) -> (res: Option<(Vec<char>, Vec<char>)>)
    ensures
        match res {
            Some((a, b)) => rsplit_dot(s@) == Some((a@, b@)),
            None => rsplit_dot(s@) is None,
        },
{
    proof {
        reveal_strlit(".");
    }
    match rfind_exec(s, &chars_of(".")) {
        Some(i) => {
            let len = s.len();
            Some((slice_chars(s, 0, i), slice_chars(s, i + 1, len)))
        },
        None => None,
    }
}

/// The macOS short alias of a versioned dylib name.
pub fn macos_dylib_compat_name(name: &str) -> (res: Option<String>)
    ensures
        match res {
            Some(a) => macos_compat_name(name@) == Some(a@),
            None => macos_compat_name(name@) is None,
        },
{
    proof {
        reveal_strlit(".dylib");
    }
    let n = chars_of(name);
    if !ends_with_exec(&n, &chars_of(".dylib")) {
        return None;
    }
    let stem = slice_chars(&n, 0, n.len() - 6);
    let (prefix, patch) = rsplit_dot_exec(&stem)?;
    if !all_digits_exec(&patch) {
        return None;
    }
    let (prefix2, minor) = rsplit_dot_exec(&prefix)?;
    if !all_digits_exec(&minor) {
        return None;
    }
    let (prefix3, major) = rsplit_dot_exec(&prefix2)?;
    if !all_digits_exec(&major) {
        return None;
    }
    let mut out = string_of(&prefix3);
    crate::text::push_str(&mut out, ".");
    push_chars(&mut out, &major);
    crate::text::push_str(&mut out, ".dylib");
    Some(out)
}

/// The characters of `s` before its first `.` (all of `s` when it has none).
pub open spec fn before_dot(s: Seq<char>) -> Seq<char> {
    let i = find(s, "."@);
    if i < 0 {
        s
    } else {
        s.take(i)
    }
}

/// The short name `libx.so.MAJOR` under which Linux looks for `libx.so.MAJOR.MINOR...`.
pub open spec fn linux_compat_name(name: Seq<char>) -> Option<Seq<char>> {
    let idx = find(name, ".so."@);
    if idx < 0 {
        None
    } else {
        let major = before_dot(name.skip(idx + 4));
        if major.len() == 0 || !all_ascii_digits(major) {
            None
        } else {
            Some(name.take(idx) + ".so."@ + major)
        }
    }
}

/// The Linux short alias of a versioned shared-object name.
pub fn linux_so_compat_name(name: &str) -> (res: Option<String>)
    ensures
        match res {
            Some(a) => linux_compat_name(name@) == Some(a@),
            None => linux_compat_name(name@) is None,
        },
{
    proof {
        reveal_strlit(".so.");
    }
    let n = chars_of(name);
    let marker = chars_of(".so.");
    assert(marker@.len() == 4);
    let idx = find_exec(n.as_slice(), marker.as_slice())?;
    let len = n.len();
    let version = slice_chars(&n, idx + 4, len);
    let major = match find_exec(&version, &chars_of(".")) {
        Some(j) => slice_chars(&version, 0, j),
        None => version,
    };
    if major.len() == 0 || !all_digits_exec(&major) {
        return None;
    }
    let mut out = string_of(&slice_chars(&n, 0, idx));
    crate::text::push_str(&mut out, ".so.");
    push_chars(&mut out, &major);
    Some(out)
}


/// The aliases (file, alias) of one runtime file: its macOS then its Linux compatibility
/// name, each when it has one that differs from the file's own name.
pub open spec fn file_aliases(name: Seq<char>) -> Seq<(Seq<char>, Seq<char>)> {
    let mac = match macos_compat_name(name) {
        Some(a) => if a != name {
            seq![(name, a)]
        } else {
            Seq::empty()
        },
        None => Seq::empty(),
    };
    let linux = match linux_compat_name(name) {
        Some(a) => if a != name {
            seq![(name, a)]
        } else {
            Seq::empty()
        },
        None => Seq::empty(),
    };
    mac + linux
}

/// The aliases of all the runtime files, in order.
pub open spec fn runtime_aliases(names: Seq<Seq<char>>) -> Seq<(Seq<char>, Seq<char>)>
    decreases names.len(),
{
    if names.len() == 0 {
        Seq::empty()
    } else {
        runtime_aliases(names.drop_last()) + file_aliases(names.last())
    }
}

/// The library aliases (file name, alias name) to create in a runtime folder holding the
/// files `names`, so that a server asking for the short name of a versioned library finds it.
pub fn runtime_library_aliases(names: &[String]) -> (res: Vec<(String, String)>)
    ensures
        res@.map_values(|p: (String, String)| (p.0@, p.1@)) == runtime_aliases(
            names@.map_values(|n: String| n@),
        ),
{
    let ghost nv = names@.map_values(|n: String| n@);
    let mut out: Vec<(String, String)> = Vec::new();
    let mut i: usize = 0;
    assert(out@.map_values(|p: (String, String)| (p.0@, p.1@)) =~= Seq::empty());
    while i < names.len()
        invariant
            i <= names@.len(),
            nv == names@.map_values(|n: String| n@),
            out@.map_values(|p: (String, String)| (p.0@, p.1@)) == runtime_aliases(
                nv.take(i as int),
            ),
        decreases names.len() - i,
    {
        proof {
            let t = nv.take(i + 1);
            assert(t.drop_last() == nv.take(i as int));
            assert(t.last() == names@[i as int]@);
        }
        let name = names[i].as_str();
        let nc = chars_of(name);
        let ghost before = out@.map_values(|p: (String, String)| (p.0@, p.1@));
        let ghost mac: Seq<(Seq<char>, Seq<char>)> = Seq::empty();
        match macos_dylib_compat_name(name) {
            Some(a) => {
                if !chars_eq(&chars_of(a.as_str()), &nc) {
                    out.push((owned(name), a));
                    proof {
                        mac = seq![(name@, macos_compat_name(name@)->0)];
                    }
                }
            },
            None => {},
        }
        let ghost mid = out@.map_values(|p: (String, String)| (p.0@, p.1@));
        assert(mid =~= before + mac);
        let ghost lin: Seq<(Seq<char>, Seq<char>)> = Seq::empty();
        match linux_so_compat_name(name) {
            Some(a) => {
                if !chars_eq(&chars_of(a.as_str()), &nc) {
                    out.push((owned(name), a));
                    proof {
                        lin = seq![(name@, linux_compat_name(name@)->0)];
                    }
                }
            },
            None => {},
        }
        assert(out@.map_values(|p: (String, String)| (p.0@, p.1@)) =~= mid + lin);
        assert(file_aliases(name@) =~= mac + lin);
        assert(before + mac + lin =~= before + (mac + lin));
        i = i + 1;
    }
    assert(nv.take(names@.len() as int) == nv);
    out
}


// ---------------------------------------------------------------------------
// Starting the local server
// ---------------------------------------------------------------------------

/// `n` in decimal, with a minus sign when negative.
pub open spec fn signed_decimal(n: i32) -> Seq<char> {
    if n < 0 {
        "-"@ + crate::text::decimal((0 - n) as nat)
    } else {
        crate::text::decimal(n as nat)
    }
}

fn signed_decimal_exec(n: i32) -> (res: Vec<char>)
    ensures
        res@ == signed_decimal(n),
{
    if n < 0 {
        let m: i64 = 0 - (n as i64);
        let mut v: Vec<char> = Vec::new();
        v.push('-');
        let d = crate::text::decimal_exec(m as u64);
        let mut i: usize = 0;
        while i < d.len()
            invariant
                i <= d.len(),
                v@ == seq!['-'] + d@.take(i as int),
            decreases d.len() - i,
        {
            v.push(d[i]);
            assert(d@.take(i + 1) == d@.take(i as int).push(d@[i as int]));
            i = i + 1;
        }
        proof {
            reveal_strlit("-");
            assert(d@.take(d@.len() as int) == d@);
            assert("-"@ =~= seq!['-']);
        }
        v
    } else {
        crate::text::decimal_exec(n as u64)
    }
}

/// The program run as the local server: the configured path (trimmed) when set, else the
/// installed runtime, else `llama-server` from `PATH`.
pub open spec fn server_program(runtime_path: Seq<char>, installed: Option<Seq<char>>) -> Seq<char> {
    if trim(runtime_path).len() > 0 {
        trim(runtime_path)
    } else {
        match installed {
            Some(p) => p,
            None => "llama-server"@,
        }
    }
}

/// The server's arguments: model, loopback host, port, context size and, when not zero,
/// the number of GPU layers.
pub open spec fn server_args(model: Seq<char>, port: u16, context: usize, gpu_layers: i32) -> Seq<
    Seq<char>,
> {
    seq![
        "-m"@,
        model,
        "--host"@,
        "127.0.0.1"@,
        "--port"@,
        crate::text::decimal(port as nat),
        "-c"@,
        crate::text::decimal(context as nat),
    ] + if gpu_layers != 0 {
        seq!["-ngl"@, signed_decimal(gpu_layers)]
    } else {
        Seq::empty()
    }
}

/// How to start the local server.
pub struct ServerCommand {
    pub program: String,
    pub args: Vec<String>,
    /// The installed runtime is used: run it from the runtime folder, with that folder on
    /// the library search paths.
    pub in_runtime_dir: bool,
}

/// The command that starts the local server for `model_path`; `installed` is the installed
/// runtime binary, when there is one.
pub fn llama_server_command(
    runtime_path: &str,
    installed: Option<&str>,
    model_path: &str,
    port: u16,
    context: usize,
    gpu_layers: i32,
) -> (res: ServerCommand)
    ensures
        res.program@ == server_program(
            runtime_path@,
            match installed {
                Some(p) => Some(p@),
                None => None,
            },
        ),
        res.args@.map_values(|a: String| a@) == server_args(model_path@, port, context, gpu_layers),
        res.in_runtime_dir == (installed is Some && trim(runtime_path@).len() == 0),
{
    let t = trim_chars(&chars_of(runtime_path));
    let program = if t.len() > 0 {
        string_of(&t)
    } else {
        match installed {
            Some(p) => owned(p),
            None => owned("llama-server"),
        }
    };
    let mut args: Vec<String> = Vec::new();
    args.push(owned("-m"));
    args.push(owned(model_path));
    args.push(owned("--host"));
    args.push(owned("127.0.0.1"));
    args.push(owned("--port"));
    args.push(string_of(&crate::text::decimal_exec(port as u64)));
    args.push(owned("-c"));
    args.push(string_of(&crate::text::decimal_exec(context as u64)));
    if gpu_layers != 0 {
        args.push(owned("-ngl"));
        args.push(string_of(&signed_decimal_exec(gpu_layers)));
    }
    let ghost av = args@.map_values(|a: String| a@);
    assert(av =~= server_args(model_path@, port, context, gpu_layers));
    ServerCommand { program, args, in_runtime_dir: installed.is_some() && t.len() == 0 }
}

/// Why the local server did not start: `error` is the launch error and `log` the log path.
pub fn server_start_error(runtime_path: &str, error: &str, log: &str) -> (res: String)
    ensures
        res@ == if trim(runtime_path@).len() == 0 {
            "Could not start bundled/PATH llama-server: "@ + error@
                + ". Use Install runtime or set llama-server path. Log: "@ + log@
        } else {
            "Could not start llama-server at `"@ + trim(runtime_path@) + "`: "@ + error@
                + ". Log: "@ + log@
        },
{
    let t = trim_chars(&chars_of(runtime_path));
    if t.len() == 0 {
        let mut m = owned("Could not start bundled/PATH llama-server: ");
        push_str(&mut m, error);
        push_str(&mut m, ". Use Install runtime or set llama-server path. Log: ");
        push_str(&mut m, log);
        m
    } else {
        let mut m = owned("Could not start llama-server at `");
        crate::text::push_chars(&mut m, &t);
        push_str(&mut m, "`: ");
        push_str(&mut m, error);
        push_str(&mut m, ". Log: ");
        push_str(&mut m, log);
        m
    }
}

} // verus!
