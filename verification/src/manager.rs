//! High-level interface to the encrypted vault: CRUD and fuzzy search over
//! the vault document, persisted through the encrypted document store.

use vstd::prelude::*;
use crate::error::{CoreError, StoreError};
use crate::secret::{Secret, SecretView, secret_wf, now_micros, LEN_LIMIT};
use crate::vault_data::{
    VaultData, DocView, doc_wf, has_id, idx_of_id, ids_unique, check_doc_wf, lemma_idx_of_id,
    CURRENT_VERSION,
};
use crate::codec::{encode_doc, decode_doc, doc_bounded, secret_bounded};
use crate::store::{vault_file_exists, vault_save_text, vault_load_text, store_error_of};
use crate::fuzzy::{match_score, matches_query, matching_secrets, score_or_zero, score_secret};

verus! {

/// The modification stamp an update writes: the given clock reading, bumped
/// one past the record's previous stamp when the clock has not advanced, so
/// that the modification time strictly increases.
pub open spec fn stamp(now: i64, prev: i64) -> i64 {
    if now > prev {
        now
    } else if prev < i64::MAX {
        (prev + 1) as i64
    } else {
        prev
    }
}

/// High-level interface to one unlocked vault.
pub struct VaultManager {
    store: serdevault::VaultFile,
    data: VaultData,
}

impl View for VaultManager {
    type V = DocView;

    closed spec fn view(&self) -> DocView {
        self.data@
    }
}

impl VaultManager {
    /// The manager's document is well-formed.
    pub open spec fn wf(&self) -> bool {
        doc_wf(self@)
    }

    proof fn lemma_wf_bounded(&self)
        requires
            self.wf(),
        ensures
            doc_bounded(self@),
    {
        assert forall|i: int| 0 <= i < self@.secrets.len() implies secret_bounded(
            #[trigger] self@.secrets[i],
        ) by {
            assert(secret_wf(self@.secrets[i]));
        }
    }

    /// Open an existing vault: load, decrypt and decode the document.
    /// Fails with `Vault(..)` on any store error, on a payload that does not
    /// decode, and on a document of another revision.
    pub fn open(store: serdevault::VaultFile) -> (r: Result<VaultManager, CoreError>)
        ensures
            match r {
                Ok(m) => m.wf(),
                Err(e) => e is Vault,
            },
    {
        let text = match vault_load_text(&store) {
            Ok(t) => t,
            Err(e) => {
                return Err(CoreError::Vault(store_error_of(e)));
            },
        };
        let data = match decode_doc(text.as_str()) {
            Some(d) => d,
            None => {
                return Err(CoreError::Vault(StoreError::CorruptPayload));
            },
        };
        if !check_doc_wf(&data) {
            return Err(CoreError::Vault(StoreError::CorruptPayload));
        }
        Ok(VaultManager { store, data })
    }

    /// Create a new, empty vault and persist it immediately, so the file
    /// exists and is valid from the start.
    pub fn create(store: serdevault::VaultFile) -> (r: Result<VaultManager, CoreError>)
        ensures
            match r {
                Ok(m) => m.wf() && m@.version == CURRENT_VERSION && m@.secrets
                    == Seq::<SecretView>::empty(),
                Err(e) => e is Vault,
            },
    {
        let mgr = VaultManager { store, data: VaultData::default() };
        match mgr.save() {
            Ok(_) => Ok(mgr),
            Err(e) => Err(e),
        }
    }

    /// Open the vault if its file exists, or create a new one otherwise.
    pub fn open_or_create(store: serdevault::VaultFile) -> (r: Result<VaultManager, CoreError>)
        ensures
            match r {
                Ok(m) => m.wf(),
                Err(e) => e is Vault,
            },
    {
        if vault_file_exists(&store) {
            Self::open(store)
        } else {
            Self::create(store)
        }
    }

    /// All secrets, in insertion order.
    pub fn list(&self) -> (r: &Vec<Secret>)
        ensures
            r.deep_view() == self@.secrets,
    {
        &self.data.secrets
    }

    /// Look up a secret by its identifier.
    pub fn get(&self, id: u128) -> (r: Option<&Secret>)
        requires
            self.wf(),
        ensures
            match r {
                Some(s) => has_id(self@.secrets, id) && s@ == self@.secrets[idx_of_id(
                    self@.secrets,
                    id,
                )] && s@.id == id,
                None => !has_id(self@.secrets, id),
            },
    {
        let n = self.data.secrets.len();
        let mut i: usize = 0;
        while i < n
            invariant
                self.wf(),
                n == self.data.secrets.len(),
                i <= n,
                forall|k: int| 0 <= k < i ==> #[trigger] self@.secrets[k].id != id,
            decreases n - i,
        {
            if self.data.secrets[i].id == id {
                proof {
                    assert(self@.secrets[i as int] == self.data.secrets@[i as int]@);
                    lemma_idx_of_id(self@.secrets, id, i as int);
                }
                return Some(&self.data.secrets[i]);
            }
            proof {
                assert(self@.secrets[i as int] == self.data.secrets@[i as int]@);
            }
            i = i + 1;
        }
        None
    }

    /// Persist the current in-memory document to disk.
    pub fn save(&self) -> (r: Result<(), CoreError>)
        requires
            self.wf(),
        ensures
            r matches Err(e) ==> e is Vault,
    {
        proof {
            self.lemma_wf_bounded();
        }
        let payload = encode_doc(&self.data);
        match vault_save_text(&self.store, &payload) {
            Ok(_) => Ok(()),
            Err(e) => Err(CoreError::Vault(store_error_of(e))),
        }
    }

    /// Append a new secret and persist the vault. The caller supplies a fresh
    /// identifier (as `Secret::new` does); the document is extended even when
    /// persisting afterwards fails.
    pub fn add(&mut self, secret: Secret) -> (r: Result<(), CoreError>)
        requires
            old(self).wf(),
            secret_wf(secret@),
            !has_id(old(self)@.secrets, secret@.id),
            old(self)@.secrets.len() + 1 < LEN_LIMIT,
        ensures
            final(self)@.version == old(self)@.version,
            final(self)@.secrets == old(self)@.secrets.push(secret@),
            final(self).wf(),
            r matches Err(e) ==> e is Vault,
    {
        let ghost old_secrets = self@.secrets;
        let ghost sv = secret@;
        self.data.secrets.push(secret);
        proof {
            assert(self@.secrets =~~= old_secrets.push(sv));
            let ss = self@.secrets;
            assert forall|i: int| 0 <= i < ss.len() implies secret_wf(#[trigger] ss[i]) by {
                if i < old_secrets.len() {
                    assert(ss[i] == old_secrets[i]);
                } else {
                    assert(ss[i] == sv);
                }
            }
            assert forall|i: int, j: int| 0 <= i < j < ss.len() implies #[trigger] ss[i].id
                != #[trigger] ss[j].id by {
                if j < old_secrets.len() {
                    assert(old_secrets[i].id != old_secrets[j].id);
                } else {
                    assert(ss[j] == sv);
                    assert(!has_id(old_secrets, sv.id));
                    assert(old_secrets[i].id != sv.id);
                }
            }
        }
        self.save()
    }

    /// Replace the secret with the given identifier, forcing the stored
    /// identifier and creation time and stamping the modification time with
    /// the given clock reading, then persist. Fails with `NotFound` when the
    /// identifier is absent, leaving the document unchanged.
    pub fn update_with_time(&mut self, id: u128, updated: Secret, now: i64) -> (r: Result<
        (),
        CoreError,
    >)
        requires
            old(self).wf(),
            secret_wf(updated@),
        ensures
            final(self).wf(),
            !has_id(old(self)@.secrets, id) ==> final(self)@ == old(self)@ && (r matches Err(e)
                && e matches CoreError::NotFound(n) && n == id),
            has_id(old(self)@.secrets, id) ==> {
                let i = idx_of_id(old(self)@.secrets, id);
                let old_rec = old(self)@.secrets[i];
                let new_rec = SecretView {
                    id: id,
                    created_at: old_rec.created_at,
                    updated_at: stamp(now, old_rec.updated_at),
                    ..updated@
                };
                &&& final(self)@.version == old(self)@.version
                &&& final(self)@.secrets == old(self)@.secrets.update(i, new_rec)
                &&& (old_rec.updated_at < i64::MAX ==> new_rec.updated_at > old_rec.updated_at)
                &&& (r matches Ok(u) || (r matches Err(e) && e is Vault))
            },
    {
        let n = self.data.secrets.len();
        let mut i: usize = 0;
        while i < n
            invariant
                self.wf(),
                self == old(self),
                secret_wf(updated@),
                n == self.data.secrets.len(),
                i <= n,
                forall|k: int| 0 <= k < i ==> #[trigger] self@.secrets[k].id != id,
            decreases n - i,
        {
            if self.data.secrets[i].id == id {
                proof {
                    assert(self@.secrets[i as int] == self.data.secrets@[i as int]@);
                    lemma_idx_of_id(self@.secrets, id, i as int);
                }
                let created = self.data.secrets[i].created_at;
                let prev = self.data.secrets[i].updated_at;
                let new_stamp = if now > prev {
                    now
                } else if prev < i64::MAX {
                    prev + 1
                } else {
                    prev
                };
                let mut rec = updated;
                rec.id = id;
                rec.created_at = created;
                rec.updated_at = new_stamp;
                proof {
                    assert(secret_wf(self@.secrets[i as int]));
                    assert(prev >= created);
                }
                let ghost rv = rec@;
                self.data.secrets.remove(i);
                self.data.secrets.insert(i, rec);
                proof {
                    assert(self@.secrets =~~= old(self)@.secrets.update(i as int, rv));
                    let ss = self@.secrets;
                    assert forall|k: int| 0 <= k < ss.len() implies secret_wf(
                        #[trigger] ss[k],
                    ) by {
                        if k != i as int {
                            assert(ss[k] == old(self)@.secrets[k]);
                        } else {
                            assert(ss[k] == rv);
                            assert(rv.updated_at >= rv.created_at);
                        }
                    }
                    assert forall|k: int, l: int| 0 <= k < l < ss.len() implies #[trigger] ss[k].id
                        != #[trigger] ss[l].id by {
                        assert(old(self)@.secrets[k].id != old(self)@.secrets[l].id);
                        if k == i as int {
                            assert(ss[k].id == old(self)@.secrets[k].id);
                        }
                        if l == i as int {
                            assert(ss[l].id == old(self)@.secrets[l].id);
                        }
                    }
                }
                return self.save();
            }
            proof {
                assert(self@.secrets[i as int] == self.data.secrets@[i as int]@);
            }
            i = i + 1;
        }
        Err(CoreError::NotFound(id))
    }

    /// Replace the secret with the given identifier, stamping the
    /// modification time with the current wall clock, then persist.
    pub fn update(&mut self, id: u128, updated: Secret) -> (r: Result<(), CoreError>)
        requires
            old(self).wf(),
            secret_wf(updated@),
        ensures
            final(self).wf(),
            !has_id(old(self)@.secrets, id) ==> final(self)@ == old(self)@ && (r matches Err(e)
                && e matches CoreError::NotFound(n) && n == id),
            has_id(old(self)@.secrets, id) ==> {
                let i = idx_of_id(old(self)@.secrets, id);
                let old_rec = old(self)@.secrets[i];
                let new_rec = final(self)@.secrets[i];
                &&& final(self)@.version == old(self)@.version
                &&& final(self)@.secrets == old(self)@.secrets.update(i, new_rec)
                &&& new_rec.id == id
                &&& new_rec.created_at == old_rec.created_at
                &&& new_rec.updated_at >= new_rec.created_at
                &&& (old_rec.updated_at < i64::MAX ==> new_rec.updated_at > old_rec.updated_at)
                &&& new_rec.name == updated@.name
                &&& new_rec.username == updated@.username
                &&& new_rec.password == updated@.password
                &&& new_rec.url == updated@.url
                &&& new_rec.notes == updated@.notes
                &&& new_rec.tags == updated@.tags
                &&& (r matches Ok(u) || (r matches Err(e) && e is Vault))
            },
    {
        let now = now_micros();
        let r = self.update_with_time(id, updated, now);
        proof {
            if has_id(old(self)@.secrets, id) {
                let i = idx_of_id(old(self)@.secrets, id);
                assert(self@.secrets == old(self)@.secrets.update(i, self@.secrets[i]));
            }
        }
        r
    }

    /// Remove the secret with the given identifier and persist. Fails with
    /// `NotFound` when the identifier is absent, leaving the document
    /// unchanged.
    pub fn delete(&mut self, id: u128) -> (r: Result<(), CoreError>)
        requires
            old(self).wf(),
        ensures
            final(self).wf(),
            !has_id(old(self)@.secrets, id) ==> final(self)@ == old(self)@ && (r matches Err(e)
                && e matches CoreError::NotFound(n) && n == id),
            has_id(old(self)@.secrets, id) ==> {
                &&& final(self)@.version == old(self)@.version
                &&& final(self)@.secrets == old(self)@.secrets.remove(
                    idx_of_id(old(self)@.secrets, id),
                )
                &&& !has_id(final(self)@.secrets, id)
                &&& (r matches Ok(u) || (r matches Err(e) && e is Vault))
            },
    {
        let n = self.data.secrets.len();
        let mut i: usize = 0;
        while i < n
            invariant
                self.wf(),
                self == old(self),
                n == self.data.secrets.len(),
                i <= n,
                forall|k: int| 0 <= k < i ==> #[trigger] self@.secrets[k].id != id,
            decreases n - i,
        {
            if self.data.secrets[i].id == id {
                proof {
                    assert(self@.secrets[i as int] == self.data.secrets@[i as int]@);
                    lemma_idx_of_id(self@.secrets, id, i as int);
                }
                self.data.secrets.remove(i);
                proof {
                    assert(self@.secrets =~~= old(self)@.secrets.remove(i as int));
                    let ss = self@.secrets;
                    assert forall|k: int| 0 <= k < ss.len() implies secret_wf(
                        #[trigger] ss[k],
                    ) by {
                        if k < i as int {
                            assert(ss[k] == old(self)@.secrets[k]);
                        } else {
                            assert(ss[k] == old(self)@.secrets[k + 1]);
                        }
                    }
                    assert forall|k: int, l: int| 0 <= k < l < ss.len() implies #[trigger] ss[k].id
                        != #[trigger] ss[l].id by {
                        let k0 = if k < i as int {
                            k
                        } else {
                            k + 1
                        };
                        let l0 = if l < i as int {
                            l
                        } else {
                            l + 1
                        };
                        assert(ss[k] == old(self)@.secrets[k0]);
                        assert(ss[l] == old(self)@.secrets[l0]);
                        assert(old(self)@.secrets[k0].id != old(self)@.secrets[l0].id);
                    }
                    assert forall|k: int| 0 <= k < ss.len() implies #[trigger] ss[k].id != id by {
                        let k0 = if k < i as int {
                            k
                        } else {
                            k + 1
                        };
                        assert(ss[k] == old(self)@.secrets[k0]);
                        if k0 != i as int {
                            assert(old(self)@.secrets[k0].id != old(self)@.secrets[i as int].id);
                        }
                    }
                }
                return self.save();
            }
            proof {
                assert(self@.secrets[i as int] == self.data.secrets@[i as int]@);
            }
            i = i + 1;
        }
        Err(CoreError::NotFound(id))
    }

    /// Consume the manager. Dropping the store handle zeroizes the retained
    /// master password; the decrypted document is dropped with it.
    pub fn lock(self) {
    }

    /// Fuzzy search over name, username, url and tags.
    ///
    /// An empty query returns every secret in insertion order. Otherwise the
    /// result holds exactly the matching secrets (as a multiset), sorted by
    /// score, best first; callers must not rely on the order among equal
    /// scores.
    pub fn search<'a>(&'a self, query: &str) -> (r: Vec<&'a Secret>)
        requires
            self.wf(),
        ensures
            query@.len() == 0 ==> r.deep_view() == self@.secrets,
            query@.len() > 0 ==> {
                &&& r.deep_view().to_multiset() == matching_secrets(
                    self@.secrets,
                    query@,
                ).to_multiset()
                &&& (forall|k: int|
                    0 <= k < r.len() ==> matches_query(#[trigger] r.deep_view()[k], query@))
                &&& (forall|a: int, b: int|
                    0 <= a < b < r.len() ==> score_or_zero(match_score(r.deep_view()[a], query@))
                        >= score_or_zero(match_score(r.deep_view()[b], query@)))
                &&& ((r.len() == 0) <==> (forall|i: int|
                    0 <= i < self@.secrets.len() ==> !matches_query(
                        #[trigger] self@.secrets[i],
                        query@,
                    )))
            },
    {
        let ghost doc = self@.secrets;
        let ghost q = query@;
        let n = self.data.secrets.len();
        if query.unicode_len() == 0 {
            let mut out: Vec<&Secret> = Vec::new();
            let mut i: usize = 0;
            while i < n
                invariant
                    n == self.data.secrets.len(),
                    doc == self@.secrets,
                    i <= n,
                    out.deep_view() == doc.take(i as int),
                decreases n - i,
            {
                let ghost old_dv = out.deep_view();
                let ghost old_seq = out@;
                let elem = &self.data.secrets[i];
                out.push(elem);
                proof {
                    assert(old_dv.len() == old_seq.len());
                    assert(old_seq.len() == i);
                    assert(out@ == old_seq.push(elem));
                    assert(self@.secrets[i as int] == self.data.secrets@[i as int]@);
                    assert(elem.deep_view() == doc[i as int]);
                    assert forall|k: int| 0 <= k < out@.len() implies out.deep_view()[k]
                        == doc.take(i as int + 1)[k] by {
                        if k < i as int {
                            assert(out@[k] == old_seq[k]);
                            assert(out.deep_view()[k] == out@[k].deep_view());
                            assert(old_dv[k] == old_seq[k].deep_view());
                        } else {
                            assert(out@[k] == elem);
                            assert(out.deep_view()[k] == out@[k].deep_view());
                        }
                    }
                    assert(out.deep_view() =~~= doc.take(i as int + 1));
                }
                i = i + 1;
            }
            proof {
                assert(doc.take(n as int) =~~= doc);
            }
            return out;
        }
        let mut scored: Vec<(i64, usize)> = Vec::new();
        proof {
            broadcast use vstd::seq_lib::group_to_multiset_ensures;

            reveal(Seq::filter);
            assert(views_at(doc, scored@) =~~= Seq::<SecretView>::empty());
            assert(doc.take(0) =~~= Seq::<SecretView>::empty());
            assert(matching_secrets(doc.take(0), q).len() == 0);
            assert(views_at(doc, scored@).to_multiset() =~= matching_secrets(
                doc.take(0),
                q,
            ).to_multiset());
        }
        let mut i: usize = 0;
        while i < n
            invariant
                self.wf(),
                n == self.data.secrets.len(),
                doc == self@.secrets,
                q == query@,
                i <= n,
                forall|a: int| 0 <= a < scored.len() ==> pair_ok(doc, q, #[trigger] scored@[a]),
                views_at(doc, scored@).to_multiset() == matching_secrets(
                    doc.take(i as int),
                    q,
                ).to_multiset(),
            decreases n - i,
        {
            proof {
                assert(self@.secrets[i as int] == self.data.secrets@[i as int]@);
            }
            let sc = score_secret(&self.data.secrets[i], query);
            proof {
                broadcast use vstd::seq_lib::group_to_multiset_ensures;

                reveal(Seq::filter);
                let pre = doc.take(i as int + 1);
                assert(pre.drop_last() =~~= doc.take(i as int));
                assert(pre.last() == doc[i as int]);
                assert(matching_secrets(pre, q) == if matches_query(doc[i as int], q) {
                    matching_secrets(doc.take(i as int), q).push(doc[i as int])
                } else {
                    matching_secrets(doc.take(i as int), q)
                });
            }
            match sc {
                Some(v) => {
                    let ghost old_scored = scored@;
                    scored.push((v, i));
                    proof {
                        broadcast use vstd::seq_lib::group_to_multiset_ensures;

                        assert(views_at(doc, scored@) =~~= views_at(doc, old_scored).push(
                            doc[i as int],
                        ));
                    }
                },
                None => {},
            }
            i = i + 1;
        }
        proof {
            assert(doc.take(n as int) =~~= doc);
        }
        let m = scored.len();
        let mut sorted_pairs: Vec<(i64, usize)> = Vec::new();
        proof {
            assert(views_at(doc, sorted_pairs@) =~~= Seq::<SecretView>::empty());
            assert(scored@.take(0) =~~= Seq::<(i64, usize)>::empty());
            assert(views_at(doc, scored@.take(0)) =~~= Seq::<SecretView>::empty());
            assert(views_at(doc, sorted_pairs@).to_multiset() =~= views_at(
                doc,
                scored@.take(0),
            ).to_multiset());
        }
        let mut k: usize = 0;
        while k < m
            invariant
                m == scored.len(),
                k <= m,
                forall|a: int| 0 <= a < scored.len() ==> pair_ok(doc, q, #[trigger] scored@[a]),
                forall|a: int|
                    0 <= a < sorted_pairs.len() ==> pair_ok(doc, q, #[trigger] sorted_pairs@[a]),
                forall|a: int, b: int|
                    0 <= a < b < sorted_pairs.len() ==> sorted_pairs@[a].0 >= sorted_pairs@[b].0,
                views_at(doc, sorted_pairs@).to_multiset() == views_at(
                    doc,
                    scored@.take(k as int),
                ).to_multiset(),
            decreases m - k,
        {
            let pair = scored[k];
            let mut j: usize = 0;
            while j < sorted_pairs.len() && sorted_pairs[j].0 >= pair.0
                invariant
                    j <= sorted_pairs.len(),
                    forall|a: int| 0 <= a < j ==> #[trigger] sorted_pairs@[a].0 >= pair.0,
                decreases sorted_pairs.len() - j,
            {
                j = j + 1;
            }
            let ghost old_sorted = sorted_pairs@;
            sorted_pairs.insert(j, pair);
            proof {
                broadcast use vstd::seq_lib::group_to_multiset_ensures;

                old_sorted.insert_ensures(j as int, pair);
                assert(views_at(doc, sorted_pairs@) =~~= views_at(doc, old_sorted).insert(
                    j as int,
                    doc[pair.1 as int],
                ));
                lemma_insert_to_multiset(views_at(doc, old_sorted), j as int, doc[pair.1 as int]);
                assert(scored@.take(k as int + 1).drop_last() =~~= scored@.take(k as int));
                assert(views_at(doc, scored@.take(k as int + 1)) =~~= views_at(
                    doc,
                    scored@.take(k as int),
                ).push(doc[pair.1 as int]));
                assert forall|a: int, b: int|
                    0 <= a < b < sorted_pairs.len() implies sorted_pairs@[a].0
                    >= sorted_pairs@[b].0 by {
                    if b < j as int {
                        assert(sorted_pairs@[a] == old_sorted[a]);
                        assert(sorted_pairs@[b] == old_sorted[b]);
                    } else if a > j as int {
                        assert(sorted_pairs@[a] == old_sorted[a - 1]);
                        assert(sorted_pairs@[b] == old_sorted[b - 1]);
                    } else if a < j as int && b == j as int {
                        assert(sorted_pairs@[a] == old_sorted[a]);
                        assert(old_sorted[a].0 >= pair.0);
                    } else if a == j as int && b > j as int {
                        assert(sorted_pairs@[b] == old_sorted[b - 1]);
                        if j < old_sorted.len() {
                            assert(old_sorted[j as int].0 < pair.0 || j as int == old_sorted.len());
                            assert(old_sorted[b - 1].0 <= old_sorted[j as int].0);
                        }
                    } else if a < j as int && b > j as int {
                        assert(sorted_pairs@[a] == old_sorted[a]);
                        assert(sorted_pairs@[b] == old_sorted[b - 1]);
                        assert(old_sorted[a].0 >= pair.0);
                        if j < old_sorted.len() {
                            assert(old_sorted[b - 1].0 <= old_sorted[j as int].0);
                        }
                    }
                }
            }
            k = k + 1;
        }
        proof {
            assert(scored@.take(m as int) =~~= scored@);
        }
        let mut out: Vec<&Secret> = Vec::new();
        let mut k2: usize = 0;
        while k2 < sorted_pairs.len()
            invariant
                self.wf(),
                n == self.data.secrets.len(),
                doc == self@.secrets,
                k2 <= sorted_pairs.len(),
                forall|a: int|
                    0 <= a < sorted_pairs.len() ==> pair_ok(doc, q, #[trigger] sorted_pairs@[a]),
                out.deep_view() == views_at(doc, sorted_pairs@.take(k2 as int)),
            decreases sorted_pairs.len() - k2,
        {
            let idx = sorted_pairs[k2].1;
            let ghost old_dv = out.deep_view();
            let ghost old_seq = out@;
            let elem = &self.data.secrets[idx];
            out.push(elem);
            proof {
                assert(old_dv.len() == old_seq.len());
                assert(views_at(doc, sorted_pairs@.take(k2 as int)).len() == k2);
                assert(old_seq.len() == k2);
                assert(out@ == old_seq.push(elem));
                assert(self@.secrets[idx as int] == self.data.secrets@[idx as int]@);
                assert(elem.deep_view() == doc[idx as int]);
                assert forall|a: int| 0 <= a < out@.len() implies out.deep_view()[a] == views_at(
                    doc,
                    sorted_pairs@.take(k2 as int + 1),
                )[a] by {
                    if a < k2 as int {
                        assert(out@[a] == old_seq[a]);
                        assert(out.deep_view()[a] == out@[a].deep_view());
                        assert(old_dv[a] == old_seq[a].deep_view());
                        assert(sorted_pairs@.take(k2 as int + 1)[a] == sorted_pairs@.take(
                            k2 as int,
                        )[a]);
                    } else {
                        assert(out@[a] == elem);
                        assert(out.deep_view()[a] == out@[a].deep_view());
                        assert(sorted_pairs@.take(k2 as int + 1)[a] == sorted_pairs@[k2 as int]);
                    }
                }
                assert(out.deep_view() =~~= views_at(doc, sorted_pairs@.take(k2 as int + 1)));
            }
            k2 = k2 + 1;
        }
        proof {
            broadcast use vstd::seq_lib::group_to_multiset_ensures;
            broadcast use vstd::seq_lib::group_filter_ensures;

            assert(sorted_pairs@.take(sorted_pairs.len() as int) =~~= sorted_pairs@);
            assert(out.deep_view() == views_at(doc, sorted_pairs@));
            assert(out.deep_view().to_multiset() == matching_secrets(doc, q).to_multiset());
            assert forall|kk: int| 0 <= kk < out.len() implies matches_query(
                #[trigger] out.deep_view()[kk],
                q,
            ) by {
                assert(pair_ok(doc, q, sorted_pairs@[kk]));
                assert(out.deep_view()[kk] == doc[sorted_pairs@[kk].1 as int]);
            }
            assert forall|a: int, b: int| 0 <= a < b < out.len() implies score_or_zero(
                match_score(out.deep_view()[a], q),
            ) >= score_or_zero(match_score(out.deep_view()[b], q)) by {
                assert(pair_ok(doc, q, sorted_pairs@[a]));
                assert(pair_ok(doc, q, sorted_pairs@[b]));
                assert(sorted_pairs@[a].0 >= sorted_pairs@[b].0);
            }
            assert(out.len() == matching_secrets(doc, q).to_multiset().len());
            if out.len() == 0 {
                assert forall|ii: int| 0 <= ii < doc.len() implies !matches_query(
                    #[trigger] doc[ii],
                    q,
                ) by {
                    if matches_query(doc[ii], q) {
                        doc.lemma_filter_contains(|sv: SecretView| matches_query(sv, q), ii);
                        assert(matching_secrets(doc, q).contains(doc[ii]));
                        assert(matching_secrets(doc, q).len() > 0);
                    }
                }
            } else {
                assert(matching_secrets(doc, q).to_multiset().len() > 0);
                lemma_filter_none_when_no_match(doc, q);
            }
        }
        out
    }
}

/// Whether a scored pair points at a record of the document that matches the
/// query with exactly that score.
pub open spec fn pair_ok(doc: Seq<SecretView>, q: Seq<char>, p: (i64, usize)) -> bool {
    p.1 < doc.len() && match_score(doc[p.1 as int], q) == Some(p.0)
}

/// The records a sequence of scored pairs points at, in pair order.
pub open spec fn views_at(doc: Seq<SecretView>, pairs: Seq<(i64, usize)>) -> Seq<SecretView> {
    pairs.map_values(|p: (i64, usize)| doc[p.1 as int])
}

/// Inserting anywhere adds exactly one occurrence to the multiset.
proof fn lemma_insert_to_multiset<A>(s: Seq<A>, j: int, x: A)
    requires
        0 <= j <= s.len(),
    ensures
        s.insert(j, x).to_multiset() == s.to_multiset().insert(x),
    decreases s.len(),
{
    broadcast use vstd::seq_lib::group_to_multiset_ensures;

    if j == s.len() {
        assert(s.insert(j, x) =~= s.push(x));
    } else {
        let dl = s.drop_last();
        assert(s.insert(j, x) =~= dl.insert(j, x).push(s.last()));
        lemma_insert_to_multiset(dl, j, x);
        assert(s =~= dl.push(s.last()));
        assert(s.insert(j, x).to_multiset() =~= dl.to_multiset().insert(x).insert(s.last()));
        assert(s.to_multiset().insert(x) =~= dl.to_multiset().insert(s.last()).insert(x));
        assert(dl.to_multiset().insert(x).insert(s.last()) =~= dl.to_multiset().insert(
            s.last(),
        ).insert(x));
    }
}

/// A search result has exactly as many entries as there are matching records.
pub proof fn lemma_search_len(doc: Seq<SecretView>, q: Seq<char>, views: Seq<SecretView>)
    requires
        views.to_multiset() == matching_secrets(doc, q).to_multiset(),
    ensures
        views.len() == matching_secrets(doc, q).len(),
{
    broadcast use vstd::seq_lib::group_to_multiset_ensures;

    assert(views.to_multiset().len() == views.len());
    assert(matching_secrets(doc, q).to_multiset().len() == matching_secrets(doc, q).len());
}

/// Everything the filter keeps was in the document.
proof fn lemma_matching_subset(doc: Seq<SecretView>, q: Seq<char>, sv: SecretView)
    requires
        matching_secrets(doc, q).contains(sv),
    ensures
        doc.contains(sv),
    decreases doc.len(),
{
    reveal(Seq::filter);
    if doc.len() > 0 {
        let dl = doc.drop_last();
        if sv == doc.last() {
            assert(doc[doc.len() - 1] == sv);
        } else {
            if matches_query(doc.last(), q) {
                let m = matching_secrets(doc, q);
                let j = choose|j: int| 0 <= j < m.len() && m[j] == sv;
                assert(m == matching_secrets(dl, q).push(doc.last()));
                assert(matching_secrets(dl, q).contains(sv)) by {
                    assert(m[j] == matching_secrets(dl, q)[j]);
                }
            } else {
                assert(matching_secrets(doc, q) == matching_secrets(dl, q));
            }
            lemma_matching_subset(dl, q, sv);
            let i = choose|i: int| 0 <= i < dl.len() && dl[i] == sv;
            assert(doc[i] == sv);
        }
    }
}

/// An element of a search result is a record of the document, matches the
/// query, and is found again by its identifier.
pub proof fn lemma_result_elem_in_doc(
    doc: Seq<SecretView>,
    q: Seq<char>,
    views: Seq<SecretView>,
    k: int,
)
    requires
        views.to_multiset() == matching_secrets(doc, q).to_multiset(),
        0 <= k < views.len(),
        ids_unique(doc),
    ensures
        has_id(doc, views[k].id),
        doc[idx_of_id(doc, views[k].id)] == views[k],
        matches_query(views[k], q),
    decreases doc.len(),
{
    broadcast use vstd::seq_lib::group_to_multiset_ensures;
    broadcast use vstd::seq_lib::group_filter_ensures;

    let sv = views[k];
    assert(views.contains(sv));
    assert(views.to_multiset().count(sv) > 0);
    let m = matching_secrets(doc, q);
    assert(m.contains(sv));
    let j = choose|j: int| 0 <= j < m.len() && m[j] == sv;
    assert(matches_query(m[j], q));
    lemma_matching_subset(doc, q, sv);
    let i = choose|i: int| 0 <= i < doc.len() && doc[i] == sv;
    lemma_idx_of_id(doc, sv.id, i);
}

/// If some record matches, the matching subsequence is non-empty.
proof fn lemma_filter_none_when_no_match(doc: Seq<SecretView>, q: Seq<char>)
    requires
        matching_secrets(doc, q).len() > 0,
    ensures
        exists|i: int| 0 <= i < doc.len() && matches_query(#[trigger] doc[i], q),
    decreases doc.len(),
{
    reveal(Seq::filter);
    if doc.len() > 0 {
        let dl = doc.drop_last();
        if matches_query(doc.last(), q) {
            assert(matches_query(doc[doc.len() - 1], q));
        } else {
            assert(matching_secrets(doc, q) == matching_secrets(dl, q));
            lemma_filter_none_when_no_match(dl, q);
            let i = choose|i: int| 0 <= i < dl.len() && matches_query(#[trigger] dl[i], q);
            assert(doc[i] == dl[i]);
        }
    }
}

} // verus!
