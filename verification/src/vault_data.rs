//! The vault document: a versioned, ordered collection of secret records.

use vstd::prelude::*;
use crate::secret::{Secret, SecretView, secret_wf, LEN_LIMIT};

verus! {

/// The document revision this library reads and writes.
pub const CURRENT_VERSION: u8 = 1;

/// The mathematical content of a vault document.
#[verifier::ext_equal]
pub ghost struct DocView {
    pub version: u8,
    pub secrets: Seq<SecretView>,
}

/// Root structure persisted inside the encrypted vault file.
#[derive(Debug)]
pub struct VaultData {
    pub version: u8,
    pub secrets: Vec<Secret>,
}

impl View for VaultData {
    type V = DocView;

    open spec fn view(&self) -> DocView {
        DocView { version: self.version, secrets: self.secrets.deep_view() }
    }
}

/// Whether some record of the sequence carries the given identifier.
pub open spec fn has_id(ss: Seq<SecretView>, id: u128) -> bool {
    exists|i: int| 0 <= i < ss.len() && ss[i].id == id
}

/// The index of the record carrying the given identifier; meaningful only
/// when `has_id` holds and identifiers are unique.
pub open spec fn idx_of_id(ss: Seq<SecretView>, id: u128) -> int {
    choose|i: int| 0 <= i < ss.len() && ss[i].id == id
}

/// No two records of the sequence share an identifier.
pub open spec fn ids_unique(ss: Seq<SecretView>) -> bool {
    forall|i: int, j: int|
        0 <= i < j < ss.len() ==> #[trigger] ss[i].id != #[trigger] ss[j].id
}

/// Well-formedness of a vault document: the current version, a bounded number
/// of well-formed records, and pairwise distinct identifiers.
pub open spec fn doc_wf(d: DocView) -> bool {
    &&& d.version == CURRENT_VERSION
    &&& d.secrets.len() < LEN_LIMIT
    &&& (forall|i: int| 0 <= i < d.secrets.len() ==> secret_wf(#[trigger] d.secrets[i]))
    &&& ids_unique(d.secrets)
}

/// With unique identifiers, the index found for an identifier is the index of
/// any record that carries it.
pub proof fn lemma_idx_of_id(ss: Seq<SecretView>, id: u128, i: int)
    requires
        ids_unique(ss),
        0 <= i < ss.len(),
        ss[i].id == id,
    ensures
        has_id(ss, id),
        idx_of_id(ss, id) == i,
{
    assert(has_id(ss, id));
    let j = idx_of_id(ss, id);
    assert(0 <= j < ss.len() && ss[j].id == id);
    if j < i {
        assert(ss[j].id != ss[i].id);
    } else if i < j {
        assert(ss[i].id != ss[j].id);
    }
}

impl Default for VaultData {
    /// The empty document at the current version.
    fn default() -> (r: Self)
        ensures
            r@.version == CURRENT_VERSION,
            r@.secrets == Seq::<SecretView>::empty(),
            doc_wf(r@),
    {
        let r = VaultData { version: CURRENT_VERSION, secrets: Vec::new() };
        proof {
            assert(r@.secrets =~= Seq::<SecretView>::empty());
        }
        r
    }
}

/// Check one secret against its well-formedness predicate.
pub fn check_secret_wf(s: &Secret) -> (r: bool)
    ensures
        r == secret_wf(s@),
{
    let name_len = s.name.as_str().unicode_len();
    if !(0 < name_len && (name_len as u64) < LEN_LIMIT) {
        return false;
    }
    let pw_len = s.password.as_str().unicode_len();
    if !(0 < pw_len && (pw_len as u64) < LEN_LIMIT) {
        return false;
    }
    match &s.username {
        Some(t) => {
            let l = t.as_str().unicode_len();
            if !(0 < l && (l as u64) < LEN_LIMIT) {
                return false;
            }
        },
        None => {},
    }
    match &s.url {
        Some(t) => {
            let l = t.as_str().unicode_len();
            if !(0 < l && (l as u64) < LEN_LIMIT) {
                return false;
            }
        },
        None => {},
    }
    match &s.notes {
        Some(t) => {
            let l = t.as_str().unicode_len();
            if !(0 < l && (l as u64) < LEN_LIMIT) {
                return false;
            }
        },
        None => {},
    }
    if (s.tags.len() as u64) >= LEN_LIMIT {
        return false;
    }
    let mut i: usize = 0;
    while i < s.tags.len()
        invariant
            i <= s.tags.len(),
            forall|k: int| 0 <= k < i ==> 0 < #[trigger] s@.tags[k].len() < LEN_LIMIT,
        decreases s.tags.len() - i,
    {
        proof {
            assert(s@.tags[i as int] == s.tags@[i as int]@);
        }
        let l = s.tags[i].as_str().unicode_len();
        if !(0 < l && (l as u64) < LEN_LIMIT) {
            return false;
        }
        i = i + 1;
    }
    s.updated_at >= s.created_at
}

/// Check a whole document against its well-formedness predicate.
pub fn check_doc_wf(d: &VaultData) -> (r: bool)
    ensures
        r == doc_wf(d@),
{
    if d.version != CURRENT_VERSION {
        return false;
    }
    if (d.secrets.len() as u64) >= LEN_LIMIT {
        return false;
    }
    let n = d.secrets.len();
    let mut i: usize = 0;
    while i < n
        invariant
            n == d.secrets.len(),
            i <= n,
            forall|k: int| 0 <= k < i ==> secret_wf(#[trigger] d@.secrets[k]),
            forall|k: int, j: int| 0 <= k < j < i ==> d@.secrets[k].id != d@.secrets[j].id,
        decreases n - i,
    {
        if !check_secret_wf(&d.secrets[i]) {
            return false;
        }
        let mut j: usize = 0;
        while j < i
            invariant
                i < n,
                n == d.secrets.len(),
                j <= i,
                forall|k: int| 0 <= k < j ==> d@.secrets[k].id != d@.secrets[i as int].id,
            decreases i - j,
        {
            if d.secrets[j].id == d.secrets[i].id {
                proof {
                    assert(d@.secrets[j as int] == d.secrets@[j as int]@);
                    assert(d@.secrets[i as int] == d.secrets@[i as int]@);
                    assert(!ids_unique(d@.secrets)) by {
                        if ids_unique(d@.secrets) {
                            assert(d@.secrets[j as int].id != d@.secrets[i as int].id);
                        }
                    }
                }
                return false;
            }
            j = j + 1;
        }
        i = i + 1;
    }
    true
}

} // verus!
