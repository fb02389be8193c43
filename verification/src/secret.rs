//! The secret record: one credential entry inside the vault.

use vstd::prelude::*;

verus! {

/// Upper bound (exclusive) on every string length, tag count and secret count
/// the vault handles, so that all sizes fit the on-disk length fields.
pub const LEN_LIMIT: u64 = 0x1_0000_0000;

/// The mathematical content of a secret record.
#[verifier::ext_equal]
pub ghost struct SecretView {
    pub id: u128,
    pub name: Seq<char>,
    pub username: Option<Seq<char>>,
    pub password: Seq<char>,
    pub url: Option<Seq<char>>,
    pub notes: Option<Seq<char>>,
    pub tags: Seq<Seq<char>>,
    pub created_at: i64,
    pub updated_at: i64,
}

/// A single secret entry stored in the vault.
///
/// The identifier is a 128-bit universally unique value, generated at creation
/// and immutable thereafter; timestamps count microseconds since the epoch.
#[derive(Debug, Clone)]
pub struct Secret {
    pub id: u128,
    pub name: String,
    pub username: Option<String>,
    pub password: String,
    pub url: Option<String>,
    pub notes: Option<String>,
    pub tags: Vec<String>,
    pub created_at: i64,
    pub updated_at: i64,
}

impl View for Secret {
    type V = SecretView;

    open spec fn view(&self) -> SecretView {
        SecretView {
            id: self.id,
            name: self.name@,
            username: self.username.deep_view(),
            password: self.password@,
            url: self.url.deep_view(),
            notes: self.notes.deep_view(),
            tags: self.tags.deep_view(),
            created_at: self.created_at,
            updated_at: self.updated_at,
        }
    }
}

impl DeepView for Secret {
    type V = SecretView;

    open spec fn deep_view(&self) -> SecretView {
        self.view()
    }
}

/// An optional field is either absent or a non-empty string of bounded length.
pub open spec fn opt_field_wf(o: Option<Seq<char>>) -> bool {
    match o {
        Some(t) => 0 < t.len() < LEN_LIMIT,
        None => true,
    }
}

/// Well-formedness of one secret record: a non-empty name and password,
/// optional fields non-empty when present, non-empty tags, every length below
/// `LEN_LIMIT`, and a modification time no earlier than the creation time.
pub open spec fn secret_wf(s: SecretView) -> bool {
    &&& 0 < s.name.len() < LEN_LIMIT
    &&& 0 < s.password.len() < LEN_LIMIT
    &&& opt_field_wf(s.username)
    &&& opt_field_wf(s.url)
    &&& opt_field_wf(s.notes)
    &&& s.tags.len() < LEN_LIMIT
    &&& (forall|i: int| 0 <= i < s.tags.len() ==> 0 < #[trigger] s.tags[i].len() < LEN_LIMIT)
    &&& s.updated_at >= s.created_at
}

/// Relies on `uuid::Uuid::new_v4` (via `as_u128`): a freshly generated random
/// version-4 identifier. Nothing is promised of the value.
#[verifier::external_body]
fn fresh_id() -> u128 {
    uuid::Uuid::new_v4().as_u128()
}

/// Relies on `chrono::Utc::now` (via `timestamp_micros`): the current
/// wall-clock time in microseconds since the Unix epoch. Nothing is promised
/// of the value.
#[verifier::external_body]
pub(crate) fn now_micros() -> i64 {
    chrono::Utc::now().timestamp_micros()
}

impl Secret {
    /// Create a new secret with a generated identifier and current timestamps.
    /// Optional fields start absent and the tag list empty.
    pub fn new(name: &str, password: &str) -> (r: Secret)
        requires
            0 < name@.len() < LEN_LIMIT,
            0 < password@.len() < LEN_LIMIT,
        ensures
            r@.name == name@,
            r@.password == password@,
            r@.username is None,
            r@.url is None,
            r@.notes is None,
            r@.tags == Seq::<Seq<char>>::empty(),
            r@.created_at == r@.updated_at,
            secret_wf(r@),
    {
        let now = now_micros();
        let r = Secret {
            id: fresh_id(),
            name: String::from_str(name),
            username: None,
            password: String::from_str(password),
            url: None,
            notes: None,
            tags: Vec::new(),
            created_at: now,
            updated_at: now,
        };
        proof {
            assert(r@.tags =~= Seq::<Seq<char>>::empty());
        }
        r
    }

    /// Move the modification time forward to the current wall-clock time.
    /// If the clock reports a time before the creation time, the creation time
    /// is kept, so that the record invariant is never broken.
    pub fn touch(&mut self)
        ensures
            final(self)@ == (SecretView { updated_at: final(self)@.updated_at, ..old(self)@ }),
            final(self)@.updated_at >= old(self)@.created_at,
    {
        let now = now_micros();
        self.updated_at = if now >= self.created_at {
            now
        } else {
            self.created_at
        };
    }
}

} // verus!
