//! Session state: what the user is looking at, plus ambient session data.

use vstd::prelude::*;
use crate::manager::VaultManager;
use crate::secret::Secret;
use crate::strutil::{has_visible, check_has_visible, join_comma_space, join_tags};

verus! {

/// A keyboard key, reduced to what the session reacts to.
#[derive(Clone, Copy, Debug)]
pub enum Key {
    Char(char),
    Enter,
    Esc,
    Backspace,
    Tab,
    BackTab,
    Up,
    Down,
    Left,
    Right,
    Other,
}

/// One keyboard event: the key and whether Control was held.
#[derive(Clone, Copy, Debug)]
pub struct KeyInput {
    pub code: Key,
    pub ctrl: bool,
}

/// Fields of a secret being added or edited; tags are held as one
/// comma-separated string until the form is saved.
#[derive(Debug, Clone)]
pub struct SecretDraft {
    pub name: String,
    pub username: String,
    pub password: String,
    pub url: String,
    pub tags: String,
    pub notes: String,
}

/// The mathematical content of a draft.
#[verifier::ext_equal]
pub ghost struct DraftView {
    pub name: Seq<char>,
    pub username: Seq<char>,
    pub password: Seq<char>,
    pub url: Seq<char>,
    pub tags: Seq<char>,
    pub notes: Seq<char>,
}

impl View for SecretDraft {
    type V = DraftView;

    open spec fn view(&self) -> DraftView {
        DraftView {
            name: self.name@,
            username: self.username@,
            password: self.password@,
            url: self.url@,
            tags: self.tags@,
            notes: self.notes@,
        }
    }
}

/// An optional string as a draft field: absent is the empty string.
pub open spec fn opt_or_empty(o: Option<Seq<char>>) -> Seq<char> {
    match o {
        Some(t) => t,
        None => Seq::empty(),
    }
}

impl SecretDraft {
    /// The all-empty draft.
    pub fn empty() -> (r: Self)
        ensures
            r@.name == Seq::<char>::empty(),
            r@.username == Seq::<char>::empty(),
            r@.password == Seq::<char>::empty(),
            r@.url == Seq::<char>::empty(),
            r@.tags == Seq::<char>::empty(),
            r@.notes == Seq::<char>::empty(),
    {
        SecretDraft {
            name: String::new(),
            username: String::new(),
            password: String::new(),
            url: String::new(),
            tags: String::new(),
            notes: String::new(),
        }
    }

    /// The draft pre-filled from an existing secret, tags joined with `", "`.
    pub fn from_secret(s: &Secret) -> (r: Self)
        ensures
            r@.name == s@.name,
            r@.username == opt_or_empty(s@.username),
            r@.password == s@.password,
            r@.url == opt_or_empty(s@.url),
            r@.tags == join_comma_space(s@.tags),
            r@.notes == opt_or_empty(s@.notes),
    {
        SecretDraft {
            name: s.name.clone(),
            username: match &s.username {
                Some(t) => t.clone(),
                None => String::new(),
            },
            password: s.password.clone(),
            url: match &s.url {
                Some(t) => t.clone(),
                None => String::new(),
            },
            tags: join_tags(&s.tags),
            notes: match &s.notes {
                Some(t) => t.clone(),
                None => String::new(),
            },
        }
    }

    /// The error message for an invalid draft, or nothing when it can be
    /// saved: the name must have visible content and the password must be
    /// non-empty.
    pub fn validate(&self) -> (r: Option<&'static str>)
        ensures
            !has_visible(self@.name) ==> (r matches Some(m) && m@ == "Name is required"@),
            has_visible(self@.name) && self@.password.len() == 0 ==> (r matches Some(m) && m@
                == "Password is required"@),
            has_visible(self@.name) && self@.password.len() > 0 ==> r is None,
    {
        if !check_has_visible(self.name.as_str()) {
            return Some("Name is required");
        }
        if self.password.as_str().unicode_len() == 0 {
            return Some("Password is required");
        }
        None
    }
}

/// How the form was opened: to add a new secret, or to edit the one with the
/// given identifier.
#[derive(Debug, Clone, Copy)]
pub enum FormMode {
    Add,
    Edit(u128),
}

/// Which screen the user is on, with its transient data.
#[derive(Debug)]
pub enum AppView {
    Locked { input: String, error: Option<String> },
    List { search_query: String, selected_idx: usize },
    Detail { secret_id: u128, show_password: bool },
    Form {
        mode: FormMode,
        draft: SecretDraft,
        focused_field: usize,
        show_password: bool,
        error: Option<String>,
    },
    Help,
}

/// The whole session: the current screen plus ambient data.
pub struct AppState {
    pub view: AppView,
    pub vault: Option<VaultManager>,
    pub vault_path: String,
    /// When set, the clipboard is to be cleared at this time (microseconds
    /// since the epoch).
    pub clipboard_clear_at: Option<i64>,
    pub should_quit: bool,
    /// Transient status message shown in the list status bar.
    pub status: Option<String>,
}

impl AppState {
    /// The locked session pointed at a vault path.
    pub fn new(vault_path: String) -> (r: Self)
        ensures
            r.view matches AppView::Locked { input, error } && input@ == Seq::<char>::empty()
                && error is None,
            r.vault is None,
            r.vault_path == vault_path,
            r.clipboard_clear_at is None,
            !r.should_quit,
            r.status is None,
    {
        AppState {
            view: AppView::Locked { input: String::new(), error: None },
            vault: None,
            vault_path,
            clipboard_clear_at: None,
            should_quit: false,
            status: None,
        }
    }

    /// Whether a vault file exists at the session's path right now.
    pub fn vault_exists(&self) -> bool {
        crate::store::path_exists(self.vault_path.as_str())
    }

    /// Whole seconds until the armed clipboard deadline, read against the
    /// wall clock; absent when no deadline is armed. The exact count for a
    /// given clock reading is `clipboard_secs_at`.
    pub fn clipboard_secs_remaining(&self) -> (r: Option<u32>)
        ensures
            r is Some <==> self.clipboard_clear_at is Some,
    {
        match self.clipboard_clear_at {
            Some(d) => {
                let now = crate::secret::now_micros();
                Some(clipboard_secs_at(d, now))
            },
            None => None,
        }
    }
}

/// Whole seconds from `now` to `deadline`, zero once passed, saturated at
/// the largest expressible count.
pub open spec fn secs_between(deadline: i64, now: i64) -> u32 {
    if deadline > now {
        let s = (deadline - now) / 1_000_000;
        if s > u32::MAX {
            u32::MAX
        } else {
            s as u32
        }
    } else {
        0
    }
}

/// Compute `secs_between` on machine integers.
pub fn clipboard_secs_at(deadline: i64, now: i64) -> (r: u32)
    ensures
        r == secs_between(deadline, now),
{
    if deadline > now {
        let diff: i128 = (deadline as i128) - (now as i128);
        let s: i128 = diff / 1_000_000;
        if s > u32::MAX as i128 {
            u32::MAX
        } else {
            s as u32
        }
    } else {
        0
    }
}

impl AppState {
    /// Return to the list screen with a cleared search and selection.
    pub fn go_to_list(&mut self)
        ensures
            final(self).view matches AppView::List { search_query, selected_idx } && search_query@
                == Seq::<char>::empty() && selected_idx == 0,
            final(self).vault == old(self).vault,
            final(self).vault_path == old(self).vault_path,
            final(self).clipboard_clear_at == old(self).clipboard_clear_at,
            final(self).should_quit == old(self).should_quit,
            final(self).status == old(self).status,
    {
        self.view = AppView::List { search_query: String::new(), selected_idx: 0 };
    }
}

/// The draft field at a focus index: name, username, password, url, tags,
/// notes; any other index falls back to the name.
pub open spec fn draft_field(d: DraftView, f: int) -> Seq<char> {
    if f == 1 {
        d.username
    } else if f == 2 {
        d.password
    } else if f == 3 {
        d.url
    } else if f == 4 {
        d.tags
    } else if f == 5 {
        d.notes
    } else {
        d.name
    }
}

/// The draft with the field at a focus index replaced.
pub open spec fn draft_set_field(d: DraftView, f: int, v: Seq<char>) -> DraftView {
    if f == 1 {
        DraftView { username: v, ..d }
    } else if f == 2 {
        DraftView { password: v, ..d }
    } else if f == 3 {
        DraftView { url: v, ..d }
    } else if f == 4 {
        DraftView { tags: v, ..d }
    } else if f == 5 {
        DraftView { notes: v, ..d }
    } else {
        DraftView { name: v, ..d }
    }
}

/// Borrow the draft field a focus index points at.
pub fn get_field_mut(draft: &mut SecretDraft, field: usize) -> (r: &mut String)
    ensures
        (*r)@ == draft_field(old(draft)@, field as int),
        final(draft)@ == draft_set_field(old(draft)@, field as int, final(r)@),
{
    match field {
        1 => &mut draft.username,
        2 => &mut draft.password,
        3 => &mut draft.url,
        4 => &mut draft.tags,
        5 => &mut draft.notes,
        _ => &mut draft.name,
    }
}

} // verus!
