//! The input dispatcher: maps keyboard events to session-state transitions
//! and vault operations.

use vstd::prelude::*;
use crate::app::{
    AppState, AppView, FormMode, Key, KeyInput, SecretDraft, DraftView, draft_field,
    draft_set_field, get_field_mut, opt_or_empty,
};
use crate::error::{CoreError, core_error_text};
use crate::generator::{GeneratorConfig, generate, charset};
use crate::manager::{VaultManager, lemma_result_elem_in_doc, lemma_search_len};
use crate::secret::{Secret, SecretView, LEN_LIMIT};
use crate::store::open_vault_file;
use crate::strutil::{has_visible, split_trimmed};
use crate::vault_data::{has_id, idx_of_id};
use crate::fuzzy::{matches_query, matching_secrets};

verus! {

/// How long a copied password stays on the clipboard, in microseconds.
pub const CLIPBOARD_TIMEOUT_MICROS: i64 = 30_000_000;

/// What came of an attempt to write the clipboard.
#[derive(Clone, Copy, Debug, PartialEq, Eq, Structural)]
pub enum ClipOutcome {
    /// The text is on the clipboard.
    Copied,
    /// No clipboard is available on this system.
    Unavailable,
    /// The clipboard refused the text.
    Failed,
}

/// Relies on `arboard::Clipboard::new` and `arboard::Clipboard::set_text`:
/// puts the text on the system clipboard. Nothing is promised of the outcome.
#[verifier::external_body]
fn clipboard_set(text: &str) -> ClipOutcome {
    match arboard::Clipboard::new() {
        Ok(mut cb) => match cb.set_text(text) {
            Ok(_) => ClipOutcome::Copied,
            Err(_) => ClipOutcome::Failed,
        },
        Err(_) => ClipOutcome::Unavailable,
    }
}

/// The session's vault, when unlocked, is well-formed.
pub open spec fn app_wf(app: AppState) -> bool {
    app.vault matches Some(v) ==> v.wf()
}

/// The ambient session fields other than the screen, the vault and the status
/// are unchanged.
pub open spec fn ambient_same(pre: AppState, post: AppState) -> bool {
    &&& post.vault_path == pre.vault_path
    &&& post.clipboard_clear_at == pre.clipboard_clear_at
    &&& post.should_quit == pre.should_quit
}

/// Everything but the screen is unchanged.
pub open spec fn only_view_changed(pre: AppState, post: AppState) -> bool {
    &&& ambient_same(pre, post)
    &&& post.vault == pre.vault
    &&& post.status == pre.status
}

/// The number of entries the list screen shows for a query.
pub open spec fn list_count(app: AppState, q: Seq<char>) -> nat {
    match app.vault {
        Some(v) => if q.len() == 0 {
            v@.secrets.len()
        } else {
            matching_secrets(v@.secrets, q).len()
        },
        None => 0,
    }
}

/// The locked screen: typing edits the password, enter attempts the unlock,
/// escape quits.
pub open spec fn locked_step(pre: AppState, key: KeyInput, post: AppState) -> bool {
    pre.view matches AppView::Locked { input: pi, error: pe } ==> match key.code {
        Key::Char(c) => only_view_changed(pre, post) && (post.view matches AppView::Locked {
            input,
            error,
        } && input@ == pi@.push(c) && error is None),
        Key::Backspace => only_view_changed(pre, post) && (post.view matches AppView::Locked {
            input,
            error,
        } && input@ == (if pi@.len() > 0 {
            pi@.drop_last()
        } else {
            pi@
        }) && error == pe),
        Key::Enter => ambient_same(pre, post) && post.status == pre.status && ((
        // the store accepted the password: the vault is open and the list shows
        post.vault matches Some(v) && v.wf() && (post.view matches AppView::List {
            search_query,
            selected_idx,
        } && search_query@ == Seq::<char>::empty() && selected_idx == 0)) || (
        // the store refused: stay locked with a cleared input and a generic error
        post.vault == pre.vault && (post.view matches AppView::Locked { input, error } && input@
            == Seq::<char>::empty() && (error matches Some(m) && m@
            == "Wrong password or corrupted vault"@)))),
        Key::Esc => post.vault == pre.vault && post.status == pre.status && post.vault_path
            == pre.vault_path && post.clipboard_clear_at == pre.clipboard_clear_at
            && post.should_quit && post.view == pre.view,
        _ => post == pre,
    }
}

/// The help screen: escape, question mark or q return to the list.
pub open spec fn help_step(pre: AppState, key: KeyInput, post: AppState) -> bool {
    pre.view is Help ==> match key.code {
        Key::Esc => only_view_changed(pre, post) && fresh_list_view(post),
        Key::Char(c) => if c == '?' || c == 'q' {
            only_view_changed(pre, post) && fresh_list_view(post)
        } else {
            post == pre
        },
        _ => post == pre,
    }
}

/// The screen is the list with an empty search and the first row selected.
pub open spec fn fresh_list_view(post: AppState) -> bool {
    post.view matches AppView::List { search_query, selected_idx } && search_query@
        == Seq::<char>::empty() && selected_idx == 0
}

/// The list screen with the same vault, query `q2` and selection `s2`.
pub open spec fn list_view_with(pre: AppState, post: AppState, q2: Seq<char>, s2: int) -> bool {
    &&& post.vault == pre.vault
    &&& ambient_same(pre, post)
    &&& post.status is None
    &&& (post.view matches AppView::List { search_query, selected_idx } && search_query@ == q2
        && selected_idx == s2)
}

/// A record with this identifier was in the document, matched the query (or,
/// for an empty query, was exactly the selected row), and has been removed
/// from it.
pub open spec fn removed_listed_record(
    pre: AppState,
    post: AppState,
    q: Seq<char>,
    shown: int,
    did: u128,
) -> bool {
    &&& pre.vault matches Some(v1) && post.vault matches Some(v2) && v2.wf() && v2@.version
        == v1@.version && has_id(v1@.secrets, did) && (q.len() > 0 ==> matches_query(
        v1@.secrets[idx_of_id(v1@.secrets, did)],
        q,
    )) && (q.len() == 0 ==> 0 <= shown < v1@.secrets.len() && v1@.secrets[shown].id == did)
        && v2@.secrets == v1@.secrets.remove(idx_of_id(v1@.secrets, did))
}

/// The list screen: typing narrows the search, j/k and the arrows move the
/// selection, enter opens the selected record, `d` deletes it, `n` opens the
/// add form, escape clears the search, `q` quits.
pub open spec fn list_step(pre: AppState, key: KeyInput, post: AppState) -> bool {
    pre.view matches AppView::List { search_query: q, selected_idx: sel } ==> {
        let cnt = list_count(pre, q@) as int;
        let shown = if sel < cnt {
            sel as int
        } else {
            cnt - 1
        };
        match key.code {
            Key::Char(c) => if c == 'q' {
                post.vault == pre.vault && post.vault_path == pre.vault_path
                    && post.clipboard_clear_at == pre.clipboard_clear_at && post.should_quit && (
                post.view == pre.view) && post.status is None
            } else if c == '?' {
                post.vault == pre.vault && ambient_same(pre, post) && post.status is None
                    && post.view is Help
            } else if c == 'j' {
                move_step(pre, post, q@, sel as int, cnt, true)
            } else if c == 'k' {
                move_step(pre, post, q@, sel as int, cnt, false)
            } else if c == 'n' {
                post.vault == pre.vault && ambient_same(pre, post) && post.status is None && (
                post.view matches AppView::Form { mode, draft, focused_field, show_password, error }
                    && mode is Add && focused_field == 0 && !show_password && error is None
                    && draft@.name == Seq::<char>::empty() && draft@.username
                    == Seq::<char>::empty() && draft@.password == Seq::<char>::empty()
                    && draft@.url == Seq::<char>::empty() && draft@.tags == Seq::<char>::empty()
                    && draft@.notes == Seq::<char>::empty())
            } else if c == 'd' {
                delete_listed_step(pre, post, q@, sel as int, shown, cnt)
            } else {
                list_view_with(pre, post, q@.push(c), 0)
            },
            Key::Down => move_step(pre, post, q@, sel as int, cnt, true),
            Key::Up => move_step(pre, post, q@, sel as int, cnt, false),
            Key::Enter => open_selected_step(pre, post, q@, shown, cnt),
            Key::Right => open_selected_step(pre, post, q@, shown, cnt),
            Key::Backspace => list_view_with(
                pre,
                post,
                if q@.len() > 0 {
                    q@.drop_last()
                } else {
                    q@
                },
                0,
            ),
            Key::Esc => list_view_with(
                pre,
                post,
                Seq::<char>::empty(),
                sel as int,
            ),
            _ => status_cleared(pre, post),
        }
    }
}

/// Moving the selection down or up, clamped to the shown entries.
pub open spec fn move_step(
    pre: AppState,
    post: AppState,
    q: Seq<char>,
    sel: int,
    cnt: int,
    down: bool,
) -> bool {
    let s2 = if down {
        if cnt > 0 {
            if sel + 1 < cnt {
                sel + 1
            } else {
                cnt - 1
            }
        } else {
            sel
        }
    } else {
        if sel > 0 {
            sel - 1
        } else {
            sel
        }
    };
    list_view_with(pre, post, q, s2)
}

/// Opening the selected entry: the detail screen of a record that the list
/// was showing; with nothing shown, nothing happens.
pub open spec fn open_selected_step(
    pre: AppState,
    post: AppState,
    q: Seq<char>,
    shown: int,
    cnt: int,
) -> bool {
    if cnt > 0 {
        &&& post.vault == pre.vault
        &&& ambient_same(pre, post)
        &&& post.status is None
        &&& match pre.vault {
            Some(v) => post.view matches AppView::Detail { secret_id, show_password }
                && !show_password && has_id(v@.secrets, secret_id) && (q.len() > 0
                ==> matches_query(v@.secrets[idx_of_id(v@.secrets, secret_id)], q)) && (q.len() == 0
                ==> secret_id == v@.secrets[shown].id),
            None => false,
        }
    } else {
        status_cleared(pre, post)
    }
}

/// Deleting the selected entry: it leaves the document, the selection is
/// re-clamped to the full list and the status says so; with nothing shown,
/// nothing happens.
pub open spec fn delete_listed_step(
    pre: AppState,
    post: AppState,
    q: Seq<char>,
    sel: int,
    shown: int,
    cnt: int,
) -> bool {
    if cnt > 0 {
        &&& ambient_same(pre, post)
        &&& (exists|did: u128| #[trigger] removed_listed_record(pre, post, q, shown, did))
        &&& (post.vault matches Some(v2) && (post.view matches AppView::List {
            search_query,
            selected_idx,
        } && search_query@ == q && selected_idx as int == (if v2@.secrets.len() == 0 {
            0
        } else if sel < v2@.secrets.len() {
            sel
        } else {
            v2@.secrets.len() - 1
        })))
        &&& (post.status matches Some(m) && m@ == "Secret deleted."@)
    } else {
        status_cleared(pre, post)
    }
}

/// Handle a key on the list screen.
pub fn handle_list(app: &mut AppState, key: KeyInput)
    requires
        old(app).view is List,
        app_wf(*old(app)),
    ensures
        app_wf(*final(app)),
        list_step(*old(app), key, *final(app)),
{
    app.status = None;
    let (search_query, selected_idx) = match &app.view {
        AppView::List { search_query, selected_idx } => (search_query.clone(), *selected_idx),
        _ => {
            return ;
        },
    };
    let count: usize = match &app.vault {
        Some(v) => {
            let r = v.search(search_query.as_str());
            proof {
                if search_query@.len() > 0 {
                    lemma_search_len(v@.secrets, search_query@, r.deep_view());
                }
                assert(r.deep_view().len() == r@.len());
            }
            r.len()
        },
        None => 0,
    };
    proof {
        assert(count as nat == list_count(*old(app), search_query@));
    }
    match key.code {
        Key::Char(c) => {
            if c == 'q' {
                app.should_quit = true;
            } else if c == '?' {
                app.view = AppView::Help;
            } else if c == 'j' {
                if count > 0 {
                    let new_idx = if selected_idx < count - 1 {
                        selected_idx + 1
                    } else {
                        count - 1
                    };
                    if let AppView::List { selected_idx, .. } = &mut app.view {
                        *selected_idx = new_idx;
                    }
                }
            } else if c == 'k' {
                if selected_idx > 0 {
                    let new_idx = selected_idx - 1;
                    if let AppView::List { selected_idx, .. } = &mut app.view {
                        *selected_idx = new_idx;
                    }
                }
            } else if c == 'n' {
                app.view = AppView::Form {
                    mode: FormMode::Add,
                    draft: SecretDraft::empty(),
                    focused_field: 0,
                    show_password: false,
                    error: None,
                };
            } else if c == 'd' {
                if count > 0 {
                    let idx = if selected_idx < count {
                        selected_idx
                    } else {
                        count - 1
                    };
                    let target: Option<u128> = match &app.vault {
                        Some(v) => {
                            let r = v.search(search_query.as_str());
                            if idx < r.len() {
                                proof {
                                    broadcast use vstd::seq_lib::group_to_multiset_ensures;

                                    assert(r.deep_view()[idx as int] == r@[idx as int]@);
                                    if search_query@.len() > 0 {
                                        lemma_result_elem_in_doc(
                                            v@.secrets,
                                            search_query@,
                                            r.deep_view(),
                                            idx as int,
                                        );
                                    } else {
                                        crate::vault_data::lemma_idx_of_id(
                                            v@.secrets,
                                            r.deep_view()[idx as int].id,
                                            idx as int,
                                        );
                                    }
                                }
                                Some(r[idx].id)
                            } else {
                                proof {
                                    if search_query@.len() > 0 {
                                        lemma_search_len(
                                            v@.secrets,
                                            search_query@,
                                            r.deep_view(),
                                        );
                                    }
                                    assert(r.deep_view().len() == r@.len());
                                }
                                None
                            }
                        },
                        None => None,
                    };
                    if let Some(did) = target {
                        if let Some(vault) = &mut app.vault {
                            let _ = vault.delete(did);
                        }
                        let new_count: usize = match &app.vault {
                            Some(v) => v.list().len(),
                            None => 0,
                        };
                        let clamped = if new_count == 0 {
                            0
                        } else if selected_idx < new_count {
                            selected_idx
                        } else {
                            new_count - 1
                        };
                        if let AppView::List { selected_idx, .. } = &mut app.view {
                            *selected_idx = clamped;
                        }
                        app.status = Some(String::from_str("Secret deleted."));
                        proof {
                            assert(removed_listed_record(
                                *old(app),
                                *app,
                                search_query@,
                                idx as int,
                                did,
                            ));
                        }
                    }
                }
            } else {
                if let AppView::List { search_query, selected_idx, .. } = &mut app.view {
                    search_query.push(c);
                    *selected_idx = 0;
                }
            }
        },
        Key::Down => {
            if count > 0 {
                let new_idx = if selected_idx < count - 1 {
                    selected_idx + 1
                } else {
                    count - 1
                };
                if let AppView::List { selected_idx, .. } = &mut app.view {
                    *selected_idx = new_idx;
                }
            }
        },
        Key::Up => {
            if selected_idx > 0 {
                let new_idx = selected_idx - 1;
                if let AppView::List { selected_idx, .. } = &mut app.view {
                    *selected_idx = new_idx;
                }
            }
        },
        Key::Enter | Key::Right => {
            if count > 0 {
                let idx = if selected_idx < count {
                    selected_idx
                } else {
                    count - 1
                };
                let target: Option<u128> = match &app.vault {
                    Some(v) => {
                        let r = v.search(search_query.as_str());
                        if idx < r.len() {
                            proof {
                                broadcast use vstd::seq_lib::group_to_multiset_ensures;

                                assert(r.deep_view()[idx as int] == r@[idx as int]@);
                                if search_query@.len() > 0 {
                                    lemma_result_elem_in_doc(
                                        v@.secrets,
                                        search_query@,
                                        r.deep_view(),
                                        idx as int,
                                    );
                                } else {
                                    crate::vault_data::lemma_idx_of_id(
                                        v@.secrets,
                                        r.deep_view()[idx as int].id,
                                        idx as int,
                                    );
                                }
                            }
                            Some(r[idx].id)
                        } else {
                            proof {
                                if search_query@.len() > 0 {
                                    lemma_search_len(v@.secrets, search_query@, r.deep_view());
                                }
                                assert(r.deep_view().len() == r@.len());
                            }
                            None
                        }
                    },
                    None => None,
                };
                if let Some(id) = target {
                    app.view = AppView::Detail { secret_id: id, show_password: false };
                }
            }
        },
        Key::Backspace => {
            if let AppView::List { search_query, selected_idx, .. } = &mut app.view {
                search_query.pop();
                *selected_idx = 0;
            }
        },
        Key::Esc => {
            if let AppView::List { search_query, .. } = &mut app.view {
                search_query.clear();
            }
        },
        _ => {},
    }
}

/// Handle a key on the locked screen.
pub fn handle_locked(app: &mut AppState, key: KeyInput)
    requires
        old(app).view is Locked,
        app_wf(*old(app)),
    ensures
        app_wf(*final(app)),
        locked_step(*old(app), key, *final(app)),
{
    match key.code {
        Key::Char(c) => {
            if let AppView::Locked { input, error } = &mut app.view {
                input.push(c);
                *error = None;
            }
        },
        Key::Backspace => {
            if let AppView::Locked { input, .. } = &mut app.view {
                input.pop();
            }
        },
        Key::Enter => {
            let password = match &app.view {
                AppView::Locked { input, .. } => input.clone(),
                _ => {
                    return ;
                },
            };
            let store = open_vault_file(app.vault_path.as_str(), password.as_str());
            match VaultManager::open_or_create(store) {
                Ok(manager) => {
                    app.vault = Some(manager);
                    app.go_to_list();
                },
                Err(_) => {
                    if let AppView::Locked { input, error } = &mut app.view {
                        *error = Some(String::from_str("Wrong password or corrupted vault"));
                        input.clear();
                    }
                },
            }
        },
        Key::Esc => {
            app.should_quit = true;
        },
        _ => {},
    }
}

/// The state with only the status line cleared.
pub open spec fn status_cleared(pre: AppState, post: AppState) -> bool {
    post == (AppState { status: None::<String>, ..pre })
}

/// The clipboard-clear deadline armed from a clock reading: thirty seconds
/// later, saturated at the largest expressible time.
pub open spec fn arm_deadline(now: i64) -> i64 {
    if now <= i64::MAX - CLIPBOARD_TIMEOUT_MICROS {
        (now + CLIPBOARD_TIMEOUT_MICROS) as i64
    } else {
        i64::MAX
    }
}

/// The detail screen: space toggles the password, `c` copies it, `e` opens
/// the edit form, `d` deletes, escape or left returns to the list.
pub open spec fn detail_step(pre: AppState, key: KeyInput, now: i64, post: AppState) -> bool {
    pre.view matches AppView::Detail { secret_id: id, show_password: sh } ==> match key.code {
        Key::Esc => back_to_list(pre, post),
        Key::Left => back_to_list(pre, post),
        Key::Char(c) => if c == '?' {
            post.vault == pre.vault && ambient_same(pre, post) && post.status is None
                && post.view is Help
        } else if c == ' ' {
            post.vault == pre.vault && ambient_same(pre, post) && post.status is None && (
            post.view matches AppView::Detail { secret_id: id2, show_password: sh2 } && id2 == id
                && sh2 == !sh)
        } else if c == 'c' {
            copy_outcome(pre, id, now, post)
        } else if c == 'e' {
            edit_outcome(pre, id, post)
        } else if c == 'd' {
            delete_outcome(pre, id, post)
        } else {
            status_cleared(pre, post)
        },
        _ => status_cleared(pre, post),
    }
}

/// The list screen replaces the detail screen, fresh.
pub open spec fn back_to_list(pre: AppState, post: AppState) -> bool {
    &&& post.vault == pre.vault
    &&& ambient_same(pre, post)
    &&& post.status is None
    &&& fresh_list_view(post)
}

/// What pressing `c` on the detail screen may do: on a successful copy the
/// clear deadline is armed and the status says so; on a clipboard failure
/// only the status changes; with no such record nothing happens.
pub open spec fn copy_outcome(pre: AppState, id: u128, now: i64, post: AppState) -> bool {
    &&& post.view == pre.view
    &&& post.vault == pre.vault
    &&& post.vault_path == pre.vault_path
    &&& post.should_quit == pre.should_quit
    &&& match pre.vault {
        Some(v) => if has_id(v@.secrets, id) {
            ||| (post.clipboard_clear_at == Some(arm_deadline(now)) && (post.status matches Some(
                m,
            ) && m@ == "Password copied \u{2014} clears in 30s"@))
            ||| (post.clipboard_clear_at == pre.clipboard_clear_at && (post.status matches Some(m)
                && (m@ == "Failed to copy to clipboard"@ || m@ == "Clipboard not available"@)))
        } else {
            post.clipboard_clear_at == pre.clipboard_clear_at && post.status is None
        },
        None => post.clipboard_clear_at == pre.clipboard_clear_at && post.status is None,
    }
}

/// What pressing `e` on the detail screen does: opens the edit form
/// pre-filled from the record, or nothing when the record is gone.
pub open spec fn edit_outcome(pre: AppState, id: u128, post: AppState) -> bool {
    &&& post.vault == pre.vault
    &&& ambient_same(pre, post)
    &&& post.status is None
    &&& match pre.vault {
        Some(v) => if has_id(v@.secrets, id) {
            let rec = v@.secrets[idx_of_id(v@.secrets, id)];
            post.view matches AppView::Form { mode, draft, focused_field, show_password, error }
                && mode matches FormMode::Edit(eid) && eid == id && focused_field == 0
                && !show_password && error is None && draft@.name == rec.name && draft@.username
                == opt_or_empty(rec.username) && draft@.password == rec.password && draft@.url
                == opt_or_empty(rec.url) && draft@.tags == crate::strutil::join_comma_space(
                rec.tags,
            ) && draft@.notes == opt_or_empty(rec.notes)
        } else {
            post.view == pre.view
        },
        None => post.view == pre.view,
    }
}

/// What pressing `d` on the detail screen may do: the record leaves the
/// document; if persisting succeeded too, the list screen returns with a
/// status, otherwise the screen stays.
pub open spec fn delete_outcome(pre: AppState, id: u128, post: AppState) -> bool {
    &&& ambient_same(pre, post)
    &&& match pre.vault {
        Some(v1) => post.vault matches Some(v2) && v2.wf() && v2@.version == v1@.version && (if
        has_id(v1@.secrets, id) {
            v2@.secrets == v1@.secrets.remove(idx_of_id(v1@.secrets, id)) && ((fresh_list_view(
                post,
            ) && (post.status matches Some(m) && m@ == "Secret deleted."@)) || (post.view
                == pre.view && post.status is None))
        } else {
            v2@ == v1@ && post.view == pre.view && post.status is None
        }),
        None => status_cleared(pre, post),
    }
}

/// Handle a key on the detail screen; `now` is the clock reading the
/// clipboard-clear deadline is armed from.
pub fn handle_detail(app: &mut AppState, key: KeyInput, now: i64)
    requires
        old(app).view is Detail,
        app_wf(*old(app)),
    ensures
        app_wf(*final(app)),
        detail_step(*old(app), key, now, *final(app)),
{
    app.status = None;
    let secret_id = match &app.view {
        AppView::Detail { secret_id, .. } => *secret_id,
        _ => {
            return ;
        },
    };
    match key.code {
        Key::Esc => {
            app.go_to_list();
        },
        Key::Left => {
            app.go_to_list();
        },
        Key::Char(c) => {
            if c == '?' {
                app.view = AppView::Help;
            } else if c == ' ' {
                if let AppView::Detail { show_password, .. } = &mut app.view {
                    *show_password = !*show_password;
                }
            } else if c == 'c' {
                let password: Option<String> = match &app.vault {
                    Some(v) => match v.get(secret_id) {
                        Some(s) => Some(s.password.clone()),
                        None => None,
                    },
                    None => None,
                };
                match password {
                    Some(pwd) => {
                        match clipboard_set(pwd.as_str()) {
                            ClipOutcome::Copied => {
                                let deadline = if now <= i64::MAX - CLIPBOARD_TIMEOUT_MICROS {
                                    now + CLIPBOARD_TIMEOUT_MICROS
                                } else {
                                    i64::MAX
                                };
                                app.clipboard_clear_at = Some(deadline);
                                app.status = Some(
                                    String::from_str("Password copied \u{2014} clears in 30s"),
                                );
                            },
                            ClipOutcome::Failed => {
                                app.status = Some(String::from_str("Failed to copy to clipboard"));
                            },
                            ClipOutcome::Unavailable => {
                                app.status = Some(String::from_str("Clipboard not available"));
                            },
                        }
                    },
                    None => {},
                }
            } else if c == 'e' {
                let draft: Option<SecretDraft> = match &app.vault {
                    Some(v) => match v.get(secret_id) {
                        Some(s) => Some(SecretDraft::from_secret(s)),
                        None => None,
                    },
                    None => None,
                };
                if let Some(d) = draft {
                    app.view = AppView::Form {
                        mode: FormMode::Edit(secret_id),
                        draft: d,
                        focused_field: 0,
                        show_password: false,
                        error: None,
                    };
                }
            } else if c == 'd' {
                let mut deleted = false;
                if let Some(vault) = &mut app.vault {
                    if vault.delete(secret_id).is_ok() {
                        deleted = true;
                    }
                }
                if deleted {
                    app.go_to_list();
                    app.status = Some(String::from_str("Secret deleted."));
                }
            }
        },
        _ => {},
    }
}

/// The form screen with the same mode and the given draft, focus, password
/// visibility and error.
pub open spec fn form_view_with(
    pre: AppState,
    post: AppState,
    mode: FormMode,
    d2: DraftView,
    f2: int,
    sh2: bool,
    has_err: bool,
) -> bool {
    &&& only_view_changed(pre, post)
    &&& (post.view matches AppView::Form {
        mode: m,
        draft,
        focused_field,
        show_password,
        error,
    } && m == mode && draft@ == d2 && focused_field == f2 && show_password == sh2 && (error is Some
        <==> has_err))
}

/// A record built from a saved draft: the exact name and password, optional
/// fields only where the draft had text, and the comma-split trimmed tags.
pub open spec fn built_from(sv: SecretView, d: DraftView) -> bool {
    &&& sv.name == d.name
    &&& sv.password == d.password
    &&& sv.username == (if d.username.len() == 0 {
        None::<Seq<char>>
    } else {
        Some(d.username)
    })
    &&& sv.url == (if d.url.len() == 0 {
        None::<Seq<char>>
    } else {
        Some(d.url)
    })
    &&& sv.notes == (if d.notes.len() == 0 {
        None::<Seq<char>>
    } else {
        Some(d.notes)
    })
    &&& sv.tags == split_trimmed(d.tags)
}

/// What saving the form may do. An invalid draft keeps the form with the
/// validation message. A valid one builds a record and hands it to the vault:
/// on success the list returns with a status line; when the vault or the
/// store refuses, the form stays with an error line.
pub open spec fn save_step(
    pre: AppState,
    post: AppState,
    mode: FormMode,
    d: DraftView,
    f: int,
    sh: bool,
) -> bool {
    if !has_visible(d.name) || d.password.len() == 0 {
        &&& form_view_with(pre, post, mode, d, f, sh, true)
        &&& (post.view matches AppView::Form { error, .. } && (error matches Some(m) && m@ == (if
        !has_visible(d.name) {
            "Name is required"@
        } else {
            "Password is required"@
        })))
    } else {
        match pre.vault {
            Some(v1) => {
                ||| (
                // saved: the document changed as the mode asks and the list returns
                post.vault matches Some(v2) && v2.wf() && v2@.version == v1@.version
                    && ambient_same(pre, post) && fresh_list_view(post) && (
                post.status matches Some(m) && m@ == "Secret saved."@) && (match mode {
                    FormMode::Add => v2@.secrets.len() == v1@.secrets.len() + 1 && v2@.secrets
                        == v1@.secrets.push(v2@.secrets.last()) && built_from(
                        v2@.secrets.last(),
                        d,
                    ) && v2@.secrets.last().created_at == v2@.secrets.last().updated_at,
                    FormMode::Edit(id) => has_id(v1@.secrets, id) && {
                        let i = idx_of_id(v1@.secrets, id);
                        let new_rec = v2@.secrets[i];
                        v2@.secrets == v1@.secrets.update(i, new_rec) && new_rec.id == id
                            && new_rec.created_at == v1@.secrets[i].created_at && (
                        v1@.secrets[i].updated_at < i64::MAX ==> new_rec.updated_at
                            > v1@.secrets[i].updated_at) && built_from(new_rec, d)
                    },
                }))
                ||| (
                // refused: the form stays, with an error line, the ambient state kept
                post.vault matches Some(v2) && v2.wf() && v2@.version == v1@.version
                    && ambient_same(pre, post) && post.status == pre.status && (
                post.view matches AppView::Form { mode: m2, draft, focused_field, error, .. } && m2
                    == mode && draft@ == d && focused_field == f && (error matches Some(m)
                    && exists|rest: Seq<char>| m@ == "Save failed: "@ + rest)))
            },
            None => post == pre,
        }
    }
}

/// The form screen: tab moves the focus, typing edits the focused field,
/// enter saves; on the password field `g` generates a password and space
/// toggles its visibility; escape cancels.
pub open spec fn form_step(pre: AppState, key: KeyInput, post: AppState) -> bool {
    pre.view matches AppView::Form {
        mode,
        draft,
        focused_field: f,
        show_password: sh,
        error: err,
    } ==> match key.code {
        Key::Esc => only_view_changed(pre, post) && (match mode {
            FormMode::Add => fresh_list_view(post),
            FormMode::Edit(id) => post.view matches AppView::Detail { secret_id, show_password }
                && secret_id == id && !show_password,
        }),
        Key::Tab => form_view_with(pre, post, mode, draft@, (f as int + 1) % 6, sh, err is Some),
        Key::BackTab => form_view_with(
            pre,
            post,
            mode,
            draft@,
            (f as int + 5) % 6,
            sh,
            err is Some,
        ),
        Key::Enter => save_step(pre, post, mode, draft@, f as int, sh),
        Key::Char(c) => if c == 'g' && f == 2 {
            &&& only_view_changed(pre, post)
            &&& (post.view matches AppView::Form {
                mode: m2,
                draft: d2,
                focused_field,
                show_password,
                error,
            } && m2 == mode && focused_field == f && show_password == sh && error == err && d2@ == (
            DraftView { password: d2@.password, ..draft@ }) && d2@.password.len() == 20 && (forall|
                i: int,
            |
                0 <= i < d2@.password.len() ==> charset(
                    GeneratorConfig {
                        length: 20,
                        uppercase: true,
                        lowercase: true,
                        digits: true,
                        symbols: true,
                    },
                ).contains(#[trigger] d2@.password[i])))
        } else if c == ' ' && f == 2 {
            form_view_with(pre, post, mode, draft@, f as int, !sh, err is Some)
        } else {
            form_view_with(
                pre,
                post,
                mode,
                draft_set_field(draft@, f as int, draft_field(draft@, f as int).push(c)),
                f as int,
                sh,
                false,
            )
        },
        Key::Backspace => form_view_with(
            pre,
            post,
            mode,
            draft_set_field(
                draft@,
                f as int,
                if draft_field(draft@, f as int).len() > 0 {
                    draft_field(draft@, f as int).drop_last()
                } else {
                    draft_field(draft@, f as int)
                },
            ),
            f as int,
            sh,
            false,
        ),
        _ => post == pre,
    }
}

/// Save the form: validate the draft, build the record, and hand it to the
/// vault manager.
pub fn save_form(app: &mut AppState)
    requires
        old(app).view is Form,
        app_wf(*old(app)),
    ensures
        app_wf(*final(app)),
        old(app).view matches AppView::Form {
            mode,
            draft,
            focused_field: f,
            show_password: sh,
            ..
        } ==> save_step(*old(app), *final(app), mode, draft@, f as int, sh),
{
    let (mode, draft) = match &app.view {
        AppView::Form { mode, draft, .. } => (
            *mode,
            SecretDraft {
                name: draft.name.clone(),
                username: draft.username.clone(),
                password: draft.password.clone(),
                url: draft.url.clone(),
                tags: draft.tags.clone(),
                notes: draft.notes.clone(),
            },
        ),
        _ => {
            return ;
        },
    };
    if let Some(msg) = draft.validate() {
        if let AppView::Form { error, .. } = &mut app.view {
            *error = Some(String::from_str(msg));
        }
        return ;
    }
    if app.vault.is_none() {
        return ;
    }
    // guard the machine limits the record type asks for
    let name_len = draft.name.as_str().unicode_len();
    let pw_len = draft.password.as_str().unicode_len();
    if (name_len as u64) >= LEN_LIMIT || (pw_len as u64) >= LEN_LIMIT {
        if let AppView::Form { error, .. } = &mut app.view {
            *error = Some(String::from_str("Save failed: field too long"));
        }
        proof {
            reveal_strlit("Save failed: field too long");
            reveal_strlit("Save failed: ");
            assert("Save failed: field too long"@ =~= "Save failed: "@
                + "Save failed: field too long"@.skip(13));
        }
        return ;
    }
    let mut secret = Secret::new(draft.name.as_str(), draft.password.as_str());
    if draft.username.as_str().unicode_len() > 0 {
        secret.username = Some(draft.username.clone());
    }
    if draft.url.as_str().unicode_len() > 0 {
        secret.url = Some(draft.url.clone());
    }
    if draft.notes.as_str().unicode_len() > 0 {
        secret.notes = Some(draft.notes.clone());
    }
    secret.tags = crate::strutil::split_tags(draft.tags.as_str());
    if !crate::vault_data::check_secret_wf(&secret) {
        if let AppView::Form { error, .. } = &mut app.view {
            *error = Some(String::from_str("Save failed: field too long"));
        }
        proof {
            reveal_strlit("Save failed: field too long");
            reveal_strlit("Save failed: ");
            assert("Save failed: field too long"@ =~= "Save failed: "@
                + "Save failed: field too long"@.skip(13));
        }
        return ;
    }
    let ghost sv = secret@;
    let result: Result<(), CoreError> = match mode {
        FormMode::Add => {
            let fresh = match &app.vault {
                Some(v) => v.get(secret.id).is_none() && (v.list().len() as u64) + 1 < LEN_LIMIT,
                None => false,
            };
            if fresh {
                match &mut app.vault {
                    Some(v) => v.add(secret),
                    None => {
                        return ;
                    },
                }
            } else {
                Err(CoreError::Vault(crate::error::StoreError::CorruptPayload))
            }
        },
        FormMode::Edit(id) => {
            match &mut app.vault {
                Some(v) => v.update(id, secret),
                None => {
                    return ;
                },
            }
        },
    };
    match result {
        Ok(_) => {
            app.go_to_list();
            app.status = Some(String::from_str("Secret saved."));
        },
        Err(e) => {
            let mut msg = String::from_str("Save failed: ");
            let t = e.message();
            msg.append(t.as_str());
            proof {
                assert(msg@ == "Save failed: "@ + core_error_text(e));
            }
            if let AppView::Form { error, .. } = &mut app.view {
                *error = Some(msg);
            }
        },
    }
}

/// Handle a key on the form screen.
pub fn handle_form(app: &mut AppState, key: KeyInput)
    requires
        old(app).view is Form,
        app_wf(*old(app)),
    ensures
        app_wf(*final(app)),
        form_step(*old(app), key, *final(app)),
{
    match key.code {
        Key::Esc => {
            let mode = match &app.view {
                AppView::Form { mode, .. } => *mode,
                _ => {
                    return ;
                },
            };
            match mode {
                FormMode::Add => {
                    app.go_to_list();
                },
                FormMode::Edit(id) => {
                    app.view = AppView::Detail { secret_id: id, show_password: false };
                },
            }
        },
        Key::Tab => {
            if let AppView::Form { focused_field, .. } = &mut app.view {
                let ghost fold: int = *focused_field as int;
                let f0 = *focused_field % 6;
                *focused_field = (f0 + 1) % 6;
                proof {
                    assert((f0 as int + 1) % 6 == (fold + 1) % 6) by (nonlinear_arith)
                        requires f0 as int == fold % 6 && fold >= 0;
                }
            }
        },
        Key::BackTab => {
            if let AppView::Form { focused_field, .. } = &mut app.view {
                let ghost fold: int = *focused_field as int;
                let f0 = *focused_field % 6;
                *focused_field = (f0 + 5) % 6;
                proof {
                    assert((f0 as int + 5) % 6 == (fold + 5) % 6) by (nonlinear_arith)
                        requires f0 as int == fold % 6 && fold >= 0;
                }
            }
        },
        Key::Enter => {
            save_form(app);
        },
        Key::Char(c) => {
            if c == 'g' {
                let is_pwd = match &app.view {
                    AppView::Form { focused_field, .. } => *focused_field == 2,
                    _ => false,
                };
                if is_pwd {
                    match generate(&GeneratorConfig::default()) {
                        Ok(pwd) => {
                            if let AppView::Form { draft, .. } = &mut app.view {
                                draft.password = pwd;
                            }
                        },
                        Err(_) => {},
                    }
                } else {
                    type_char(app, c);
                }
            } else if c == ' ' {
                let is_pwd = match &app.view {
                    AppView::Form { focused_field, .. } => *focused_field == 2,
                    _ => false,
                };
                if is_pwd {
                    if let AppView::Form { show_password, .. } = &mut app.view {
                        *show_password = !*show_password;
                    }
                } else {
                    type_char(app, c);
                }
            } else {
                type_char(app, c);
            }
        },
        Key::Backspace => {
            if let AppView::Form { draft, focused_field, error, .. } = &mut app.view {
                *error = None;
                let field = *focused_field;
                get_field_mut(draft, field).pop();
            }
        },
        _ => {},
    }
}

/// Append a character to the focused form field and clear the error line.
fn type_char(app: &mut AppState, c: char)
    ensures
        old(app).view matches AppView::Form {
            mode,
            draft,
            focused_field: f,
            show_password: sh,
            ..
        } ==> form_view_with(
            *old(app),
            *final(app),
            mode,
            draft_set_field(draft@, f as int, draft_field(draft@, f as int).push(c)),
            f as int,
            sh,
            false,
        ),
        !(old(app).view is Form) ==> *final(app) == *old(app),
        final(app).vault == old(app).vault,
{
    if let AppView::Form { draft, focused_field, error, .. } = &mut app.view {
        *error = None;
        let field = *focused_field;
        get_field_mut(draft, field).push(c);
    }
}

/// Handle one keyboard event: Control-C quits from any screen; otherwise the
/// screen's own handler runs. `now` is the clock reading used when a
/// clipboard-clear deadline has to be armed.
pub fn handle_key(app: &mut AppState, key: KeyInput, now: i64)
    requires
        app_wf(*old(app)),
    ensures
        app_wf(*final(app)),
        (key.ctrl && (key.code matches Key::Char(c) && c == 'c')) ==> *final(app) == (AppState {
            should_quit: true,
            ..*old(app)
        }),
        !(key.ctrl && (key.code matches Key::Char(c) && c == 'c')) ==> {
            &&& locked_step(*old(app), key, *final(app))
            &&& list_step(*old(app), key, *final(app))
            &&& detail_step(*old(app), key, now, *final(app))
            &&& form_step(*old(app), key, *final(app))
            &&& help_step(*old(app), key, *final(app))
        },
{
    let is_ctrl_c = key.ctrl && match key.code {
        Key::Char(c) => c == 'c',
        _ => false,
    };
    if is_ctrl_c {
        app.should_quit = true;
        return ;
    }
    if matches!(app.view, AppView::Locked { .. }) {
        handle_locked(app, key);
    } else if matches!(app.view, AppView::List { .. }) {
        handle_list(app, key);
    } else if matches!(app.view, AppView::Detail { .. }) {
        handle_detail(app, key, now);
    } else if matches!(app.view, AppView::Form { .. }) {
        handle_form(app, key);
    } else {
        handle_help(app, key);
    }
}

/// Clear the clipboard once its deadline has passed: the deadline is dropped,
/// the clipboard is overwritten with the empty string, and the status line
/// says so.
pub fn tick_clipboard(app: &mut AppState, now: i64)
    requires
        app_wf(*old(app)),
    ensures
        app_wf(*final(app)),
        match old(app).clipboard_clear_at {
            Some(d) => if now >= d {
                &&& final(app).clipboard_clear_at is None
                &&& (final(app).status matches Some(m) && m@ == "Clipboard cleared."@)
                &&& final(app).view == old(app).view
                &&& final(app).vault == old(app).vault
                &&& final(app).vault_path == old(app).vault_path
                &&& final(app).should_quit == old(app).should_quit
            } else {
                *final(app) == *old(app)
            },
            None => *final(app) == *old(app),
        },
{
    match app.clipboard_clear_at {
        Some(d) => {
            if now >= d {
                app.clipboard_clear_at = None;
                let _ = clipboard_set("");
                app.status = Some(String::from_str("Clipboard cleared."));
            }
        },
        None => {},
    }
}

/// Handle a key on the help screen.
pub fn handle_help(app: &mut AppState, key: KeyInput)
    requires
        old(app).view is Help,
        app_wf(*old(app)),
    ensures
        app_wf(*final(app)),
        help_step(*old(app), key, *final(app)),
{
    match key.code {
        Key::Esc => {
            app.go_to_list();
        },
        Key::Char(c) => {
            if c == '?' || c == 'q' {
                app.go_to_list();
            }
        },
        _ => {},
    }
}

} // verus!
