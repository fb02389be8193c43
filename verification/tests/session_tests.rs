use serdevault::VaultFile;
use tempfile::tempdir;
use valt::app::{get_field_mut, AppState, AppView, FormMode, Key, KeyInput, SecretDraft};
use valt::events::{handle_key, tick_clipboard};
use valt::manager::VaultManager;
use valt::secret::Secret;

const M: u32 = 8;
const T: u32 = 1;
const P: u32 = 1;

fn key(code: Key) -> KeyInput {
    KeyInput { code, ctrl: false }
}

fn press(app: &mut AppState, code: Key) {
    handle_key(app, key(code), 0);
}

fn vault_path(dir: &tempfile::TempDir) -> String {
    dir.path().join("vault.svlt").to_string_lossy().to_string()
}

fn unlocked_app(dir: &tempfile::TempDir, password: &str) -> AppState {
    let store = VaultFile::open(dir.path().join("vault.svlt"), password).with_params(M, T, P);
    let mgr = VaultManager::open_or_create(store).unwrap();
    let mut app = AppState::new(vault_path(dir));
    app.vault = Some(mgr);
    app.view = AppView::List { search_query: String::new(), selected_idx: 0 };
    app
}

#[test]
fn test_ctrl_c_quits_everywhere() {
    let dir = tempdir().unwrap();
    let mut app = AppState::new(vault_path(&dir));
    handle_key(&mut app, KeyInput { code: Key::Char('c'), ctrl: true }, 0);
    assert!(app.should_quit);
}

#[test]
fn test_locked_typing_and_esc() {
    let dir = tempdir().unwrap();
    let mut app = AppState::new(vault_path(&dir));
    press(&mut app, Key::Char('a'));
    press(&mut app, Key::Char('b'));
    press(&mut app, Key::Backspace);
    match &app.view {
        AppView::Locked { input, error } => {
            assert_eq!(input, "a");
            assert!(error.is_none());
        },
        _ => panic!("expected locked view"),
    }
    press(&mut app, Key::Esc);
    assert!(app.should_quit);
}

#[test]
fn test_unlock_creates_vault_and_lists() {
    let dir = tempdir().unwrap();
    let mut app = AppState::new(vault_path(&dir));
    for c in "pw".chars() {
        press(&mut app, Key::Char(c));
    }
    press(&mut app, Key::Enter);
    assert!(app.vault.is_some());
    assert!(matches!(app.view, AppView::List { .. }));
    assert_eq!(app.vault.as_ref().unwrap().list().len(), 0);
}

#[test]
fn test_unlock_wrong_password_shows_error() {
    let dir = tempdir().unwrap();
    {
        let store =
            VaultFile::open(dir.path().join("vault.svlt"), "right").with_params(M, T, P);
        VaultManager::open_or_create(store).unwrap();
    }
    let mut app = AppState::new(vault_path(&dir));
    for c in "wrong".chars() {
        press(&mut app, Key::Char(c));
    }
    press(&mut app, Key::Enter);
    assert!(app.vault.is_none());
    match &app.view {
        AppView::Locked { input, error } => {
            assert_eq!(input, "");
            assert_eq!(error.as_deref(), Some("Wrong password or corrupted vault"));
        },
        _ => panic!("expected locked view"),
    }
}

#[test]
fn test_list_navigation_clamps() {
    let dir = tempdir().unwrap();
    let mut app = unlocked_app(&dir, "pw");
    if let Some(v) = &mut app.vault {
        v.add(Secret::new("one", "a")).unwrap();
        v.add(Secret::new("two", "b")).unwrap();
    }
    press(&mut app, Key::Down);
    press(&mut app, Key::Down);
    press(&mut app, Key::Down);
    match &app.view {
        AppView::List { selected_idx, .. } => assert_eq!(*selected_idx, 1),
        _ => panic!("expected list view"),
    }
    press(&mut app, Key::Char('k'));
    press(&mut app, Key::Char('k'));
    match &app.view {
        AppView::List { selected_idx, .. } => assert_eq!(*selected_idx, 0),
        _ => panic!("expected list view"),
    }
}

#[test]
fn test_list_typing_filters_and_esc_clears() {
    let dir = tempdir().unwrap();
    let mut app = unlocked_app(&dir, "pw");
    press(&mut app, Key::Char('g'));
    press(&mut app, Key::Char('i'));
    match &app.view {
        AppView::List { search_query, selected_idx } => {
            assert_eq!(search_query, "gi");
            assert_eq!(*selected_idx, 0);
        },
        _ => panic!("expected list view"),
    }
    press(&mut app, Key::Esc);
    match &app.view {
        AppView::List { search_query, .. } => assert_eq!(search_query, ""),
        _ => panic!("expected list view"),
    }
}

#[test]
fn test_open_detail_and_back() {
    let dir = tempdir().unwrap();
    let mut app = unlocked_app(&dir, "pw");
    let s = Secret::new("one", "a");
    let id = s.id;
    if let Some(v) = &mut app.vault {
        v.add(s).unwrap();
    }
    press(&mut app, Key::Enter);
    match &app.view {
        AppView::Detail { secret_id, show_password } => {
            assert_eq!(*secret_id, id);
            assert!(!show_password);
        },
        _ => panic!("expected detail view"),
    }
    press(&mut app, Key::Char(' '));
    match &app.view {
        AppView::Detail { show_password, .. } => assert!(*show_password),
        _ => panic!("expected detail view"),
    }
    press(&mut app, Key::Esc);
    assert!(matches!(app.view, AppView::List { .. }));
}

#[test]
fn test_detail_delete_returns_to_list() {
    let dir = tempdir().unwrap();
    let mut app = unlocked_app(&dir, "pw");
    let s = Secret::new("one", "a");
    let id = s.id;
    if let Some(v) = &mut app.vault {
        v.add(s).unwrap();
    }
    app.view = AppView::Detail { secret_id: id, show_password: false };
    press(&mut app, Key::Char('d'));
    assert!(matches!(app.view, AppView::List { .. }));
    assert_eq!(app.status.as_deref(), Some("Secret deleted."));
    assert_eq!(app.vault.as_ref().unwrap().list().len(), 0);
}

#[test]
fn test_form_add_flow() {
    let dir = tempdir().unwrap();
    let mut app = unlocked_app(&dir, "pw");
    press(&mut app, Key::Char('n'));
    assert!(matches!(app.view, AppView::Form { mode: FormMode::Add, .. }));
    for c in "mail".chars() {
        press(&mut app, Key::Char(c));
    }
    press(&mut app, Key::Tab);
    press(&mut app, Key::Tab);
    for c in "s3cret".chars() {
        press(&mut app, Key::Char(c));
    }
    press(&mut app, Key::Enter);
    assert!(matches!(app.view, AppView::List { .. }));
    assert_eq!(app.status.as_deref(), Some("Secret saved."));
    let v = app.vault.as_ref().unwrap();
    assert_eq!(v.list().len(), 1);
    assert_eq!(v.list()[0].name, "mail");
    assert_eq!(v.list()[0].password, "s3cret");
}

#[test]
fn test_form_validation_blocks_empty_name() {
    let dir = tempdir().unwrap();
    let mut app = unlocked_app(&dir, "pw");
    press(&mut app, Key::Char('n'));
    press(&mut app, Key::Enter);
    match &app.view {
        AppView::Form { error, .. } => {
            assert_eq!(error.as_deref(), Some("Name is required"));
        },
        _ => panic!("expected form view"),
    }
}

#[test]
fn test_form_generate_password() {
    let dir = tempdir().unwrap();
    let mut app = unlocked_app(&dir, "pw");
    press(&mut app, Key::Char('n'));
    press(&mut app, Key::Tab);
    press(&mut app, Key::Tab);
    press(&mut app, Key::Char('g'));
    match &app.view {
        AppView::Form { draft, .. } => {
            assert_eq!(draft.password.chars().count(), 20);
        },
        _ => panic!("expected form view"),
    }
    // space toggles visibility on the password field instead of typing
    press(&mut app, Key::Char(' '));
    match &app.view {
        AppView::Form { draft, show_password, .. } => {
            assert!(*show_password);
            assert_eq!(draft.password.chars().count(), 20);
        },
        _ => panic!("expected form view"),
    }
}

#[test]
fn test_form_edit_preserves_identity() {
    let dir = tempdir().unwrap();
    let mut app = unlocked_app(&dir, "pw");
    let s = Secret::new("old name", "old pass");
    let id = s.id;
    let created = s.created_at;
    if let Some(v) = &mut app.vault {
        v.add(s).unwrap();
    }
    app.view = AppView::Detail { secret_id: id, show_password: false };
    press(&mut app, Key::Char('e'));
    match &app.view {
        AppView::Form { mode, draft, .. } => {
            assert!(matches!(mode, FormMode::Edit(i) if *i == id));
            assert_eq!(draft.name, "old name");
            assert_eq!(draft.password, "old pass");
        },
        _ => panic!("expected form view"),
    }
    for c in " 2".chars() {
        // appends to the name field (focus 0)
        press(&mut app, Key::Char(c));
    }
    press(&mut app, Key::Enter);
    assert_eq!(app.status.as_deref(), Some("Secret saved."));
    let v = app.vault.as_ref().unwrap();
    let found = v.get(id).unwrap();
    assert_eq!(found.name, "old name 2");
    assert_eq!(found.created_at, created);
    assert!(found.updated_at > created);
}

#[test]
fn test_help_round_trip() {
    let dir = tempdir().unwrap();
    let mut app = unlocked_app(&dir, "pw");
    press(&mut app, Key::Char('?'));
    assert!(matches!(app.view, AppView::Help));
    press(&mut app, Key::Char('q'));
    assert!(matches!(app.view, AppView::List { .. }));
}

#[test]
fn test_clipboard_auto_clear() {
    let dir = tempdir().unwrap();
    let mut app = unlocked_app(&dir, "pw");
    let s = Secret::new("one", "topsecret");
    let id = s.id;
    if let Some(v) = &mut app.vault {
        v.add(s).unwrap();
    }
    app.view = AppView::Detail { secret_id: id, show_password: false };
    // Pressing c tries the real clipboard; on headless machines that fails,
    // so assert the thirty-second arming only when the copy landed, and arm
    // the deadline directly afterwards to simulate a successful copy.
    handle_key(&mut app, key(Key::Char('c')), 1_000_000);
    if app.status.as_deref() == Some("Password copied \u{2014} clears in 30s") {
        assert_eq!(app.clipboard_clear_at, Some(31_000_000));
    }
    let deadline: i64 = 1_000_000_000;
    app.clipboard_clear_at = Some(deadline);
    app.status = None;
    // before the deadline nothing happens
    tick_clipboard(&mut app, deadline - 1);
    assert!(app.clipboard_clear_at.is_some());
    assert!(app.status.is_none());
    // thirty simulated seconds later the deadline has passed
    tick_clipboard(&mut app, deadline + 1);
    assert!(app.clipboard_clear_at.is_none());
    assert_eq!(app.status.as_deref(), Some("Clipboard cleared."));
}

#[test]
fn test_draft_validate() {
    let mut d = SecretDraft::empty();
    assert_eq!(d.validate(), Some("Name is required"));
    d.name = "   ".to_string();
    assert_eq!(d.validate(), Some("Name is required"));
    d.name = " x ".to_string();
    assert_eq!(d.validate(), Some("Password is required"));
    d.password = "p".to_string();
    assert_eq!(d.validate(), None);
}

#[test]
fn test_draft_from_secret_joins_tags() {
    let mut s = Secret::new("n", "p");
    s.username = Some("u".to_string());
    s.tags = vec!["a".to_string(), "b".to_string(), "c".to_string()];
    let d = SecretDraft::from_secret(&s);
    assert_eq!(d.name, "n");
    assert_eq!(d.username, "u");
    assert_eq!(d.url, "");
    assert_eq!(d.tags, "a, b, c");
}

#[test]
fn test_get_field_mut_routes() {
    let mut d = SecretDraft::empty();
    get_field_mut(&mut d, 0).push('n');
    get_field_mut(&mut d, 2).push('p');
    get_field_mut(&mut d, 4).push('t');
    get_field_mut(&mut d, 9).push('x');
    assert_eq!(d.name, "nx");
    assert_eq!(d.password, "p");
    assert_eq!(d.tags, "t");
}

#[test]
fn test_clipboard_secs_remaining_tracks_deadline() {
    let dir = tempdir().unwrap();
    let mut app = AppState::new(vault_path(&dir));
    assert!(app.clipboard_secs_remaining().is_none());
    app.clipboard_clear_at = Some(i64::MAX - 1);
    assert!(app.clipboard_secs_remaining().is_some());
}
