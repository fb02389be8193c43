use serdevault::VaultFile;
use tempfile::tempdir;
use valt::error::CoreError;
use valt::manager::VaultManager;
use valt::secret::Secret;

// Fast Argon2 params for tests
const M: u32 = 8;
const T: u32 = 1;
const P: u32 = 1;

fn test_vault(dir: &tempfile::TempDir) -> VaultFile {
    VaultFile::open(dir.path().join("vault.svlt"), "test_password").with_params(M, T, P)
}

fn make_secret(name: &str, password: &str) -> Secret {
    Secret::new(name, password)
}

fn fresh_id() -> u128 {
    uuid::Uuid::new_v4().as_u128()
}

// 1. open_or_create on a new path → creates empty vault
#[test]
fn test_create_empty() {
    let dir = tempdir().unwrap();
    let mgr = VaultManager::open_or_create(test_vault(&dir)).unwrap();
    assert_eq!(mgr.list().len(), 0);
}

// 2. add → list returns the secret
#[test]
fn test_add_and_list() {
    let dir = tempdir().unwrap();
    let mut mgr = VaultManager::open_or_create(test_vault(&dir)).unwrap();
    mgr.add(make_secret("GitHub", "s3cr3t")).unwrap();
    assert_eq!(mgr.list().len(), 1);
    assert_eq!(mgr.list()[0].name, "GitHub");
}

// 3. add persists: a fresh manager loaded from same file sees the secret
#[test]
fn test_persistence() {
    let dir = tempdir().unwrap();

    {
        let mut mgr = VaultManager::open_or_create(test_vault(&dir)).unwrap();
        mgr.add(make_secret("GitHub", "s3cr3t")).unwrap();
    }

    let mgr2 = VaultManager::open(test_vault(&dir)).unwrap();
    assert_eq!(mgr2.list().len(), 1);
    assert_eq!(mgr2.list()[0].name, "GitHub");
}

// 4. get by id → Some(secret)
#[test]
fn test_get_existing() {
    let dir = tempdir().unwrap();
    let mut mgr = VaultManager::open_or_create(test_vault(&dir)).unwrap();
    let s = make_secret("GitHub", "s3cr3t");
    let id = s.id;
    mgr.add(s).unwrap();

    let found = mgr.get(id).unwrap();
    assert_eq!(found.name, "GitHub");
}

// 5. get non-existing id → None
#[test]
fn test_get_missing() {
    let dir = tempdir().unwrap();
    let mgr = VaultManager::open_or_create(test_vault(&dir)).unwrap();
    assert!(mgr.get(fresh_id()).is_none());
}

// 6. update → fields change, id and created_at preserved
#[test]
fn test_update() {
    let dir = tempdir().unwrap();
    let mut mgr = VaultManager::open_or_create(test_vault(&dir)).unwrap();
    let original = make_secret("GitHub", "old");
    let id = original.id;
    let created = original.created_at;
    mgr.add(original).unwrap();

    let updated = Secret::new("GitHub perso", "new_password");
    mgr.update(id, updated).unwrap();

    let found = mgr.get(id).unwrap();
    assert_eq!(found.id, id);
    assert_eq!(found.name, "GitHub perso");
    assert_eq!(found.password, "new_password");
    assert_eq!(found.created_at, created); // created_at unchanged
    assert!(found.updated_at > created); // updated_at bumped
}

// 7. update non-existing id → NotFound
#[test]
fn test_update_missing() {
    let dir = tempdir().unwrap();
    let mut mgr = VaultManager::open_or_create(test_vault(&dir)).unwrap();
    let err = mgr.update(fresh_id(), make_secret("X", "y")).unwrap_err();
    assert!(matches!(err, CoreError::NotFound(_)));
}

// 8. delete → secret is gone
#[test]
fn test_delete() {
    let dir = tempdir().unwrap();
    let mut mgr = VaultManager::open_or_create(test_vault(&dir)).unwrap();
    let s = make_secret("GitHub", "s3cr3t");
    let id = s.id;
    mgr.add(s).unwrap();
    mgr.delete(id).unwrap();
    assert_eq!(mgr.list().len(), 0);
    assert!(mgr.get(id).is_none());
}

// 9. delete non-existing id → NotFound
#[test]
fn test_delete_missing() {
    let dir = tempdir().unwrap();
    let mut mgr = VaultManager::open_or_create(test_vault(&dir)).unwrap();
    let err = mgr.delete(fresh_id()).unwrap_err();
    assert!(matches!(err, CoreError::NotFound(_)));
}

// 10. search empty query → all secrets
#[test]
fn test_search_empty_query() {
    let dir = tempdir().unwrap();
    let mut mgr = VaultManager::open_or_create(test_vault(&dir)).unwrap();
    mgr.add(make_secret("GitHub", "a")).unwrap();
    mgr.add(make_secret("GitLab", "b")).unwrap();
    assert_eq!(mgr.search("").len(), 2);
}

// 11. search fuzzy on name
#[test]
fn test_search_fuzzy_name() {
    let dir = tempdir().unwrap();
    let mut mgr = VaultManager::open_or_create(test_vault(&dir)).unwrap();
    mgr.add(make_secret("GitHub perso", "a")).unwrap();
    mgr.add(make_secret("AWS console", "b")).unwrap();

    let results = mgr.search("git");
    assert_eq!(results.len(), 1);
    assert_eq!(results[0].name, "GitHub perso");
}

// 12. search fuzzy on url
#[test]
fn test_search_fuzzy_url() {
    let dir = tempdir().unwrap();
    let mut mgr = VaultManager::open_or_create(test_vault(&dir)).unwrap();
    let mut s = make_secret("Work email", "a");
    s.url = Some("https://mail.company.com".to_string());
    mgr.add(s).unwrap();
    mgr.add(make_secret("GitHub", "b")).unwrap();

    let results = mgr.search("mail");
    assert_eq!(results.len(), 1);
    assert_eq!(results[0].name, "Work email");
}

// 13. search fuzzy on tags
#[test]
fn test_search_fuzzy_tags() {
    let dir = tempdir().unwrap();
    let mut mgr = VaultManager::open_or_create(test_vault(&dir)).unwrap();
    let mut s = make_secret("Server root", "a");
    s.tags = vec!["linux".to_string(), "ops".to_string()];
    mgr.add(s).unwrap();
    mgr.add(make_secret("GitHub", "b")).unwrap();

    let results = mgr.search("ops");
    assert_eq!(results.len(), 1);
    assert_eq!(results[0].name, "Server root");
}

// 14. search no match → empty vec
#[test]
fn test_search_no_match() {
    let dir = tempdir().unwrap();
    let mut mgr = VaultManager::open_or_create(test_vault(&dir)).unwrap();
    mgr.add(make_secret("GitHub", "a")).unwrap();

    let results = mgr.search("zzzzzzzzzzz");
    assert!(results.is_empty());
}

// 15. wrong password → DecryptionFailed propagated as CoreError::Vault
#[test]
fn test_wrong_password() {
    let dir = tempdir().unwrap();
    VaultManager::open_or_create(test_vault(&dir)).unwrap();

    let wrong = VaultFile::open(dir.path().join("vault.svlt"), "wrong").with_params(M, T, P);
    let result = VaultManager::open(wrong);
    assert!(matches!(result, Err(CoreError::Vault(_))));
}

// 16. lock() consumes the manager without panic
#[test]
fn test_lock() {
    let dir = tempdir().unwrap();
    let mgr = VaultManager::open_or_create(test_vault(&dir)).unwrap();
    mgr.lock(); // should not panic, manager is consumed
}

// A full round trip keeps every field, including optional ones and tags.
#[test]
fn test_persistence_full_fields() {
    let dir = tempdir().unwrap();
    let id;
    {
        let mut mgr = VaultManager::open_or_create(test_vault(&dir)).unwrap();
        let mut s = make_secret("Full, record", "p@ss, [word]!");
        id = s.id;
        s.username = Some("user name".to_string());
        s.url = Some("https://example.com/a,b".to_string());
        s.notes = Some("line one\nline two".to_string());
        s.tags = vec!["tag one".to_string(), "tag,two".to_string()];
        mgr.add(s).unwrap();
    }
    let mgr2 = VaultManager::open(test_vault(&dir)).unwrap();
    let found = mgr2.get(id).unwrap();
    assert_eq!(found.name, "Full, record");
    assert_eq!(found.password, "p@ss, [word]!");
    assert_eq!(found.username.as_deref(), Some("user name"));
    assert_eq!(found.url.as_deref(), Some("https://example.com/a,b"));
    assert_eq!(found.notes.as_deref(), Some("line one\nline two"));
    assert_eq!(found.tags, vec!["tag one".to_string(), "tag,two".to_string()]);
}

// Search sorts by score: an exact name match outranks a looser one.
#[test]
fn test_search_scores_descending() {
    let dir = tempdir().unwrap();
    let mut mgr = VaultManager::open_or_create(test_vault(&dir)).unwrap();
    mgr.add(make_secret("git", "a")).unwrap();
    mgr.add(make_secret("GitHub enterprise", "b")).unwrap();
    mgr.add(make_secret("logistics", "c")).unwrap();

    let results = mgr.search("git");
    assert!(results.len() >= 2);
    assert_eq!(results[0].name, "git");
}
