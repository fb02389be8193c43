use valt::codec::{decode_doc, encode_doc};
use valt::render::{
    clipboard_countdown, copy_hint, detail_password_text, detail_tags_text, list_tags_text,
    list_title, masked, opt_field_text, unlock_hint, unlock_masked,
};
use valt::secret::Secret;
use valt::strutil::{dec_string, join_tags, split_tags, trim_str};
use valt::vault_data::VaultData;

fn sample_secret(id: u128, name: &str) -> Secret {
    Secret {
        id,
        name: name.to_string(),
        username: Some("user".to_string()),
        password: "p,w:d".to_string(),
        url: None,
        notes: Some("note\nwith lines".to_string()),
        tags: vec!["a b".to_string(), "c".to_string()],
        created_at: -1_000_000,
        updated_at: 1_700_000_000_000_000,
    }
}

#[test]
fn test_codec_round_trip() {
    let doc = VaultData {
        version: 1,
        secrets: vec![sample_secret(7, "first"), sample_secret(u128::MAX, "second, [x]")],
    };
    let payload = encode_doc(&doc);
    let back = decode_doc(payload.as_str()).expect("payload must decode");
    assert_eq!(back.version, 1);
    assert_eq!(back.secrets.len(), 2);
    assert_eq!(back.secrets[0].id, 7);
    assert_eq!(back.secrets[0].name, "first");
    assert_eq!(back.secrets[0].username.as_deref(), Some("user"));
    assert_eq!(back.secrets[0].password, "p,w:d");
    assert_eq!(back.secrets[0].url, None);
    assert_eq!(back.secrets[0].notes.as_deref(), Some("note\nwith lines"));
    assert_eq!(back.secrets[0].tags, vec!["a b".to_string(), "c".to_string()]);
    assert_eq!(back.secrets[0].created_at, -1_000_000);
    assert_eq!(back.secrets[0].updated_at, 1_700_000_000_000_000);
    assert_eq!(back.secrets[1].id, u128::MAX);
    assert_eq!(back.secrets[1].name, "second, [x]");
}

#[test]
fn test_codec_empty_doc() {
    let doc = VaultData { version: 1, secrets: vec![] };
    let payload = encode_doc(&doc);
    let back = decode_doc(payload.as_str()).unwrap();
    assert_eq!(back.version, 1);
    assert!(back.secrets.is_empty());
}

#[test]
fn test_decode_rejects_garbage() {
    assert!(decode_doc("").is_none());
    assert!(decode_doc("zz").is_none());
    assert!(decode_doc("0100000001").is_none()); // promises a record it does not hold
}

#[test]
fn test_decode_rejects_trailing_text() {
    let doc = VaultData { version: 1, secrets: vec![] };
    let mut payload = encode_doc(&doc);
    payload.push('x');
    assert!(decode_doc(payload.as_str()).is_none());
}

#[test]
fn test_split_tags() {
    let t = split_tags(" linux , ops,,  ,db ");
    assert_eq!(t, vec!["linux".to_string(), "ops".to_string(), "db".to_string()]);
    assert!(split_tags("").is_empty());
    assert!(split_tags(" , ,, ").is_empty());
}

#[test]
fn test_trim_and_join() {
    assert_eq!(trim_str("  a b  "), "a b");
    assert_eq!(trim_str("\t\n"), "");
    let v = vec!["x".to_string(), "y".to_string()];
    assert_eq!(join_tags(&v), "x, y");
    assert_eq!(join_tags(&vec![]), "");
}

#[test]
fn test_dec_string() {
    assert_eq!(dec_string(0), "0");
    assert_eq!(dec_string(30), "30");
    assert_eq!(dec_string(12345), "12345");
}

#[test]
fn test_render_masks() {
    assert_eq!(masked(3).chars().count(), 3);
    let long = "x".repeat(50);
    assert_eq!(detail_password_text(&long, false).chars().count(), 30);
    assert_eq!(detail_password_text(&long, true), long);
    assert_eq!(unlock_masked(&"abc".to_string()).chars().count(), 3);
}

#[test]
fn test_render_texts() {
    assert_eq!(list_title(1), " VALT - 1 secret ");
    assert_eq!(list_title(2), " VALT - 2 secrets ");
    assert_eq!(opt_field_text(&None), "\u{2014}");
    assert_eq!(opt_field_text(&Some("u".to_string())), "u");
    assert_eq!(detail_tags_text(&vec![]), "\u{2014}");
    assert_eq!(list_tags_text(&vec!["a".to_string()]), " [a]");
    assert_eq!(clipboard_countdown(12), "  [clipboard clears in 12s]");
    assert_eq!(copy_hint(None), "[c] Copy password");
    assert_eq!(copy_hint(Some(5)), "[c] Copy  (clears in 5s)");
    assert_eq!(unlock_hint(true), "Vault found \u{2014} enter master password");
    assert_eq!(unlock_hint(false), "No vault found \u{2014} will be created");
}
