use djdrop::credentials::{
    credential_lookup, is_op_ref, keychain_account, op_read_result, resolve_direct,
    CredentialLookup, KEYRING_SERVICE,
};

#[test]
fn detects_op_reference() {
    assert!(is_op_ref("op://Personal/BPM Supreme/username"));
    assert!(!is_op_ref("myusername@email.com"));
    assert!(!is_op_ref(""));
}

#[test]
fn empty_ref_returns_empty_string() {
    assert_eq!(resolve_direct("myuser"), "myuser");
    assert_eq!(resolve_direct(""), "");
}

#[test]
fn lookup_follows_the_reference_kind() {
    assert_eq!(
        credential_lookup("op://Personal/Qobuz/password"),
        CredentialLookup::OnePassword("op://Personal/Qobuz/password".to_string())
    );
    assert_eq!(credential_lookup("me@example.com"), CredentialLookup::Literal("me@example.com".to_string()));
    assert_eq!(credential_lookup(""), CredentialLookup::Literal(String::new()));
    assert_eq!(credential_lookup("OP://x"), CredentialLookup::Literal("OP://x".to_string()));
}

#[test]
fn op_read_outcomes() {
    assert_eq!(op_read_result(true, "secret\n", ""), Ok("secret".to_string()));
    assert_eq!(
        op_read_result(false, "", "  [ERROR] item not found\n"),
        Err("op read failed: [ERROR] item not found".to_string())
    );
}

#[test]
fn keychain_accounts_are_pool_qualified() {
    assert_eq!(KEYRING_SERVICE, "djdrop");
    assert_eq!(keychain_account("bpmsupreme", "username"), "bpmsupreme:username");
    assert_eq!(keychain_account("qobuz", "password"), "qobuz:password");
}
