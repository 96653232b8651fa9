use qomicex_core::auth::{generate_uuid, OfflineAuthProvider};

#[test]
fn offline_auth_produces_legacy_result() {
    let provider = OfflineAuthProvider;
    let result = provider.authenticate(Some("Steve".to_string()));
    assert!(result.success);
    assert_eq!(result.username.as_deref(), Some("Steve"));
    assert_eq!(result.user_type.as_deref(), Some("legacy"));
    let result2 = provider.authenticate(Some("Steve".to_string()));
    assert_eq!(result.uuid, result2.uuid, "同用户名离线 UUID 必须稳定");
    let uuid = generate_uuid("Player");
    assert_eq!(uuid.len(), 32);
    assert!(!uuid.contains('-'));
    assert_eq!(&uuid[12..13], "3");
}

#[test]
fn offline_auth_defaults_username() {
    let provider = OfflineAuthProvider;
    let result = provider.authenticate(None);
    assert_eq!(result.username.as_deref(), Some("Player"));
}

#[test]
fn offline_validate_invalidate() {
    let provider = OfflineAuthProvider;
    assert!(provider.validate("any-token"));
    provider.invalidate("any-token");
}

#[test]
fn offline_uuid_of_a_known_player() {
    assert_eq!(generate_uuid("Steve"), "5627dd98e6be3c21b8a8e92344183641");
    let r = OfflineAuthProvider.authenticate(Some("Steve".to_string()));
    assert_eq!(r.uuid.as_deref(), Some("5627dd98e6be3c21b8a8e92344183641"));
    assert_ne!(generate_uuid("Alex"), generate_uuid("Steve"));
}
