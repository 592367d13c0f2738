use docstore::auth::{
    classify_suid, extract_token, parse_suid_response, rejection_status, verify_identity_body,
    AuthError,
};

#[test]
fn suid_zero_is_unauthorized() {
    assert_eq!(
        verify_identity_body("{\"suid\":\"0\"}"),
        Err(AuthError::Unauthorized)
    );
}

#[test]
fn real_suid_is_the_owner() {
    assert_eq!(
        verify_identity_body("{\"suid\":\"user-17\"}"),
        Ok("user-17".to_string())
    );
}

#[test]
fn extra_fields_do_not_hide_the_suid() {
    assert_eq!(
        verify_identity_body("{\"ok\":true,\"suid\":\"abc\"}"),
        Ok("abc".to_string())
    );
}

#[test]
fn unreadable_bodies_fail_verification() {
    assert_eq!(
        verify_identity_body("not json at all"),
        Err(AuthError::VerificationFailed)
    );
    assert_eq!(
        verify_identity_body("{}"),
        Err(AuthError::VerificationFailed)
    );
    assert_eq!(
        verify_identity_body("{\"suid\":7}"),
        Err(AuthError::VerificationFailed)
    );
    assert_eq!(
        verify_identity_body("[\"suid\"]"),
        Err(AuthError::VerificationFailed)
    );
}

#[test]
fn unauthorized_and_failed_verification_are_distinct_but_map_alike() {
    let unauthorized = verify_identity_body("{\"suid\":\"0\"}").unwrap_err();
    let failed = verify_identity_body("oops").unwrap_err();
    assert_ne!(unauthorized, failed);
    assert_eq!(rejection_status(unauthorized), 401);
    assert_eq!(rejection_status(failed), 401);
    assert_eq!(rejection_status(AuthError::MissingToken), 401);
}

#[test]
fn parse_and_classify_compose() {
    let resp = parse_suid_response("{\"suid\":\"abc\"}").unwrap();
    assert_eq!(resp.suid, "abc");
    assert_eq!(classify_suid(Some(resp)), Ok("abc".to_string()));
    assert_eq!(classify_suid(None), Err(AuthError::VerificationFailed));
    assert!(parse_suid_response("{\"noise\":1}").is_none());
}

#[test]
fn token_comes_from_cookie_then_header() {
    assert_eq!(
        extract_token(Some("c".to_string()), Some("h".to_string())),
        Ok("c".to_string())
    );
    assert_eq!(
        extract_token(None, Some("h".to_string())),
        Ok("h".to_string())
    );
    assert_eq!(
        extract_token(Some("c".to_string()), None),
        Ok("c".to_string())
    );
    assert_eq!(
        extract_token(None, None),
        Err(AuthError::MissingToken)
    );
}
