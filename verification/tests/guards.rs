use aquadoggo::guards::{validate_token, GuardError, OwnerGuard, Token};

#[test]
fn owner_passes() {
    let guard = OwnerGuard::new("alice");
    assert_eq!(guard.check(Some(&Token("alice".to_string()))), Ok(()));
}

#[test]
fn others_are_forbidden() {
    let guard = OwnerGuard::new("alice");
    assert_eq!(guard.check(Some(&Token("bob".to_string()))), Err(GuardError::Forbidden));
    assert_eq!(guard.check(Some(&Token(String::new()))), Err(GuardError::Forbidden));
    assert_eq!(GuardError::Forbidden.message(), "Forbidden");
}

#[test]
fn a_request_without_token_is_turned_down() {
    let guard = OwnerGuard::new("alice");
    assert_eq!(guard.check(None), Err(GuardError::NoToken));
    assert_eq!(GuardError::NoToken.message(), "No token provided");
}

#[test]
fn validate_token_compares_with_the_owner() {
    assert_eq!(validate_token(&"a".to_string(), &Token("a".to_string())), Ok(()));
    assert_eq!(
        validate_token(&"a".to_string(), &Token("A".to_string())),
        Err(GuardError::Forbidden)
    );
}
