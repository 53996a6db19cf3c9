use rust_api_ssr::error::{file_not_found, invite_not_found, user_not_found, AppError};
use rust_api_ssr::models::{NewUser, User, UserWithPassword};
use rust_api_ssr::users::{
    authenticate_record, check_password, email_change_conflicts, generate_nickname, hash_password,
    nickname_for_request, nickname_with_tag, prepare_new_user, resolve_nickname, PasswordCheck,
    UserServiceError,
};
use rust_api_ssr::views::{
    create_outcome, update_outcome, user_path, SaveOutcome, UserForm, UserFormView,
};

fn record(hash: &str) -> UserWithPassword {
    UserWithPassword {
        id: 7,
        name: "Carol".into(),
        email: "carol@example.com".into(),
        password_hash: hash.into(),
        nickname: Some("Caz#0001".into()),
    }
}

#[test]
fn hashed_password_signs_in() {
    let h = hash_password("alice-password").expect("hash");
    assert!(h.starts_with("$argon2"));
    let u = authenticate_record(Some(record(&h)), "alice-password").expect("sign in");
    assert_eq!(u.id, 7);
    assert_eq!(u.name, "Carol");
    assert_eq!(u.email, "carol@example.com");
    assert_eq!(u.nickname.as_deref(), Some("Caz#0001"));
}

#[test]
fn new_user_with_free_email_is_stored_and_signs_in() {
    let new = NewUser {
        name: "Dana".into(),
        email: "dana@example.com".into(),
        password: "dana-password".into(),
        nickname: None,
    };
    let stored = prepare_new_user(new, false).expect("free email");
    assert_eq!(stored.name, "Dana");
    assert_eq!(stored.email, "dana@example.com");
    assert!(stored.nickname.is_none());
    assert!(matches!(check_password("dana-password", &stored.password), PasswordCheck::Match));
    let taken = NewUser {
        name: "Dana".into(),
        email: "dana@example.com".into(),
        password: "dana-password".into(),
        nickname: None,
    };
    assert!(matches!(prepare_new_user(taken, true), Err(UserServiceError::DuplicateEmail)));
}

#[test]
fn wrong_password_or_missing_account_is_invalid() {
    let h = hash_password("alice-password").expect("hash");
    assert!(matches!(
        authenticate_record(Some(record(&h)), "wrong"),
        Err(UserServiceError::InvalidCredentials)
    ));
    assert!(matches!(authenticate_record(None, "x"), Err(UserServiceError::InvalidCredentials)));
}

#[test]
fn malformed_hash_is_a_hash_error() {
    assert!(matches!(
        authenticate_record(Some(record("not a phc string")), "x"),
        Err(UserServiceError::PasswordHash(_))
    ));
    assert!(matches!(check_password("x", ""), PasswordCheck::Malformed(_)));
}

#[test]
fn two_hashes_of_one_password_differ() {
    let a = hash_password("same-password").unwrap();
    let b = hash_password("same-password").unwrap();
    assert_ne!(a, b);
    assert!(matches!(check_password("same-password", &a), PasswordCheck::Match));
    assert!(matches!(check_password("same-password", &b), PasswordCheck::Match));
}

#[test]
fn nickname_tags_have_four_digits() {
    assert_eq!(nickname_with_tag("Bob", 7), "Bob#0007");
    assert_eq!(nickname_with_tag("Bob", 1_234_567), "Bob#4567");
    assert_eq!(nickname_with_tag("", 999_999_999), "#9999");
    let n = generate_nickname("Zed");
    assert_eq!(n.len(), 8);
    assert!(n.starts_with("Zed#"));
    assert!(n[4..].chars().all(|c| c.is_ascii_digit()));
}

#[test]
fn nickname_requests_are_trimmed_and_tagged() {
    assert_eq!(nickname_for_request(None, None, 5), None);
    assert_eq!(nickname_for_request(Some("   ".into()), None, 5), None);
    assert_eq!(nickname_for_request(Some(" Ace ".into()), None, 42).as_deref(), Some("Ace#0042"));
    assert_eq!(
        nickname_for_request(Some(" Ace#0042 ".into()), Some("Ace#0042".into()), 9).as_deref(),
        Some("Ace#0042")
    );
    assert_eq!(
        nickname_for_request(Some("Ace".into()), Some("Ace#0042".into()), 9).as_deref(),
        Some("Ace#0009")
    );
    let r = resolve_nickname(Some("Kit".into()), None).unwrap();
    assert!(r.starts_with("Kit#") && r.len() == 8);
}

#[test]
fn only_a_changed_taken_email_conflicts() {
    assert!(email_change_conflicts("a@x", "b@x", true));
    assert!(!email_change_conflicts("a@x", "a@x", true));
    assert!(!email_change_conflicts("a@x", "b@x", false));
}

#[test]
fn errors_have_status_and_message() {
    let e = user_not_found(999);
    assert_eq!(e.status(), 404);
    assert_eq!(e.message(), "User with id 999 not found");
    assert_eq!(invite_not_found(3).message(), "Invite with id 3 not found");
    assert_eq!(file_not_found(999).message(), "File for message 999 not found");
    assert_eq!(AppError::Internal.status(), 500);
    assert_eq!(AppError::Internal.message(), "Internal server error");
    assert_eq!(AppError::Database(sqlx::Error::RowNotFound).message(), "Internal server error");
    assert_eq!(AppError::Conflict("c".into()).status(), 409);
    assert_eq!(AppError::Forbidden.status(), 403);
    match AppError::from_service(UserServiceError::DuplicateEmail) {
        AppError::Conflict(m) => assert_eq!(m, "Email already exists."),
        other => panic!("unexpected {:?}", other),
    }
    assert!(matches!(AppError::from_service(UserServiceError::InvalidCredentials), AppError::Internal));
}

#[test]
fn signup_form_validation_errors() {
    let form = UserForm { name: "".into(), email: "invalid".into(), password: "".into() };
    let v = UserFormView::validate("/users".into(), "Create user".into(), form, true).unwrap_err();
    assert_eq!(v.name_error.as_deref(), Some("Name is required."));
    assert_eq!(v.email_error.as_deref(), Some("Email must contain @."));
    assert_eq!(v.password_error.as_deref(), Some("Password is required."));
    let form = UserForm { name: "Dave".into(), email: "dave@example.com".into(), password: "short".into() };
    let v = UserFormView::validate("/users".into(), "Create user".into(), form, true).unwrap_err();
    assert_eq!(v.password_error.as_deref(), Some("Password must be at least 8 characters."));
    assert_eq!(v.name_error, None);
}

#[test]
fn password_length_counts_characters() {
    let form = UserForm { name: "Eve".into(), email: "eve@example.com".into(), password: "éééé".into() };
    let v = UserFormView::validate("/users".into(), "Create user".into(), form, true).unwrap_err();
    assert_eq!(v.password_error.as_deref(), Some("Password must be at least 8 characters."));
    let form = UserForm { name: "Eve".into(), email: "eve@example.com".into(), password: "éééééééé".into() };
    let v = UserFormView::validate("/users".into(), "Create user".into(), form, true).unwrap();
    assert_eq!(v.password_error, None);
}

#[test]
fn valid_signup_form_is_trimmed() {
    let form = UserForm { name: " Carol ".into(), email: " carol@example.com".into(), password: "carol-pass ".into() };
    let v = UserFormView::validate("/users".into(), "Create user".into(), form, true).unwrap();
    assert_eq!(v.name, "Carol");
    assert_eq!(v.email, "carol@example.com");
    assert_eq!(v.password, "carol-pass");
    assert!(v.show_password);
}

#[test]
fn edit_form_skips_password_checks() {
    let form = UserForm { name: "Alice".into(), email: "".into(), password: "".into() };
    let v = UserFormView::validate(user_path(1), "Save user".into(), form, false).unwrap_err();
    assert_eq!(v.email_error.as_deref(), Some("Email is required."));
    assert_eq!(v.password_error, None);
    assert_eq!(v.action, "/users/1");
    let u = User { id: 1, name: "Alice".into(), email: "alice@example.com".into(), nickname: None };
    let f = UserFormView::from_user(&u);
    assert_eq!(f.action, "/users/1");
    assert_eq!(f.submit_label, "Save user");
    assert!(!f.show_password);
    let f = UserFormView::new("/users".into(), "Create user".into());
    assert!(f.show_password && f.name.is_empty());
    let f = f.with_email_taken();
    assert_eq!(f.email_error.as_deref(), Some("Email already exists."));
}

#[test]
fn save_outcomes() {
    let u = User { id: 3, name: "Carol".into(), email: "c@x".into(), nickname: None };
    assert!(matches!(create_outcome(Ok(u.clone())), SaveOutcome::Saved(v) if v.id == 3));
    assert!(matches!(create_outcome(Err(UserServiceError::DuplicateEmail)), SaveOutcome::EmailTaken));
    assert!(matches!(create_outcome(Err(UserServiceError::PasswordHash("p".into()))), SaveOutcome::Fail(AppError::Internal)));
    match update_outcome(5, Ok(None)) {
        SaveOutcome::Fail(AppError::NotFound(m)) => assert_eq!(m, "User with id 5 not found"),
        other => panic!("unexpected {:?}", other),
    }
    assert!(matches!(update_outcome(3, Ok(Some(u))), SaveOutcome::Saved(_)));
}
