use rust_api_ssr::auth::{
    check_login_form, cookie_value, csrf_accepted, csrf_cookie, csrf_token, decide_login,
    expired_csrf_cookie, expired_session_cookie, new_token, session_cookie, session_token,
    LoginForm, LoginStep,
};
use rust_api_ssr::config::Config;
use rust_api_ssr::context::query_context;
use rust_api_ssr::error::AppError;
use rust_api_ssr::models::User;
use rust_api_ssr::text::{contains_str, decimal_string, parse_i64, trim};
use rust_api_ssr::users::UserServiceError;

fn alice() -> User {
    User { id: 1, name: "Alice".to_string(), email: "alice@example.com".to_string(), nickname: None }
}

#[test]
fn trim_removes_unicode_white_space_at_both_ends() {
    assert_eq!(trim("  hello world \t\n"), "hello world");
    assert_eq!(trim("\u{A0}\u{3000}x\u{2009}"), "x");
    assert_eq!(trim("   "), "");
    assert_eq!(trim(""), "");
    assert_eq!(trim("a\u{200B}"), "a\u{200B}");
}

#[test]
fn decimal_text_of_integers() {
    assert_eq!(decimal_string(0), "0");
    assert_eq!(decimal_string(42), "42");
    assert_eq!(decimal_string(-7), "-7");
    assert_eq!(decimal_string(i64::MIN), "-9223372036854775808");
    assert_eq!(decimal_string(i64::MAX), "9223372036854775807");
}

#[test]
fn parse_i64_follows_std() {
    for s in ["0", "12", "+5", "-5", "", "-", "+", "1a", " 1", "9223372036854775807",
        "9223372036854775808", "-9223372036854775808", "-9223372036854775809", "007", "--1"] {
        assert_eq!(parse_i64(s), s.parse::<i64>().ok(), "input {:?}", s);
    }
}

#[test]
fn decimal_text_parses_back() {
    for n in [0i64, 1, -1, 99, -1000, i64::MIN, i64::MAX] {
        assert_eq!(parse_i64(&decimal_string(n)), Some(n));
    }
}

#[test]
fn contains_str_finds_runs() {
    assert!(contains_str("no-cache", "no-cache"));
    assert!(contains_str("max-age=0, no-cache", "no-cache"));
    assert!(!contains_str("no-store", "no-cache"));
    assert!(contains_str("abc", ""));
    assert!(!contains_str("", "a"));
}

#[test]
fn query_context_bypasses_on_no_cache() {
    assert!(query_context(Some("no-cache")).bypass_cache);
    assert!(query_context(Some("max-age=0, no-cache")).bypass_cache);
    assert!(!query_context(Some("max-age=60")).bypass_cache);
    assert!(!query_context(None).bypass_cache);
}

#[test]
fn config_defaults_and_secure_flag() {
    let c = Config::from_settings(None, None, None);
    assert_eq!(c.bind_address, "0.0.0.0:3000");
    assert_eq!(c.database_url, "sqlite://data.db");
    assert!(c.cookie_secure);
    let c = Config::from_settings(Some("127.0.0.1:3000".into()), Some("sqlite::memory:".into()), Some("false".into()));
    assert_eq!(c.bind_address, "127.0.0.1:3000");
    assert_eq!(c.database_url, "sqlite::memory:");
    assert!(!c.cookie_secure);
    assert!(Config::from_settings(None, None, Some("1".into())).cookie_secure);
    assert!(Config::from_settings(None, None, Some("true".into())).cookie_secure);
    assert!(!Config::from_settings(None, None, Some("yes".into())).cookie_secure);
}

#[test]
fn cookie_lookup_finds_the_named_pair() {
    let header = "theme=dark; chat_session=abc-123; csrf_token=xyz";
    assert_eq!(session_token(header).as_deref(), Some("abc-123"));
    assert_eq!(csrf_token(header).as_deref(), Some("xyz"));
    assert_eq!(cookie_value(header, "theme").as_deref(), Some("dark"));
    assert_eq!(cookie_value(header, "missing"), None);
    assert_eq!(cookie_value("a=1=2", "a").as_deref(), Some("1=2"));
    assert_eq!(cookie_value("a; a=3", "a").as_deref(), Some("3"));
    assert_eq!(cookie_value("a=1; a=2", "a").as_deref(), Some("1"));
    assert_eq!(cookie_value("", "a"), None);
    assert_eq!(cookie_value("  a = 1 ", "a"), None);
    assert_eq!(cookie_value("  a= 1 ", "a").as_deref(), Some(" 1"));
}

#[test]
fn session_cookies_are_formatted() {
    assert_eq!(
        session_cookie("tok", true),
        "chat_session=tok; HttpOnly; Path=/; Max-Age=2592000; SameSite=Lax; Secure"
    );
    assert_eq!(csrf_cookie("c", false), "csrf_token=c; Path=/; Max-Age=2592000; SameSite=Lax");
    assert_eq!(
        expired_session_cookie(false),
        "chat_session=; HttpOnly; Path=/; Max-Age=0; SameSite=Lax"
    );
    assert_eq!(expired_csrf_cookie(true), "csrf_token=; Path=/; Max-Age=0; SameSite=Lax; Secure");
}

#[test]
fn new_tokens_are_uuids_and_read_back() {
    let t = new_token();
    assert_eq!(t.len(), 36);
    assert!(t.chars().all(|c| c == '-' || c.is_ascii_digit() || ('a'..='f').contains(&c)));
    assert_ne!(t, new_token());
    let header = format!("chat_session={}", t);
    assert_eq!(session_token(&header), Some(t));
}

#[test]
fn csrf_check_needs_matching_cookie() {
    assert!(csrf_accepted(Some("csrf_token=abc"), "abc"));
    assert!(!csrf_accepted(Some("csrf_token=abc"), "abd"));
    assert!(!csrf_accepted(Some("chat_session=abc"), "abc"));
    assert!(!csrf_accepted(None, "abc"));
}

#[test]
fn login_form_validation_messages() {
    let c = check_login_form(&LoginForm { email: "".into(), password: "pass".into() });
    assert_eq!(c.email_error.as_deref(), Some("Email is required."));
    assert_eq!(c.password_error, None);
    let c = check_login_form(&LoginForm { email: "invalid".into(), password: "pass".into() });
    assert_eq!(c.email_error.as_deref(), Some("Email must contain @."));
    let c = check_login_form(&LoginForm { email: " alice@example.com ".into(), password: "  ".into() });
    assert_eq!(c.email, "alice@example.com");
    assert_eq!(c.email_error, None);
    assert_eq!(c.password_error.as_deref(), Some("Password is required."));
    assert!(!c.is_valid());
    let c = check_login_form(&LoginForm { email: "alice@example.com".into(), password: "wrong".into() });
    assert!(c.is_valid());
}

#[test]
fn login_steps_in_order() {
    let bad = check_login_form(&LoginForm { email: "".into(), password: "".into() });
    assert!(matches!(decide_login(&bad, Some(true), Some(Ok(alice()))), LoginStep::ShowForm));
    let ok = check_login_form(&LoginForm { email: "alice@example.com".into(), password: "p".into() });
    assert!(matches!(decide_login(&ok, None, None), LoginStep::NeedRateCheck));
    assert!(matches!(decide_login(&ok, Some(false), None), LoginStep::Throttled));
    assert!(matches!(decide_login(&ok, Some(true), None), LoginStep::NeedAuthentication));
    match decide_login(&ok, Some(true), Some(Ok(alice()))) {
        LoginStep::StartSession(u) => assert_eq!(u.id, 1),
        other => panic!("unexpected {:?}", other),
    }
    assert!(matches!(
        decide_login(&ok, Some(true), Some(Err(UserServiceError::InvalidCredentials))),
        LoginStep::WrongCredentials
    ));
    assert!(matches!(
        decide_login(&ok, Some(true), Some(Err(UserServiceError::PasswordHash("x".into())))),
        LoginStep::Fail(AppError::Internal)
    ));
    assert!(matches!(
        decide_login(&ok, Some(true), Some(Err(UserServiceError::Database(sqlx::Error::RowNotFound)))),
        LoginStep::Fail(AppError::Database(_))
    ));
}
