use rust_api_ssr::chat::{ChatRoomRow, ChatRoomView};
use rust_api_ssr::crypto::{
    check_device_registration, check_room_key_access, decide_room_key_store, devices_response,
    public_key_response, room_key_response, KeyRequestRejection, RegisterDeviceInput, RoomKeyStep,
};
use rust_api_ssr::metrics::RequestMetrics;
use rust_api_ssr::models::{RoomDeviceKey, UserDevice};
use rust_api_ssr::rate_limit::LoginRateLimiter;

#[test]
fn limiter_blocks_after_max_failures_in_window() {
    let mut l = LoginRateLimiter::new(3, 900);
    assert!(l.is_allowed_at("a@x", 0));
    l.record_attempt_at("a@x", 0);
    l.record_attempt_at("a@x", 1_000_000_000);
    assert!(l.is_allowed_at("a@x", 2_000_000_000));
    l.record_attempt_at("a@x", 2_000_000_000);
    assert!(!l.is_allowed_at("a@x", 2_000_000_000));
    assert!(!l.is_allowed_at("a@x", 899_999_000_000));
    assert!(l.is_allowed_at("a@x", 900_000_000_000));
    assert!(l.is_allowed_at("b@x", 2_000_000_000));
}

#[test]
fn limiter_window_restarts_and_clear_forgets() {
    let mut l = LoginRateLimiter::new(1, 10);
    l.record_attempt_at("k", 5_000_000);
    assert!(!l.is_allowed_at("k", 6_000_000));
    l.record_attempt_at("k", 20_000_000_000);
    assert!(!l.is_allowed_at("k", 20_001_000_000));
    assert!(!l.is_allowed_at("k", 29_999_999_999));
    assert!(l.is_allowed_at("k", 30_000_000_000));
    l.clear("k");
    assert!(l.is_allowed_at("k", 20_001_000_000));
    l.clear("never");
    assert!(l.is_allowed_at("never", 0));
}

#[test]
fn limiter_with_real_clock() {
    let mut l = LoginRateLimiter::new(5, 900);
    for _ in 0..5 {
        assert!(l.is_allowed("alice@example.com"));
        l.record_attempt("alice@example.com");
    }
    assert!(!l.is_allowed("alice@example.com"));
    l.clear("alice@example.com");
    assert!(l.is_allowed("alice@example.com"));
}

#[test]
fn metrics_keep_newest_eight() {
    let mut m = RequestMetrics::new();
    assert!(m.recent().is_empty());
    for i in 0..205u64 {
        m.record(format!("/p{}", i), i);
    }
    let all = m.all();
    assert_eq!(all.len(), 8);
    assert_eq!(all[0].path, "/p204");
    assert_eq!(all[7].path, "/p197");
    let recent = m.recent();
    assert_eq!(recent.len(), 8);
    assert_eq!(recent[7].elapsed_ms, 197);
    let mut small = RequestMetrics::new();
    small.record("/a".into(), 3);
    small.record("/b".into(), 4);
    let r = small.recent();
    assert_eq!(r.len(), 2);
    assert_eq!(r[0].path, "/b");
}

fn device(id: &str, key: &str) -> UserDevice {
    UserDevice {
        id: 1,
        user_id: 2,
        device_id: id.into(),
        device_name: Some("phone".into()),
        public_key: key.into(),
        created_at: "c".into(),
        last_seen_at: "l".into(),
    }
}

#[test]
fn key_responses() {
    let r = public_key_response(&vec![device("legacy-1", "{\"kty\":\"RSA\",\"n\":\"test\"}"), device("d2", "k2")]);
    assert_eq!(r.public_key.as_deref(), Some("{\"kty\":\"RSA\",\"n\":\"test\"}"));
    assert_eq!(r.devices.len(), 2);
    assert_eq!(r.devices[0].device_id, "legacy-1");
    assert_eq!(r.devices[1].public_key, "k2");
    let empty = public_key_response(&vec![]);
    assert!(empty.public_key.is_none() && empty.devices.is_empty());
    let d = devices_response(&vec![device("alice-laptop", "key-1")]);
    assert_eq!(d.devices[0].device_name.as_deref(), Some("phone"));
    assert_eq!(d.devices[0].last_seen_at, "l");
    let k = room_key_response(&vec![
        RoomDeviceKey { device_id: "bob-phone".into(), encrypted_key: "wrapped-phone-key".into() },
        RoomDeviceKey { device_id: "bob-laptop".into(), encrypted_key: "wrapped-laptop-key".into() },
    ]);
    assert_eq!(k.encrypted_key.as_deref(), Some("wrapped-phone-key"));
    assert_eq!(k.keys[1].device_id, "bob-laptop");
    assert!(room_key_response(&vec![]).encrypted_key.is_none());
}

#[test]
fn device_registration_needs_fields() {
    let ok = RegisterDeviceInput { device_id: "d".into(), device_name: None, public_key: "k".into() };
    assert_eq!(check_device_registration(true, &ok), Ok(()));
    assert_eq!(check_device_registration(false, &ok), Err(KeyRequestRejection::Unauthorized));
    let blank = RegisterDeviceInput { device_id: "  ".into(), device_name: None, public_key: "k".into() };
    assert_eq!(check_device_registration(true, &blank), Err(KeyRequestRejection::MissingDeviceFields));
    assert_eq!(KeyRequestRejection::MissingDeviceFields.message(), "Device id and public key are required");
    assert_eq!(KeyRequestRejection::MissingDeviceFields.status(), 400);
}

fn view(id: i64, general: bool, count: i64) -> ChatRoomView {
    ChatRoomView::from_row(ChatRoomRow { id, name: "r".into(), is_general: general, created_by_user_id: None, participant_count: count })
}

#[test]
fn room_key_access_and_store_steps() {
    let enc = view(2, false, 2);
    let group = view(3, false, 3);
    assert_eq!(check_room_key_access(false, Some(&enc)), Err(KeyRequestRejection::Unauthorized));
    assert_eq!(check_room_key_access(true, None), Err(KeyRequestRejection::Forbidden));
    assert_eq!(check_room_key_access(true, Some(&group)), Err(KeyRequestRejection::NotEncrypted));
    assert_eq!(check_room_key_access(true, Some(&enc)), Ok(()));
    assert_eq!(decide_room_key_store(true, Some(&enc), None, false, None), RoomKeyStep::NeedMembership);
    assert_eq!(
        decide_room_key_store(true, Some(&enc), Some(false), false, None),
        RoomKeyStep::Reject(KeyRequestRejection::TargetNotMember)
    );
    assert_eq!(decide_room_key_store(true, Some(&enc), Some(true), false, None), RoomKeyStep::StoreForUser);
    assert_eq!(decide_room_key_store(true, Some(&enc), Some(true), true, None), RoomKeyStep::NeedDeviceCheck);
    assert_eq!(
        decide_room_key_store(true, Some(&enc), Some(true), true, Some(false)),
        RoomKeyStep::Reject(KeyRequestRejection::DeviceNotRegistered)
    );
    assert_eq!(decide_room_key_store(true, Some(&enc), Some(true), true, Some(true)), RoomKeyStep::StoreForDevice);
    assert_eq!(KeyRequestRejection::TargetNotMember.message(), "Target user is not a room member");
    assert_eq!(KeyRequestRejection::NotEncrypted.status(), 400);
}
