use rust_api_ssr::chat::{
    accept_path, available_invitees, chat_input_action, check_participants, content_disposition,
    created_notice, decide_invite, default_kind, default_room_name, interpret_chat_input,
    joined_notice, mark_rooms, other_users, parse_participant_ids, room_name_for, room_path,
    rooms_from_rows, select_room, should_forward, unread_counts_from_rows, BroadcastEvent,
    ChatEvent, ChatInput, ChatParticipant, ChatRoomRow, ChatRoomView, InviteStep,
    PendingInviteRow, PendingInviteView, RoomCreationProblem, SocketAction,
};
use rust_api_ssr::error::AppError;
use rust_api_ssr::models::User;

fn user(id: i64, name: &str) -> User {
    User { id, name: name.into(), email: format!("{}@example.com", name.to_lowercase()), nickname: None }
}

fn participant(id: i64, name: &str) -> ChatParticipant {
    ChatParticipant { id, name: name.into(), email: format!("{}@example.com", name.to_lowercase()) }
}

fn row(id: i64, general: bool, count: i64) -> ChatRoomRow {
    ChatRoomRow {
        id,
        name: format!("room {}", id),
        is_general: general,
        created_by_user_id: if general { None } else { Some(1) },
        participant_count: count,
    }
}

#[test]
fn room_paths() {
    assert_eq!(room_path(1, false), "/chat");
    assert_eq!(room_path(7, true), "/chat");
    assert_eq!(room_path(2, false), "/chat/rooms/2");
    assert_eq!(accept_path(1), "/chat/invites/1/accept");
    assert_eq!(default_kind(), "user");
}

#[test]
fn one_to_one_private_rooms_are_encrypted() {
    let views = rooms_from_rows(vec![row(1, true, 2), row(2, false, 2), row(3, false, 3)]);
    assert_eq!(views.len(), 3);
    assert!(!views[0].is_encrypted);
    assert_eq!(views[0].path, "/chat");
    assert!(views[1].is_encrypted);
    assert_eq!(views[1].path, "/chat/rooms/2");
    assert!(!views[2].is_encrypted);
    assert!(views.iter().all(|v| !v.is_active && v.unread_count == 0));
    assert_eq!(views[2].name, "room 3");
}

#[test]
fn selecting_and_marking_rooms() {
    let views = rooms_from_rows(vec![row(1, true, 2), row(2, false, 2), row(3, false, 3)]);
    assert!(select_room(views.clone(), 9).is_none());
    let picked = select_room(views.clone(), 2).unwrap();
    assert!(picked.is_active);
    assert_eq!(picked.id, 2);
    let counts = unread_counts_from_rows(&vec![(1, 4), (3, 2), (1, 5)]);
    assert_eq!(counts.get(&1), Some(&5));
    let mut rooms = views;
    mark_rooms(&mut rooms, 1, &counts);
    assert!(rooms[0].is_active);
    assert_eq!(rooms[0].unread_count, 0);
    assert_eq!(rooms[1].unread_count, 0);
    assert!(!rooms[1].is_active);
    assert_eq!(rooms[2].unread_count, 2);
}

#[test]
fn pending_invite_view() {
    let v = PendingInviteView::from_row(PendingInviteRow {
        id: 4,
        room_id: 2,
        room_name: "Secret".into(),
        invited_by_name: "Alice".into(),
        created_at: "2024-01-01".into(),
    });
    assert_eq!(v.accept_path, "/chat/invites/4/accept");
    assert_eq!(v.room_name, "Secret");
    assert_eq!(v.invited_by_name, "Alice");
}

#[test]
fn invitees_exclude_viewer_and_members() {
    let users = vec![user(1, "Alice"), user(2, "Bob"), user(3, "Carol"), user(4, "Dave")];
    let members = vec![participant(1, "Alice"), participant(2, "Bob")];
    let ids: Vec<i64> = available_invitees(&users, 1, &members).iter().map(|u| u.id).collect();
    assert_eq!(ids, vec![3, 4]);
    let others: Vec<i64> = other_users(users, 2).iter().map(|u| u.id).collect();
    assert_eq!(others, vec![1, 3, 4]);
}

#[test]
fn room_names() {
    let people = vec![user(2, "Bob"), user(3, "Carol")];
    assert_eq!(default_room_name(&people), "Chat with Bob, Carol");
    assert_eq!(default_room_name(&[]), "Chat with ");
    assert_eq!(room_name_for(Some("  Pair Room ".into()), &people), "Pair Room");
    assert_eq!(room_name_for(Some("   ".into()), &people), "Chat with Bob, Carol");
    assert_eq!(room_name_for(None, &people[..1]), "Chat with Bob");
    assert_eq!(created_notice("Alice"), "Alice created this room");
    assert_eq!(joined_notice("Carol"), "Carol joined the room");
}

#[test]
fn participant_ids_are_parsed_sorted_and_deduplicated() {
    assert_eq!(parse_participant_ids("2", 1), vec![2]);
    assert_eq!(parse_participant_ids("3, 2,2 ,x,,1, -4", 1), vec![-4, 2, 3]);
    assert_eq!(parse_participant_ids("", 1), Vec::<i64>::new());
    assert_eq!(parse_participant_ids("1,1", 1), Vec::<i64>::new());
    assert_eq!(parse_participant_ids("2,3", 1), vec![2, 3]);
}

#[test]
fn room_creation_checks() {
    assert_eq!(check_participants(&[], None), Err(RoomCreationProblem::NoParticipants));
    assert_eq!(check_participants(&[], Some(&[])), Err(RoomCreationProblem::NoParticipants));
    assert_eq!(check_participants(&[2], None), Ok(()));
    assert_eq!(
        check_participants(&[2, 9], Some(&[user(2, "Bob")])),
        Err(RoomCreationProblem::UnknownParticipants)
    );
    assert_eq!(check_participants(&[2], Some(&[user(2, "Bob")])), Ok(()));
    assert_eq!(
        RoomCreationProblem::NoParticipants.message(),
        "Add at least one other participant to create a private chat."
    );
    assert_eq!(
        RoomCreationProblem::UnknownParticipants.message(),
        "One or more selected users could not be found."
    );
}

fn private_room() -> ChatRoomView {
    let mut v = ChatRoomView::from_row(row(2, false, 2));
    v.is_active = true;
    v
}

fn error_text(step: InviteStep) -> String {
    match step {
        InviteStep::ShowError(m) => m,
        other => panic!("unexpected {:?}", other),
    }
}

#[test]
fn invite_decisions_in_order() {
    let room = private_room();
    let general = ChatRoomView::from_row(row(1, true, 3));
    let bob = user(2, "Bob");
    let carol = user(3, "Carol");
    let alice = user(1, "Alice");
    let members = vec![participant(1, "Alice"), participant(2, "Bob")];
    assert!(matches!(decide_invite(None, 1, 3, None, None, None), InviteStep::RedirectToChat));
    assert_eq!(
        error_text(decide_invite(Some(&general), 1, 3, None, None, None)),
        "The general chat cannot be restricted by invitation."
    );
    assert!(matches!(decide_invite(Some(&room), 1, 3, None, None, None), InviteStep::NeedInvitedUser));
    match decide_invite(Some(&room), 1, 999, Some(None), None, None) {
        InviteStep::Fail(AppError::NotFound(m)) => assert_eq!(m, "User with id 999 not found"),
        other => panic!("unexpected {:?}", other),
    }
    assert_eq!(
        error_text(decide_invite(Some(&room), 1, 1, Some(Some(&alice)), None, None)),
        "You cannot invite yourself."
    );
    assert!(matches!(
        decide_invite(Some(&room), 1, 3, Some(Some(&carol)), None, None),
        InviteStep::NeedParticipants
    ));
    assert_eq!(
        error_text(decide_invite(Some(&room), 1, 2, Some(Some(&bob)), Some(&members), None)),
        "That user is already part of this chat."
    );
    assert!(matches!(
        decide_invite(Some(&room), 1, 3, Some(Some(&carol)), Some(&members), None),
        InviteStep::NeedPendingCheck
    ));
    assert_eq!(
        error_text(decide_invite(Some(&room), 1, 3, Some(Some(&carol)), Some(&members), Some(true))),
        "That user already has a pending invitation."
    );
    assert!(matches!(
        decide_invite(Some(&room), 1, 3, Some(Some(&carol)), Some(&members), Some(false)),
        InviteStep::Invite
    ));
    assert!(matches!(
        decide_invite(Some(&room), 4, 3, Some(Some(&carol)), Some(&members), Some(false)),
        InviteStep::RedirectToChat
    ));
}

fn event(room_id: i64) -> ChatEvent {
    ChatEvent::user_message(1, room_id, "Alice".into(), "hi".into(), "now".into(), false)
}

#[test]
fn sockets_forward_only_their_room_and_user() {
    assert!(should_forward(&BroadcastEvent::Message(event(2)), 2, 9));
    assert!(!should_forward(&BroadcastEvent::Message(event(3)), 2, 9));
    let typing = BroadcastEvent::Typing { room_id: 2, user_name: "Bob".into(), is_typing: true };
    assert!(should_forward(&typing, 2, 9));
    assert!(!should_forward(&typing, 1, 9));
    assert!(should_forward(&BroadcastEvent::RoomChange { target_user_id: 9 }, 1, 9));
    assert!(!should_forward(&BroadcastEvent::RoomChange { target_user_id: 8 }, 1, 9));
}

#[test]
fn chat_event_constructors() {
    let e = ChatEvent::file_message(5, 2, "Bob".into(), "b".into(), "t".into(), "f.txt".into(), "text/plain".into(), true);
    assert_eq!(e.kind, "user");
    assert_eq!(e.file_name.as_deref(), Some("f.txt"));
    assert!(e.is_encrypted);
    let n = ChatEvent::notification(6, 2, "Bob".into(), "Bob joined the room".into(), "t".into());
    assert_eq!(n.kind, "notification");
    assert!(!n.is_encrypted);
    assert_eq!(event(2).kind, "user");
}

fn input(body: Option<&str>, typing: Option<bool>, data: Option<&str>, name: Option<&str>, ct: Option<&str>) -> ChatInput {
    ChatInput {
        body: body.map(String::from),
        typing,
        file_data: data.map(String::from),
        file_name: name.map(String::from),
        file_content_type: ct.map(String::from),
    }
}

#[test]
fn chat_input_is_interpreted() {
    assert!(matches!(interpret_chat_input(input(Some("x"), Some(true), None, None, None)), SocketAction::Typing(true)));
    match interpret_chat_input(input(Some("  hello  "), None, None, None, None)) {
        SocketAction::SendText(t) => assert_eq!(t, "hello"),
        other => panic!("unexpected {:?}", other),
    }
    assert!(matches!(interpret_chat_input(input(Some("   "), None, None, None, None)), SocketAction::Ignore));
    assert!(matches!(interpret_chat_input(input(None, None, None, None, None)), SocketAction::Ignore));
    match interpret_chat_input(input(None, None, Some("SGVsbG8gd29ybGQ="), Some("a.txt"), None)) {
        SocketAction::SendFile { body, file_name, data, content_type } => {
            assert_eq!(body, "shared a file: a.txt");
            assert_eq!(file_name, "a.txt");
            assert_eq!(data, b"Hello world".to_vec());
            assert_eq!(content_type, "application/octet-stream");
        }
        other => panic!("unexpected {:?}", other),
    }
    match interpret_chat_input(input(Some(" look "), None, Some("AAE="), Some("b.bin"), Some("image/png"))) {
        SocketAction::SendFile { body, data, content_type, .. } => {
            assert_eq!(body, "look");
            assert_eq!(data, vec![0u8, 1]);
            assert_eq!(content_type, "image/png");
        }
        other => panic!("unexpected {:?}", other),
    }
    assert!(matches!(interpret_chat_input(input(Some("x"), None, Some("!!notbase64"), Some("c"), None)), SocketAction::Ignore));
    assert!(matches!(chat_input_action(input(Some("y"), None, Some("zz"), Some("c"), None), None), SocketAction::Ignore));
    match chat_input_action(input(Some("y"), None, Some("zz"), None, None), None) {
        SocketAction::SendText(t) => assert_eq!(t, "y"),
        other => panic!("unexpected {:?}", other),
    }
}

#[test]
fn content_disposition_escapes_quotes() {
    assert_eq!(content_disposition("a.txt"), "inline; filename=\"a.txt\"");
    assert_eq!(content_disposition("say \"hi\".txt"), "inline; filename=\"say \\\"hi\\\".txt\"");
    assert_eq!(content_disposition(""), "inline; filename=\"\"");
}
