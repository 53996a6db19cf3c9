//! Chat rooms: what the pages show of rooms, messages and invitations, and
//! the rules for creating rooms and inviting people.
use crate::error::{file_not_found, framed_id, user_not_found, AppError};
use crate::models::{clone_text, User};
use crate::text::{
    chars_of, decimal, joined, parse_i64_range, parsed_i64, push_decimal, split_chars, split_on,
    trim, trim_bounds, trimmed,
};
use base64::Engine;
use std::collections::HashMap;
use vstd::prelude::*;
use vstd::string::*;

verus! {

broadcast use vstd::std_specs::hash::group_hash_axioms;

/// The room everyone is in.
pub const GENERAL_ROOM_ID: i64 = 1;

/// A message as rooms show it and sockets send it.
#[derive(Debug)]
pub struct ChatEvent {
    pub id: i64,
    pub room_id: i64,
    pub user_name: String,
    pub body: String,
    pub created_at: String,
    pub kind: String,
    pub file_name: Option<String>,
    pub file_content_type: Option<String>,
    pub is_encrypted: bool,
}

impl Clone for ChatEvent {
    fn clone(&self) -> (r: Self)
        ensures
            r == *self,
    {
        ChatEvent {
            id: self.id,
            room_id: self.room_id,
            user_name: self.user_name.clone(),
            body: self.body.clone(),
            created_at: self.created_at.clone(),
            kind: self.kind.clone(),
            file_name: clone_text(&self.file_name),
            file_content_type: clone_text(&self.file_content_type),
            is_encrypted: self.is_encrypted,
        }
    }
}

/// The kind of a message that does not say: one written by a user.
pub fn default_kind() -> (r: String)
    ensures
        r@ == "user"@,
{
    String::from_str("user")
}

impl ChatEvent {
    /// A message that `user_name` wrote.
    pub fn user_message(
        id: i64,
        room_id: i64,
        user_name: String,
        body: String,
        created_at: String,
        is_encrypted: bool,
    ) -> (r: ChatEvent)
        ensures
            r.id == id && r.room_id == room_id && r.user_name == user_name && r.body == body
                && r.created_at == created_at && r.kind@ == "user"@ && r.file_name is None
                && r.file_content_type is None && r.is_encrypted == is_encrypted,
    {
        ChatEvent {
            id,
            room_id,
            user_name,
            body,
            created_at,
            kind: default_kind(),
            file_name: None,
            file_content_type: None,
            is_encrypted,
        }
    }

    /// A message that `user_name` wrote with a file attached.
    pub fn file_message(
        id: i64,
        room_id: i64,
        user_name: String,
        body: String,
        created_at: String,
        file_name: String,
        content_type: String,
        is_encrypted: bool,
    ) -> (r: ChatEvent)
        ensures
            r.id == id && r.room_id == room_id && r.user_name == user_name && r.body == body
                && r.created_at == created_at && r.kind@ == "user"@ && r.file_name == Some(
                file_name,
            ) && r.file_content_type == Some(content_type) && r.is_encrypted == is_encrypted,
    {
        ChatEvent {
            id,
            room_id,
            user_name,
            body,
            created_at,
            kind: default_kind(),
            file_name: Some(file_name),
            file_content_type: Some(content_type),
            is_encrypted,
        }
    }

    /// A notice about the room (someone created or joined it); never
    /// encrypted.
    pub fn notification(
        id: i64,
        room_id: i64,
        user_name: String,
        body: String,
        created_at: String,
    ) -> (r: ChatEvent)
        ensures
            r.id == id && r.room_id == room_id && r.user_name == user_name && r.body == body
                && r.created_at == created_at && r.kind@ == "notification"@ && r.file_name is None
                && r.file_content_type is None && !r.is_encrypted,
    {
        ChatEvent {
            id,
            room_id,
            user_name,
            body,
            created_at,
            kind: String::from_str("notification"),
            file_name: None,
            file_content_type: None,
            is_encrypted: false,
        }
    }
}

/// What is sent to every open chat socket.
#[derive(Debug)]
pub enum BroadcastEvent {
    Message(ChatEvent),
    Typing { room_id: i64, user_name: String, is_typing: bool },
    RoomChange { target_user_id: i64 },
}

impl Clone for BroadcastEvent {
    fn clone(&self) -> (r: Self)
        ensures
            r == *self,
    {
        match self {
            BroadcastEvent::Message(e) => BroadcastEvent::Message(e.clone()),
            BroadcastEvent::Typing { room_id, user_name, is_typing } => BroadcastEvent::Typing {
                room_id: *room_id,
                user_name: user_name.clone(),
                is_typing: *is_typing,
            },
            BroadcastEvent::RoomChange { target_user_id } => BroadcastEvent::RoomChange {
                target_user_id: *target_user_id,
            },
        }
    }
}

/// Whether a socket of `user_id` open on room `room_id` passes `event` on:
/// messages and typing notes of its room, and room changes for its user.
pub fn should_forward(event: &BroadcastEvent, room_id: i64, user_id: i64) -> (r: bool)
    ensures
        r == match event {
            BroadcastEvent::Message(e) => e.room_id == room_id,
            BroadcastEvent::Typing { room_id: rid, .. } => *rid == room_id,
            BroadcastEvent::RoomChange { target_user_id } => *target_user_id == user_id,
        },
{
    match event {
        BroadcastEvent::Message(e) => e.room_id == room_id,
        BroadcastEvent::Typing { room_id: rid, .. } => *rid == room_id,
        BroadcastEvent::RoomChange { target_user_id } => *target_user_id == user_id,
    }
}

/// A room as the database lists it for a user.
#[derive(Debug)]
pub struct ChatRoomRow {
    pub id: i64,
    pub name: String,
    pub is_general: bool,
    pub created_by_user_id: Option<i64>,
    pub participant_count: i64,
}

/// A room as the chat page shows it.
#[derive(Debug)]
pub struct ChatRoomView {
    pub id: i64,
    pub name: String,
    pub is_general: bool,
    pub created_by_user_id: Option<i64>,
    pub participant_count: i64,
    pub path: String,
    pub is_active: bool,
    pub unread_count: i64,
    pub is_encrypted: bool,
}

impl Clone for ChatRoomView {
    fn clone(&self) -> (r: Self)
        ensures
            r == *self,
    {
        ChatRoomView {
            id: self.id,
            name: self.name.clone(),
            is_general: self.is_general,
            created_by_user_id: self.created_by_user_id,
            participant_count: self.participant_count,
            path: self.path.clone(),
            is_active: self.is_active,
            unread_count: self.unread_count,
            is_encrypted: self.is_encrypted,
        }
    }
}

/// A member of a room.
#[derive(Debug)]
pub struct ChatParticipant {
    pub id: i64,
    pub name: String,
    pub email: String,
}

impl Clone for ChatParticipant {
    fn clone(&self) -> (r: Self)
        ensures
            r == *self,
    {
        ChatParticipant { id: self.id, name: self.name.clone(), email: self.email.clone() }
    }
}

/// An open invitation as the database lists it.
#[derive(Debug)]
pub struct PendingInviteRow {
    pub id: i64,
    pub room_id: i64,
    pub room_name: String,
    pub invited_by_name: String,
    pub created_at: String,
}

/// An open invitation as the chat page shows it.
#[derive(Debug)]
pub struct PendingInviteView {
    pub room_name: String,
    pub invited_by_name: String,
    pub created_at: String,
    pub accept_path: String,
}

impl Clone for PendingInviteView {
    fn clone(&self) -> (r: Self)
        ensures
            r == *self,
    {
        PendingInviteView {
            room_name: self.room_name.clone(),
            invited_by_name: self.invited_by_name.clone(),
            created_at: self.created_at.clone(),
            accept_path: self.accept_path.clone(),
        }
    }
}

/// The form that creates a private room.
#[derive(Debug)]
pub struct CreateRoomForm {
    pub name: Option<String>,
    pub participant_ids: String,
}

/// The form that invites a user to a room.
#[derive(Debug)]
pub struct InviteForm {
    pub user_id: i64,
}

/// The room a chat socket opens on.
#[derive(Debug)]
pub struct RoomQuery {
    pub room_id: Option<i64>,
}

/// The page of a room: `/chat` for the general room, `/chat/rooms/<id>`
/// for the others.
pub open spec fn room_path_text(room_id: i64, is_general: bool) -> Seq<char> {
    if is_general || room_id == GENERAL_ROOM_ID {
        "/chat"@
    } else {
        "/chat/rooms/"@ + decimal(room_id as int)
    }
}

/// The page of a room.
pub fn room_path(room_id: i64, is_general: bool) -> (r: String)
    ensures
        r@ == room_path_text(room_id, is_general),
{
    if is_general || room_id == GENERAL_ROOM_ID {
        String::from_str("/chat")
    } else {
        let mut s = String::from_str("/chat/rooms/");
        push_decimal(&mut s, room_id);
        s
    }
}

/// How a listed room is shown before the page marks the open one: end to
/// end encrypted exactly when it is private with two members.
pub open spec fn room_view_of(row: ChatRoomRow, v: ChatRoomView) -> bool {
    &&& v.id == row.id
    &&& v.name == row.name
    &&& v.is_general == row.is_general
    &&& v.created_by_user_id == row.created_by_user_id
    &&& v.participant_count == row.participant_count
    &&& v.path@ == room_path_text(row.id, row.is_general)
    &&& !v.is_active
    &&& v.unread_count == 0
    &&& v.is_encrypted == (!row.is_general && row.participant_count == 2)
}

impl ChatRoomView {
    /// How a listed room is shown before the page marks the open one.
    pub fn from_row(row: ChatRoomRow) -> (v: ChatRoomView)
        ensures
            room_view_of(row, v),
            v.id == row.id && v.name == row.name && v.is_general == row.is_general,
            v.is_encrypted <==> (!row.is_general && row.participant_count == 2),
            !v.is_active && v.unread_count == 0,
    {
        let path = room_path(row.id, row.is_general);
        let is_encrypted = !row.is_general && row.participant_count == 2;
        ChatRoomView {
            id: row.id,
            name: row.name,
            is_general: row.is_general,
            created_by_user_id: row.created_by_user_id,
            participant_count: row.participant_count,
            path,
            is_active: false,
            unread_count: 0,
            is_encrypted,
        }
    }
}

/// How the listed rooms are shown, in the same order.
pub fn rooms_from_rows(rows: Vec<ChatRoomRow>) -> (r: Vec<ChatRoomView>)
    ensures
        r@.len() == rows@.len(),
        forall|i: int| 0 <= i < rows@.len() ==> room_view_of(rows@[i], #[trigger] r@[i]),
{
    let ghost original = rows@;
    let n: usize = rows.len();
    let mut rows = rows;
    let mut reversed: Vec<ChatRoomRow> = Vec::new();
    while rows.len() > 0
        invariant
            reversed@.len() + rows@.len() == n,
            n == original.len(),
            rows@ == original.take(rows@.len() as int),
            forall|i: int| 0 <= i < reversed@.len() ==> #[trigger] reversed@[i] == original[n - 1 - i],
        decreases rows@.len(),
    {
        let row = rows.pop().unwrap();
        reversed.push(row);
    }
    let mut out: Vec<ChatRoomView> = Vec::new();
    while reversed.len() > 0
        invariant
            out@.len() + reversed@.len() == n,
            n == original.len(),
            forall|i: int| 0 <= i < reversed@.len() ==> #[trigger] reversed@[i] == original[n - 1 - i],
            forall|i: int| 0 <= i < out@.len() ==> room_view_of(original[i], #[trigger] out@[i]),
        decreases reversed@.len(),
    {
        let k: usize = out.len();
        let row = reversed.pop().unwrap();
        assert(row == original[k as int]);
        out.push(ChatRoomView::from_row(row));
    }
    out
}

/// The room `room_id` among a user's rooms, marked as the open one.
pub fn select_room(rooms: Vec<ChatRoomView>, room_id: i64) -> (r: Option<ChatRoomView>)
    ensures
        match r {
            Some(v) => exists|i: int|
                0 <= i < rooms@.len() && rooms@[i].id == room_id && (forall|j: int|
                    0 <= j < i ==> rooms@[j].id != room_id) && v == (ChatRoomView {
                    is_active: true,
                    ..rooms@[i]
                }),
            None => forall|i: int| 0 <= i < rooms@.len() ==> rooms@[i].id != room_id,
        },
{
    let mut i: usize = 0;
    while i < rooms.len()
        invariant
            i <= rooms@.len(),
            forall|j: int| 0 <= j < i ==> rooms@[j].id != room_id,
        decreases rooms@.len() - i,
    {
        if rooms[i].id == room_id {
            let mut v = rooms[i].clone();
            v.is_active = true;
            assert(v == (ChatRoomView { is_active: true, ..rooms@[i as int] }));
            return Some(v);
        }
        i += 1;
    }
    None
}

/// The unread counts per room that the rows give (a later row for the
/// same room wins).
pub open spec fn counts_map(rows: Seq<(i64, i64)>) -> Map<i64, i64>
    decreases rows.len(),
{
    if rows.len() == 0 {
        Map::empty()
    } else {
        counts_map(rows.drop_last()).insert(rows.last().0, rows.last().1)
    }
}

/// The unread counts per room.
pub fn unread_counts_from_rows(rows: &Vec<(i64, i64)>) -> (r: HashMap<i64, i64>)
    ensures
        r@ == counts_map(rows@),
        forall|room: i64| r@.contains_key(room) <==> exists|i: int| 0 <= i < rows@.len() && (
            #[trigger] rows@[i]).0 == room,
        forall|i: int|
            0 <= i < rows@.len() && (forall|j: int| i < j < rows@.len() ==> (#[trigger] rows@[j]).0
                != rows@[i].0) ==> r@.contains_key(#[trigger] rows@[i].0) && r@[rows@[i].0] == rows@[i].1,
{
    let mut m: HashMap<i64, i64> = HashMap::new();
    let mut i: usize = 0;
    while i < rows.len()
        invariant
            i <= rows@.len(),
            m@ == counts_map(rows@.take(i as int)),
        decreases rows@.len() - i,
    {
        let (room, count) = rows[i];
        m.insert(room, count);
        assert(rows@.take(i + 1).drop_last() == rows@.take(i as int));
        i += 1;
    }
    assert(rows@.take(rows@.len() as int) == rows@);
    proof {
        lemma_counts_map_last_row_wins(rows@);
    }
    m
}

/// The unread counts hold a room exactly when some row names it, and then
/// the count of the last row that names it.
#[verifier::spinoff_prover]
#[verifier::rlimit(40)]
pub proof fn lemma_counts_map_last_row_wins(rows: Seq<(i64, i64)>)
    ensures
        forall|room: i64| counts_map(rows).contains_key(room) <==> exists|i: int| 0 <= i < rows.len() && (
            #[trigger] rows[i]).0 == room,
        forall|i: int|
            0 <= i < rows.len() && (forall|j: int| i < j < rows.len() ==> (#[trigger] rows[j]).0
                != rows[i].0) ==> counts_map(rows).contains_key(#[trigger] rows[i].0)
                && counts_map(rows)[rows[i].0] == rows[i].1,
    decreases rows.len(),
{
    if rows.len() > 0 {
        let init = rows.drop_last();
        lemma_counts_map_last_row_wins(init);
        let last = rows.last();
        assert(counts_map(rows) == counts_map(init).insert(last.0, last.1));
        assert forall|room: i64| counts_map(rows).contains_key(room) <==> exists|i: int|
            0 <= i < rows.len() && (#[trigger] rows[i]).0 == room by {
            if room == last.0 {
                assert(rows[rows.len() - 1] == last);
            } else if counts_map(rows).contains_key(room) {
                let i = choose|i: int| 0 <= i < init.len() && (#[trigger] init[i]).0 == room;
                assert(rows[i] == init[i]);
            } else if exists|i: int| 0 <= i < rows.len() && (#[trigger] rows[i]).0 == room {
                let i = choose|i: int| 0 <= i < rows.len() && (#[trigger] rows[i]).0 == room;
                assert(i < init.len());
                assert(init[i] == rows[i]);
            }
        }
        assert forall|i: int|
            0 <= i < rows.len() && (forall|j: int| i < j < rows.len() ==> (#[trigger] rows[j]).0
                != rows[i].0) implies counts_map(rows).contains_key(#[trigger] rows[i].0)
                && counts_map(rows)[rows[i].0] == rows[i].1 by {
            if i == rows.len() - 1 {
                assert(rows[i] == last);
            } else {
                assert(init[i] == rows[i]);
                assert(rows[rows.len() - 1] == last);
                assert(last.0 != rows[i].0);
                assert forall|j: int| i < j < init.len() implies (#[trigger] init[j]).0 != init[i].0 by {
                    assert(init[j] == rows[j]);
                }
            }
        }
    }
}

/// The unread count shown for a room: none for the open room, otherwise
/// the counted one (none if not counted).
pub open spec fn shown_unread(room_id: i64, active_room_id: i64, counts: Map<i64, i64>) -> i64 {
    if room_id == active_room_id {
        0
    } else if counts.contains_key(room_id) {
        counts[room_id]
    } else {
        0
    }
}

/// Marks the open room and sets the unread count of each room.
pub fn mark_rooms(rooms: &mut Vec<ChatRoomView>, active_room_id: i64, counts: &HashMap<i64, i64>)
    ensures
        final(rooms)@.len() == old(rooms)@.len(),
        forall|i: int|
            0 <= i < old(rooms)@.len() ==> #[trigger] final(rooms)@[i] == (ChatRoomView {
                is_active: old(rooms)@[i].id == active_room_id,
                unread_count: shown_unread(old(rooms)@[i].id, active_room_id, counts@),
                ..old(rooms)@[i]
            }),
{
    let ghost start = rooms@;
    let mut i: usize = 0;
    while i < rooms.len()
        invariant
            i <= rooms@.len() == start.len(),
            forall|j: int|
                0 <= j < i ==> #[trigger] rooms@[j] == (ChatRoomView {
                    is_active: start[j].id == active_room_id,
                    unread_count: shown_unread(start[j].id, active_room_id, counts@),
                    ..start[j]
                }),
            forall|j: int| i <= j < rooms@.len() ==> #[trigger] rooms@[j] == start[j],
        decreases rooms@.len() - i,
    {
        let id = rooms[i].id;
        let unread: i64 = if id == active_room_id {
            0
        } else {
            match counts.get(&id) {
                Some(c) => *c,
                None => 0,
            }
        };
        let mut room = rooms[i].clone();
        room.is_active = id == active_room_id;
        room.unread_count = unread;
        rooms.set(i, room);
        i += 1;
    }
}

/// The page that accepts the invitation `invite_id`.
pub fn accept_path(invite_id: i64) -> (r: String)
    ensures
        r@ == "/chat/invites/"@ + decimal(invite_id as int) + "/accept"@,
{
    framed_id("/chat/invites/", invite_id, "/accept")
}

impl PendingInviteView {
    /// How an open invitation is shown.
    pub fn from_row(row: PendingInviteRow) -> (v: PendingInviteView)
        ensures
            v.room_name == row.room_name,
            v.invited_by_name == row.invited_by_name,
            v.created_at == row.created_at,
            v.accept_path@ == "/chat/invites/"@ + decimal(row.id as int) + "/accept"@,
    {
        let accept_path = accept_path(row.id);
        PendingInviteView {
            room_name: row.room_name,
            invited_by_name: row.invited_by_name,
            created_at: row.created_at,
            accept_path,
        }
    }
}

/// The ids of `participants`.
pub open spec fn ids_of(participants: Seq<ChatParticipant>) -> Seq<i64> {
    participants.map_values(|p: ChatParticipant| p.id)
}

/// The users, in order, that can be invited: not the viewer and not
/// already a participant.
pub open spec fn invitees(users: Seq<User>, current_user_id: i64, member_ids: Seq<i64>) -> Seq<User>
    decreases users.len(),
{
    if users.len() == 0 {
        Seq::empty()
    } else {
        let rest = invitees(users.drop_last(), current_user_id, member_ids);
        let u = users.last();
        if u.id != current_user_id && !member_ids.contains(u.id) {
            rest.push(u)
        } else {
            rest
        }
    }
}

fn has_participant(participants: &[ChatParticipant], id: i64) -> (r: bool)
    ensures
        r == ids_of(participants@).contains(id),
{
    let mut i: usize = 0;
    while i < participants.len()
        invariant
            i <= participants@.len(),
            forall|j: int| 0 <= j < i ==> participants@[j].id != id,
        decreases participants@.len() - i,
    {
        if participants[i].id == id {
            assert(ids_of(participants@)[i as int] == id);
            return true;
        }
        i += 1;
    }
    assert forall|j: int| 0 <= j < ids_of(participants@).len() implies ids_of(participants@)[j] != id by {
        assert(participants@[j].id != id);
    }
    false
}

/// The users, in order, that the viewer can invite to a room with these
/// participants.
pub fn available_invitees(
    all_users: &[User],
    current_user_id: i64,
    participants: &[ChatParticipant],
) -> (r: Vec<User>)
    ensures
        r@ == invitees(all_users@, current_user_id, ids_of(participants@)),
        forall|i: int|
            0 <= i < all_users@.len() && all_users@[i].id != current_user_id && !(exists|k: int|
                0 <= k < participants@.len() && participants@[k].id == all_users@[i].id)
                ==> r@.contains(#[trigger] all_users@[i]),
        forall|j: int|
            0 <= j < r@.len() ==> (#[trigger] r@[j]).id != current_user_id && all_users@.contains(r@[j])
                && !(exists|k: int| 0 <= k < participants@.len() && participants@[k].id == r@[j].id),
{
    let ghost ids = ids_of(participants@);
    let mut out: Vec<User> = Vec::new();
    let mut i: usize = 0;
    while i < all_users.len()
        invariant
            i <= all_users@.len(),
            ids == ids_of(participants@),
            out@ == invitees(all_users@.take(i as int), current_user_id, ids),
        decreases all_users@.len() - i,
    {
        assert(all_users@.take(i + 1).drop_last() == all_users@.take(i as int));
        assert(all_users@.take(i + 1).last() == all_users@[i as int]);
        let u = &all_users[i];
        if u.id != current_user_id && !has_participant(participants, u.id) {
            out.push(u.clone());
        }
        i += 1;
    }
    assert(all_users@.take(all_users@.len() as int) == all_users@);
    proof {
        assert forall|i: int|
            0 <= i < all_users@.len() && all_users@[i].id != current_user_id && !(exists|k: int|
                0 <= k < participants@.len() && participants@[k].id == all_users@[i].id)
                implies out@.contains(#[trigger] all_users@[i]) by {
            if ids.contains(all_users@[i].id) {
                let k = choose|k: int| 0 <= k < ids.len() && ids[k] == all_users@[i].id;
                assert(participants@[k].id == all_users@[i].id);
            }
            lemma_invitees_complete(all_users@, current_user_id, ids, i);
        }
        assert forall|j: int| 0 <= j < out@.len() implies (#[trigger] out@[j]).id != current_user_id
            && all_users@.contains(out@[j]) && !(exists|k: int|
            0 <= k < participants@.len() && participants@[k].id == out@[j].id) by {
            lemma_invitees_exclude_members(all_users@, current_user_id, ids, j);
            if exists|k: int| 0 <= k < participants@.len() && participants@[k].id == out@[j].id {
                let k = choose|k: int| 0 <= k < participants@.len() && participants@[k].id == out@[j].id;
                assert(ids[k] == out@[j].id);
            }
        }
    }
    out
}

/// Everyone who is neither the viewer nor already in the room can be
/// invited.
pub proof fn lemma_invitees_complete(users: Seq<User>, current_user_id: i64, member_ids: Seq<i64>, i: int)
    requires
        0 <= i < users.len(),
        users[i].id != current_user_id,
        !member_ids.contains(users[i].id),
    ensures
        invitees(users, current_user_id, member_ids).contains(users[i]),
    decreases users.len(),
{
    let rest = invitees(users.drop_last(), current_user_id, member_ids);
    if i == users.len() - 1 {
        assert(invitees(users, current_user_id, member_ids) == rest.push(users[i]));
        assert(rest.push(users[i])[rest.len() as int] == users[i]);
    } else {
        assert(users.drop_last()[i] == users[i]);
        lemma_invitees_complete(users.drop_last(), current_user_id, member_ids, i);
        let w = choose|w: int| 0 <= w < rest.len() && rest[w] == users[i];
        let u = users.last();
        if u.id != current_user_id && !member_ids.contains(u.id) {
            assert(rest.push(u)[w] == users[i]);
        }
    }
}

/// No one can be invited who is the viewer or already in the room.
pub proof fn lemma_invitees_exclude_members(
    users: Seq<User>,
    current_user_id: i64,
    member_ids: Seq<i64>,
    k: int,
)
    requires
        0 <= k < invitees(users, current_user_id, member_ids).len(),
    ensures
        invitees(users, current_user_id, member_ids)[k].id != current_user_id,
        !member_ids.contains(invitees(users, current_user_id, member_ids)[k].id),
        users.contains(invitees(users, current_user_id, member_ids)[k]),
    decreases users.len(),
{
    let rest = invitees(users.drop_last(), current_user_id, member_ids);
    if k < rest.len() {
        lemma_invitees_exclude_members(users.drop_last(), current_user_id, member_ids, k);
        let u = rest[k];
        let w = choose|w: int| 0 <= w < users.drop_last().len() && users.drop_last()[w] == u;
        assert(users[w] == u);
    } else {
        assert(users[users.len() - 1] == users.last());
    }
}

/// The users other than the viewer, in order.
pub open spec fn others(users: Seq<User>, viewer_id: i64) -> Seq<User>
    decreases users.len(),
{
    if users.len() == 0 {
        Seq::empty()
    } else {
        let rest = others(users.drop_last(), viewer_id);
        if users.last().id != viewer_id {
            rest.push(users.last())
        } else {
            rest
        }
    }
}

/// The users other than the viewer, in order.
pub fn other_users(users: Vec<User>, viewer_id: i64) -> (r: Vec<User>)
    ensures
        r@ == others(users@, viewer_id),
        forall|i: int| 0 <= i < users@.len() && users@[i].id != viewer_id ==> r@.contains(#[trigger] users@[i]),
        forall|j: int| 0 <= j < r@.len() ==> (#[trigger] r@[j]).id != viewer_id && users@.contains(r@[j]),
{
    let mut out: Vec<User> = Vec::new();
    let mut i: usize = 0;
    while i < users.len()
        invariant
            i <= users@.len(),
            out@ == others(users@.take(i as int), viewer_id),
        decreases users@.len() - i,
    {
        assert(users@.take(i + 1).drop_last() == users@.take(i as int));
        assert(users@.take(i + 1).last() == users@[i as int]);
        if users[i].id != viewer_id {
            out.push(users[i].clone());
        }
        i += 1;
    }
    assert(users@.take(users@.len() as int) == users@);
    proof {
        assert forall|i: int| 0 <= i < users@.len() && users@[i].id != viewer_id implies out@.contains(
            #[trigger] users@[i],
        ) by {
            lemma_others_exact(users@, viewer_id);
        }
        assert forall|j: int| 0 <= j < out@.len() implies (#[trigger] out@[j]).id != viewer_id
            && users@.contains(out@[j]) by {
            lemma_others_exact(users@, viewer_id);
        }
    }
    out
}

/// The others of the viewer are exactly the users, in order, whose id is
/// not the viewer's: each such user is listed and no one else.
pub proof fn lemma_others_exact(users: Seq<User>, viewer_id: i64)
    ensures
        forall|i: int|
            0 <= i < users.len() && users[i].id != viewer_id ==> others(users, viewer_id).contains(
                #[trigger] users[i],
            ),
        forall|j: int|
            0 <= j < others(users, viewer_id).len() ==> (#[trigger] others(users, viewer_id)[j]).id
                != viewer_id && users.contains(others(users, viewer_id)[j]),
    decreases users.len(),
{
    if users.len() > 0 {
        let init = users.drop_last();
        lemma_others_exact(init, viewer_id);
        let rest = others(init, viewer_id);
        let u = users.last();
        assert forall|i: int| 0 <= i < users.len() && users[i].id != viewer_id implies others(
            users,
            viewer_id,
        ).contains(#[trigger] users[i]) by {
            if i == users.len() - 1 {
                assert(others(users, viewer_id) == rest.push(u));
                assert(rest.push(u)[rest.len() as int] == u);
            } else {
                assert(init[i] == users[i]);
                let w = choose|w: int| 0 <= w < rest.len() && rest[w] == init[i];
                if u.id != viewer_id {
                    assert(rest.push(u)[w] == users[i]);
                }
            }
        }
        assert forall|j: int| 0 <= j < others(users, viewer_id).len() implies (#[trigger] others(
            users,
            viewer_id,
        )[j]).id != viewer_id && users.contains(others(users, viewer_id)[j]) by {
            if j < rest.len() {
                let x = rest[j];
                let w = choose|w: int| 0 <= w < init.len() && init[w] == x;
                assert(users[w] == x);
                if u.id != viewer_id {
                    assert(rest.push(u)[j] == x);
                }
            } else {
                assert(users[users.len() - 1] == u);
            }
        }
    }
}

/// The names of `users`.
pub open spec fn names_of(users: Seq<User>) -> Seq<Seq<char>> {
    users.map_values(|u: User| u.name@)
}

/// The name a new room gets when none is given: "Chat with " and the
/// participants' names, separated by ", ".
pub open spec fn default_room_name_text(users: Seq<User>) -> Seq<char> {
    "Chat with "@ + joined(names_of(users), ", "@)
}

/// The name a new room gets when none is given.
pub fn default_room_name(participants: &[User]) -> (r: String)
    ensures
        r@ == default_room_name_text(participants@),
{
    let mut names = String::new();
    let mut i: usize = 0;
    while i < participants.len()
        invariant
            i <= participants@.len(),
            names@ == joined(names_of(participants@.take(i as int)), ", "@),
        decreases participants@.len() - i,
    {
        let ghost before = names_of(participants@.take(i as int));
        assert(names_of(participants@.take(i + 1)) == before.push(participants@[i as int].name@));
        assert(names_of(participants@.take(i + 1)).drop_last() == before);
        if i > 0 {
            names.append(", ");
        } else {
            assert(before.len() == 0);
        }
        names.append(participants[i].name.as_str());
        i += 1;
    }
    assert(participants@.take(participants@.len() as int) == participants@);
    let mut s = String::from_str("Chat with ");
    s.append(names.as_str());
    s
}

/// The default name of a room with one participant names that
/// participant, and each further participant adds ", " and their name.
pub proof fn lemma_default_room_name_grows(users: Seq<User>, u: User)
    ensures
        users.len() == 0 ==> default_room_name_text(users.push(u)) == "Chat with "@ + u.name@,
        users.len() > 0 ==> default_room_name_text(users.push(u)) == default_room_name_text(users)
            + ", "@ + u.name@,
{
    let names = names_of(users.push(u));
    assert(names.drop_last() == names_of(users));
    assert(names.last() == u.name@);
    if users.len() > 0 {
        assert(("Chat with "@ + joined(names_of(users), ", "@)) + ", "@ + u.name@ == "Chat with "@
            + (joined(names_of(users), ", "@) + ", "@ + u.name@));
    }
}

/// The name of a new room: the trimmed requested name, or the default one
/// when that is empty.
pub fn room_name_for(requested: Option<String>, participants: &[User]) -> (r: String)
    ensures
        r@ == ({
            let t = match requested {
                Some(n) => trimmed(n@),
                None => Seq::<char>::empty(),
            };
            if t.len() == 0 {
                default_room_name_text(participants@)
            } else {
                t
            }
        }),
{
    let t = match requested {
        Some(n) => trim(n.as_str()),
        None => String::new(),
    };
    if t.as_str().is_empty() {
        default_room_name(participants)
    } else {
        t
    }
}

/// Whether `x` is the id of some piece of the list (after trimming).
pub open spec fn listed_id(pieces: Seq<Seq<char>>, x: i64) -> bool {
    exists|k: int| 0 <= k < pieces.len() && parsed_i64(trimmed(#[trigger] pieces[k])) == Some(x)
}

/// Whether `s` is strictly increasing.
pub open spec fn strictly_increasing(s: Seq<i64>) -> bool {
    forall|i: int, j: int| 0 <= i < j < s.len() ==> s[i] < s[j]
}

/// Puts `x` into the strictly increasing `v`, unless it is there.
#[verifier::spinoff_prover]
fn insert_sorted(v: &mut Vec<i64>, x: i64)
    requires
        strictly_increasing(old(v)@),
    ensures
        strictly_increasing(final(v)@),
        forall|y: i64| final(v)@.contains(y) <==> (old(v)@.contains(y) || y == x),
{
    let mut i: usize = 0;
    while i < v.len() && v[i] < x
        invariant
            i <= v@.len(),
            v@ == old(v)@,
            forall|j: int| 0 <= j < i ==> v@[j] < x,
        decreases v@.len() - i,
    {
        i += 1;
    }
    if i < v.len() && v[i] == x {
        assert forall|y: i64| v@.contains(y) <==> (v@.contains(y) || y == x) by {
            if y == x {
                assert(v@[i as int] == x);
            }
        }
        return;
    }
    let ghost before = v@;
    assert(before == old(v)@);
    v.insert(i, x);
    assert forall|a: int, b: int| 0 <= a < b < v@.len() implies v@[a] < v@[b] by {
        if b < i {
        } else if a < i && b == i {
        } else if a < i && b > i {
            assert(v@[b] == before[b - 1]);
        } else if a == i {
            assert(v@[b] == before[b - 1]);
            assert(before[i as int] >= x);
            if b - 1 > i {
                assert(before[i as int] < before[b - 1]);
            }
        } else {
            assert(v@[a] == before[a - 1]);
            assert(v@[b] == before[b - 1]);
        }
    }
    assert forall|y: i64| v@.contains(y) <==> (before.contains(y) || y == x) by {
        if v@.contains(y) {
            let k = choose|k: int| 0 <= k < v@.len() && v@[k] == y;
            if k < i {
                assert(before[k] == y);
            } else if k > i {
                assert(before[k - 1] == y);
            }
        }
        if before.contains(y) {
            let k = choose|k: int| 0 <= k < before.len() && before[k] == y;
            if k < i {
                assert(v@[k] == y);
            } else {
                assert(v@[k + 1] == y);
            }
        }
        if y == x {
            assert(v@[i as int] == x);
        }
    }
    assert(forall|y: i64| v@.contains(y) <==> (old(v)@.contains(y) || y == x));
}

/// The ids chosen for a new room: the pieces of the comma-separated list
/// that read as integers after trimming, without the viewer, in increasing
/// order, each once.
pub fn parse_participant_ids(raw: &str, viewer_id: i64) -> (r: Vec<i64>)
    ensures
        strictly_increasing(r@),
        forall|x: i64|
            r@.contains(x) <==> (x != viewer_id && listed_id(split_on(raw@, ','), x)),
{
    let chars = chars_of(raw);
    let pieces = split_chars(&chars, ',');
    let ghost all = pieces.deep_view();
    let mut ids: Vec<i64> = Vec::new();
    let mut k: usize = 0;
    while k < pieces.len()
        invariant
            k <= pieces@.len(),
            all == pieces.deep_view(),
            all == split_on(raw@, ','),
            strictly_increasing(ids@),
            forall|x: i64|
                ids@.contains(x) <==> (x != viewer_id && exists|m: int|
                    0 <= m < k && parsed_i64(trimmed(#[trigger] all[m])) == Some(x)),
        decreases pieces@.len() - k,
    {
        let piece = &pieces[k];
        assert(piece@ == all[k as int]);
        let (lo, hi) = trim_bounds(piece);
        let parsed = parse_i64_range(piece, lo, hi);
        let ghost before = ids@;
        match parsed {
            Some(x) => {
                if x != viewer_id {
                    insert_sorted(&mut ids, x);
                }
            },
            None => {},
        }
        assert forall|x: i64|
            ids@.contains(x) <==> (x != viewer_id && exists|m: int|
                0 <= m < k + 1 && parsed_i64(trimmed(#[trigger] all[m])) == Some(x)) by {
            if x != viewer_id && parsed_i64(trimmed(all[k as int])) == Some(x) {
                assert(ids@.contains(x));
            }
            if ids@.contains(x) && !before.contains(x) {
                assert(parsed_i64(trimmed(all[k as int])) == Some(x));
            }
        }
        k += 1;
    }
    ids
}

/// Why a private room could not be created.
#[derive(Debug, Clone, Copy, PartialEq, Eq)]
pub enum RoomCreationProblem {
    /// No one but the creator was chosen.
    NoParticipants,
    /// Some chosen id belongs to no user.
    UnknownParticipants,
}

impl RoomCreationProblem {
    /// The message the chat page shows.
    pub fn message(&self) -> (r: String)
        ensures
            r@ == match self {
                RoomCreationProblem::NoParticipants =>
                    "Add at least one other participant to create a private chat."@,
                RoomCreationProblem::UnknownParticipants =>
                    "One or more selected users could not be found."@,
            },
    {
        match self {
            RoomCreationProblem::NoParticipants => String::from_str(
                "Add at least one other participant to create a private chat.",
            ),
            RoomCreationProblem::UnknownParticipants => String::from_str(
                "One or more selected users could not be found.",
            ),
        }
    }
}

/// Whether the chosen ids can make a room, before (`found` is `None`) and
/// after the users with those ids were looked up: some must be chosen, and
/// the users found for them must be as many.
pub fn check_participants(ids: &[i64], found: Option<&[User]>) -> (r: Result<(), RoomCreationProblem>)
    ensures
        ids@.len() == 0 ==> r == Err::<(), RoomCreationProblem>(RoomCreationProblem::NoParticipants),
        ids@.len() != 0 && found is None ==> r is Ok,
        ids@.len() != 0 && found is Some && found->0@.len() != ids@.len() ==> r == Err::<
            (),
            RoomCreationProblem,
        >(RoomCreationProblem::UnknownParticipants),
        ids@.len() != 0 && found is Some && found->0@.len() == ids@.len() ==> r is Ok,
{
    if ids.len() == 0 {
        return Err(RoomCreationProblem::NoParticipants);
    }
    match found {
        None => Ok(()),
        Some(users) => if users.len() != ids.len() {
            Err(RoomCreationProblem::UnknownParticipants)
        } else {
            Ok(())
        },
    }
}

/// The notice posted when `name` creates a room.
pub fn created_notice(name: &str) -> (r: String)
    ensures
        r@ == name@ + " created this room"@,
{
    let mut s = String::from_str(name);
    s.append(" created this room");
    s
}

/// The notice posted when `name` joins a room.
pub fn joined_notice(name: &str) -> (r: String)
    ensures
        r@ == name@ + " joined the room"@,
{
    let mut s = String::from_str(name);
    s.append(" joined the room");
    s
}

/// What inviting a user to a room comes to, step by step.
#[derive(Debug)]
pub enum InviteStep {
    /// Go back to the chat page.
    RedirectToChat,
    /// Show the room again with this message.
    ShowError(String),
    /// Answer with this error.
    Fail(AppError),
    /// Look up the invited user, then decide again.
    NeedInvitedUser,
    /// Look up the room's participants, then decide again.
    NeedParticipants,
    /// Look up whether an invitation is already open, then decide again.
    NeedPendingCheck,
    /// Record the invitation and go to the room's page.
    Invite,
}

/// The messages an invitation can be refused with.
pub open spec fn general_room_message() -> Seq<char> {
    "The general chat cannot be restricted by invitation."@
}

pub open spec fn self_invite_message() -> Seq<char> {
    "You cannot invite yourself."@
}

pub open spec fn already_member_message() -> Seq<char> {
    "That user is already part of this chat."@
}

pub open spec fn already_invited_message() -> Seq<char> {
    "That user already has a pending invitation."@
}

/// The next step of inviting user `invited_id` to a room, given what has
/// been looked up so far (`None` for what has not): the room as the viewer
/// sees it, the invited user (itself `None` when no user has the id), the
/// room's participants and whether an invitation is already open. The
/// checks come in this order: the room must be open to the viewer and not
/// the general one, the user must exist and not be the viewer, must not
/// be a participant or already invited, and the viewer must be a
/// participant.
pub fn decide_invite(
    room: Option<&ChatRoomView>,
    viewer_id: i64,
    invited_id: i64,
    invited: Option<Option<&User>>,
    participants: Option<&[ChatParticipant]>,
    pending: Option<bool>,
) -> (r: InviteStep)
    ensures
        match room {
            None => r is RedirectToChat,
            Some(room) => if room.is_general {
                r matches InviteStep::ShowError(m) && m@ == general_room_message()
            } else {
                match invited {
                    None => r is NeedInvitedUser,
                    Some(None) => r matches InviteStep::Fail(AppError::NotFound(m)) && m@
                        == "User with id "@ + decimal(invited_id as int) + " not found"@,
                    Some(Some(u)) => if u.id == viewer_id {
                        r matches InviteStep::ShowError(m) && m@ == self_invite_message()
                    } else {
                        match participants {
                            None => r is NeedParticipants,
                            Some(ps) => if ids_of(ps@).contains(u.id) {
                                r matches InviteStep::ShowError(m) && m@ == already_member_message()
                            } else {
                                match pending {
                                    None => r is NeedPendingCheck,
                                    Some(true) => r matches InviteStep::ShowError(m) && m@
                                        == already_invited_message(),
                                    Some(false) => if ids_of(ps@).contains(viewer_id) {
                                        r is Invite
                                    } else {
                                        r is RedirectToChat
                                    },
                                }
                            },
                        }
                    },
                }
            },
        },
        r is Invite ==> (room matches Some(rm) && !rm.is_general),
        r is Invite ==> (invited matches Some(Some(u)) && (u.id != viewer_id && (
        participants matches Some(ps) && (!ids_of(ps@).contains(u.id) && ids_of(ps@).contains(
            viewer_id,
        ))))),
        r is Invite ==> pending == Some(false),
{
    let room = match room {
        None => {
            return InviteStep::RedirectToChat;
        },
        Some(room) => room,
    };
    if room.is_general {
        return InviteStep::ShowError(
            String::from_str("The general chat cannot be restricted by invitation."),
        );
    }
    let user = match invited {
        None => {
            return InviteStep::NeedInvitedUser;
        },
        Some(None) => {
            return InviteStep::Fail(user_not_found(invited_id));
        },
        Some(Some(u)) => u,
    };
    if user.id == viewer_id {
        return InviteStep::ShowError(String::from_str("You cannot invite yourself."));
    }
    let ps = match participants {
        None => {
            return InviteStep::NeedParticipants;
        },
        Some(ps) => ps,
    };
    if has_participant(ps, user.id) {
        return InviteStep::ShowError(String::from_str("That user is already part of this chat."));
    }
    match pending {
        None => InviteStep::NeedPendingCheck,
        Some(true) => InviteStep::ShowError(
            String::from_str("That user already has a pending invitation."),
        ),
        Some(false) => if has_participant(ps, viewer_id) {
            InviteStep::Invite
        } else {
            InviteStep::RedirectToChat
        },
    }
}

/// A message that arrives on a chat socket.
#[derive(Debug)]
pub struct ChatInput {
    pub body: Option<String>,
    pub typing: Option<bool>,
    pub file_data: Option<String>,
    pub file_name: Option<String>,
    pub file_content_type: Option<String>,
}

/// What a chat socket does with an incoming message.
#[derive(Debug)]
pub enum SocketAction {
    /// Tell the room that the user is (or stopped) typing.
    Typing(bool),
    /// Store and send a message with a file.
    SendFile { body: String, file_name: String, data: Vec<u8>, content_type: String },
    /// Store and send a text message.
    SendText(String),
    /// Do nothing.
    Ignore,
}

/// What the standard base64 alphabet (with padding) decodes `text` to,
/// `None` when it is not valid base64.
pub uninterp spec fn base64_decoded(text: Seq<char>) -> Option<Seq<u8>>;

/// Calls `base64::engine::general_purpose::STANDARD.decode`. Claims that
/// the result is a function of the text; the decoding itself is named,
/// not stated.
#[verifier::external_body]
fn decode_base64(text: &str) -> (r: Option<Vec<u8>>)
    ensures
        match r {
            Some(v) => base64_decoded(text@) == Some(v@),
            None => base64_decoded(text@) is None,
        },
{
    match base64::engine::general_purpose::STANDARD.decode(text) {
        Ok(v) => Some(v),
        Err(_) => None,
    }
}

/// The body shown for a file sent without text.
pub open spec fn shared_file_text(file_name: Seq<char>) -> Seq<char> {
    "shared a file: "@ + file_name
}

/// What a chat socket does with `input`, given what its file data decoded
/// to (consulted only when the input carries both file data and a name):
/// a typing note is passed on; a file is sent with its trimmed text (or a
/// note that a file was shared) and its content type (or
/// `application/octet-stream`), and dropped if it does not decode; other
/// text is sent trimmed, unless it is empty.
pub fn chat_input_action(input: ChatInput, decoded: Option<Vec<u8>>) -> (r: SocketAction)
    ensures
        chat_input_action_holds(input, decoded, r),
        input.typing matches Some(t) ==> r == SocketAction::Typing(t),
        input.typing is None ==> !(r is Typing),
        input.typing is None && !(input.file_data is Some && input.file_name is Some) ==> match input.body {
            Some(b) => if trimmed(b@).len() == 0 {
                r is Ignore
            } else {
                r matches SocketAction::SendText(t) && t@ == trimmed(b@)
            },
            None => r is Ignore,
        },
        input.typing is None && input.file_data is Some && input.file_name is Some ==> match decoded {
            Some(d) => r matches SocketAction::SendFile { data, file_name, .. } && data == d
                && file_name == input.file_name->0,
            None => r is Ignore,
        },
{
    if let Some(t) = input.typing {
        return SocketAction::Typing(t);
    }
    let body = match &input.body {
        Some(b) => trim(b.as_str()),
        None => String::new(),
    };
    match (input.file_data, input.file_name) {
        (Some(_), Some(name)) => {
            let content_type = match input.file_content_type {
                Some(ct) => ct,
                None => String::from_str("application/octet-stream"),
            };
            match decoded {
                Some(bytes) => {
                    let shown = if body.as_str().is_empty() {
                        let mut s = String::from_str("shared a file: ");
                        s.append(name.as_str());
                        s
                    } else {
                        body
                    };
                    SocketAction::SendFile {
                        body: shown,
                        file_name: name,
                        data: bytes,
                        content_type,
                    }
                },
                None => SocketAction::Ignore,
            }
        },
        _ => {
            if body.as_str().is_empty() {
                SocketAction::Ignore
            } else {
                SocketAction::SendText(body)
            }
        },
    }
}

/// What a chat socket does with `input`, decoding its file data when it
/// carries a file.
pub fn interpret_chat_input(input: ChatInput) -> (r: SocketAction)
    ensures
        ({
            let decoded = if input.typing is None && input.file_data is Some
                && input.file_name is Some {
                base64_decoded(input.file_data->0@)
            } else {
                None
            };
            exists|d: Option<Vec<u8>>|
                (match d {
                    Some(v) => decoded == Some(v@),
                    None => decoded is None,
                }) && chat_input_action_holds(input, d, r)
        }),
        input.typing matches Some(t) ==> r == SocketAction::Typing(t),
        input.typing is None ==> !(r is Typing),
{
    let decoded = if input.typing.is_none() && input.file_data.is_some()
        && input.file_name.is_some() {
        match &input.file_data {
            Some(text) => decode_base64(text.as_str()),
            None => None,
        }
    } else {
        None
    };
    let ghost inp = input;
    let ghost d = decoded;
    let r = chat_input_action(input, decoded);
    assert(chat_input_action_holds(inp, d, r));
    r
}

/// The contract of `chat_input_action`.
pub open spec fn chat_input_action_holds(input: ChatInput, decoded: Option<Vec<u8>>, r: SocketAction) -> bool {
    let body = match input.body {
        Some(b) => trimmed(b@),
        None => Seq::<char>::empty(),
    };
    match input.typing {
        Some(t) => r == SocketAction::Typing(t),
        None => if input.file_data is Some && input.file_name is Some {
            match decoded {
                Some(d) => r matches SocketAction::SendFile {
                    body: b,
                    file_name: f,
                    data: bytes,
                    content_type: c,
                } && f == input.file_name->0 && bytes == d && c@ == (match input.file_content_type {
                    Some(ct) => ct@,
                    None => "application/octet-stream"@,
                }) && b@ == (if body.len() == 0 {
                    shared_file_text(input.file_name->0@)
                } else {
                    body
                }),
                None => r is Ignore,
            }
        } else if body.len() == 0 {
            r is Ignore
        } else {
            r matches SocketAction::SendText(t) && t@ == body
        },
    }
}

/// A typing note on a chat socket is passed on with its flag, whether the
/// user started or stopped typing, whatever else the input carries.
pub proof fn lemma_typing_note_passes_on(input: ChatInput, decoded: Option<Vec<u8>>, r: SocketAction)
    requires
        chat_input_action_holds(input, decoded, r),
        input.typing is Some,
    ensures
        r == SocketAction::Typing(input.typing->0),
{
}

/// Text without a typing note or a file is sent trimmed when something is
/// left, and nothing happens when nothing is.
pub proof fn lemma_text_input_sent_trimmed(input: ChatInput, decoded: Option<Vec<u8>>, r: SocketAction)
    requires
        chat_input_action_holds(input, decoded, r),
        input.typing is None,
        input.file_data is None,
    ensures
        match input.body {
            Some(b) => if trimmed(b@).len() == 0 {
                r is Ignore
            } else {
                r matches SocketAction::SendText(t) && t@ == trimmed(b@)
            },
            None => r is Ignore,
        },
{
}

/// `name` with each `"` written as `\"`.
pub open spec fn escape_quotes(name: Seq<char>) -> Seq<char>
    decreases name.len(),
{
    if name.len() == 0 {
        Seq::empty()
    } else if name.last() == '"' {
        escape_quotes(name.drop_last()) + seq!['\\', '"']
    } else {
        escape_quotes(name.drop_last()).push(name.last())
    }
}

/// The `Content-Disposition` value that shows the file `name` inline.
pub fn content_disposition(name: &str) -> (r: String)
    ensures
        r@ == "inline; filename=\""@ + escape_quotes(name@) + "\""@,
{
    let chars = chars_of(name);
    let mut escaped = String::new();
    let mut i: usize = 0;
    while i < chars.len()
        invariant
            i <= chars@.len(),
            escaped@ == escape_quotes(chars@.take(i as int)),
        decreases chars@.len() - i,
    {
        assert(chars@.take(i + 1).drop_last() == chars@.take(i as int));
        assert(chars@.take(i + 1).last() == chars@[i as int]);
        if chars[i] == '"' {
            escaped.push('\\');
            escaped.push('"');
        } else {
            escaped.push(chars[i]);
        }
        i += 1;
    }
    assert(chars@.take(chars@.len() as int) == chars@);
    let mut s = String::from_str("inline; filename=\"");
    s.append(escaped.as_str());
    s.append("\"");
    s
}

/// A listed room is shown end to end encrypted exactly when it is a
/// private room with two members; it is never shown as the open room or
/// with unread messages before the page marks it.
pub proof fn lemma_room_encrypted_iff_private_pair(row: ChatRoomRow, v: ChatRoomView)
    requires
        room_view_of(row, v),
    ensures
        v.is_encrypted <==> (!row.is_general && row.participant_count == 2),
        v.id == row.id && !v.is_active && v.unread_count == 0,
        v.path@ == (if row.is_general || row.id == GENERAL_ROOM_ID {
            "/chat"@
        } else {
            "/chat/rooms/"@ + decimal(row.id as int)
        }),
{
}

/// A name without quotes is written as it is.
pub proof fn lemma_escape_quotes_plain(name: Seq<char>)
    requires
        !name.contains('"'),
    ensures
        escape_quotes(name) == name,
    decreases name.len(),
{
    if name.len() > 0 {
        assert(!name.drop_last().contains('"')) by {
            if name.drop_last().contains('"') {
                let k = choose|k: int| 0 <= k < name.drop_last().len() && name.drop_last()[k] == '"';
                assert(name[k] == '"');
            }
        }
        lemma_escape_quotes_plain(name.drop_last());
        assert(name.last() != '"') by {
            assert(name[name.len() - 1] == name.last());
        }
        assert(name.drop_last().push(name.last()) == name);
    }
}

/// Every quote in an escaped name is preceded by a backslash, so the name
/// cannot end the quoted `filename` early.
pub proof fn lemma_escaped_quotes_guarded(name: Seq<char>)
    ensures
        forall|i: int|
            0 <= i < escape_quotes(name).len() && #[trigger] escape_quotes(name)[i] == '"' ==> i > 0
                && escape_quotes(name)[i - 1] == '\\',
    decreases name.len(),
{
    if name.len() > 0 {
        lemma_escaped_quotes_guarded(name.drop_last());
        let e = escape_quotes(name.drop_last());
        if name.last() == '"' {
            assert(escape_quotes(name) == e + seq!['\\', '"']);
            assert forall|i: int| 0 <= i < escape_quotes(name).len() && #[trigger] escape_quotes(name)[i]
                == '"' implies i > 0 && escape_quotes(name)[i - 1] == '\\' by {
                if i < e.len() {
                    assert(escape_quotes(name)[i] == e[i]);
                    assert(escape_quotes(name)[i - 1] == e[i - 1]);
                }
            }
        } else {
            assert(escape_quotes(name) == e.push(name.last()));
            assert forall|i: int| 0 <= i < escape_quotes(name).len() && #[trigger] escape_quotes(name)[i]
                == '"' implies i > 0 && escape_quotes(name)[i - 1] == '\\' by {
                if i < e.len() {
                    assert(escape_quotes(name)[i] == e[i]);
                    assert(escape_quotes(name)[i - 1] == e[i - 1]);
                }
            }
        }
    }
}

/// The latest messages in the order they were written, from the list the
/// database gives newest first.
pub fn chronological(newest_first: Vec<ChatEvent>) -> (r: Vec<ChatEvent>)
    ensures
        r@ == newest_first@.reverse(),
{
    let ghost original = newest_first@;
    let mut rest = newest_first;
    let mut out: Vec<ChatEvent> = Vec::new();
    while rest.len() > 0
        invariant
            rest@ == original.take(rest@.len() as int),
            out@ == original.reverse().take(out@.len() as int),
            out@.len() + rest@.len() == original.len(),
        decreases rest@.len(),
    {
        let ghost k = out@.len();
        let e = rest.pop().unwrap();
        assert(e == original.reverse()[k as int]);
        out.push(e);
        assert(out@ == original.reverse().take(k as int + 1));
    }
    out
}

/// What serving a message's file comes to, step by step.
#[derive(Debug)]
pub enum FileStep {
    /// Find the room of the message, then decide again.
    NeedMessageRoom,
    /// Find whether the room is open to the viewer, then decide again.
    NeedRoomAccess(i64),
    /// Fetch the file, then decide again.
    NeedFile,
    /// Answer that there is no such file.
    NotFound(AppError),
    /// Send the file.
    Serve,
}

/// The next step of serving the file of message `message_id`, given what
/// has been found so far (`None` for what has not): the message's room
/// (itself `None` for no such message), whether that room is open to the
/// viewer, and whether the message has a file. Whatever is missing or
/// hidden is answered alike, as not found.
pub fn decide_file_request(
    message_id: i64,
    message_room: Option<Option<i64>>,
    room_open: Option<bool>,
    has_file: Option<bool>,
) -> (r: FileStep)
    ensures
        match message_room {
            None => r is NeedMessageRoom,
            Some(None) => r matches FileStep::NotFound(AppError::NotFound(m)) && m@
                == "File for message "@ + decimal(message_id as int) + " not found"@,
            Some(Some(room_id)) => match room_open {
                None => r == FileStep::NeedRoomAccess(room_id),
                Some(false) => r matches FileStep::NotFound(AppError::NotFound(m)) && m@
                    == "File for message "@ + decimal(message_id as int) + " not found"@,
                Some(true) => match has_file {
                    None => r is NeedFile,
                    Some(false) => r matches FileStep::NotFound(AppError::NotFound(m)) && m@
                        == "File for message "@ + decimal(message_id as int) + " not found"@,
                    Some(true) => r is Serve,
                },
            },
        },
        r is Serve ==> room_open == Some(true),
{
    match message_room {
        None => FileStep::NeedMessageRoom,
        Some(None) => FileStep::NotFound(file_not_found(message_id)),
        Some(Some(room_id)) => match room_open {
            None => FileStep::NeedRoomAccess(room_id),
            Some(false) => FileStep::NotFound(file_not_found(message_id)),
            Some(true) => match has_file {
                None => FileStep::NeedFile,
                Some(false) => FileStep::NotFound(file_not_found(message_id)),
                Some(true) => FileStep::Serve,
            },
        },
    }
}

} // verus!
