//! The records the service keeps: users and the devices that hold their
//! end-to-end keys.
use vstd::prelude::*;

verus! {

/// A registered user, as pages and the JSON API show it.
#[derive(Debug)]
pub struct User {
    pub id: i64,
    pub name: String,
    pub email: String,
    pub nickname: Option<String>,
}

impl Clone for User {
    fn clone(&self) -> (r: Self)
        ensures
            r == *self,
    {
        User {
            id: self.id,
            name: self.name.clone(),
            email: self.email.clone(),
            nickname: clone_text(&self.nickname),
        }
    }
}

/// A copy of an optional text.
pub fn clone_text(t: &Option<String>) -> (r: Option<String>)
    ensures
        r == *t,
{
    match t {
        Some(s) => Some(s.clone()),
        None => None,
    }
}

/// The fields of a user to be created; `password` holds the stored hash
/// once the service has hashed it.
#[derive(Debug)]
pub struct NewUser {
    pub name: String,
    pub email: String,
    pub password: String,
    pub nickname: Option<String>,
}

/// The fields of a user that an edit replaces.
#[derive(Debug)]
pub struct UpdateUser {
    pub name: String,
    pub email: String,
    pub nickname: Option<String>,
}

/// A user together with the stored password hash.
#[derive(Debug)]
pub struct UserWithPassword {
    pub id: i64,
    pub name: String,
    pub email: String,
    pub password_hash: String,
    pub nickname: Option<String>,
}

impl Clone for UserWithPassword {
    fn clone(&self) -> (r: Self)
        ensures
            r == *self,
    {
        UserWithPassword {
            id: self.id,
            name: self.name.clone(),
            email: self.email.clone(),
            password_hash: self.password_hash.clone(),
            nickname: clone_text(&self.nickname),
        }
    }
}

impl UserWithPassword {
    /// The user without the password hash.
    pub open spec fn user_view(self) -> User {
        User { id: self.id, name: self.name, email: self.email, nickname: self.nickname }
    }

    /// The user without the password hash.
    pub fn into_user(self) -> (u: User)
        ensures
            u == self.user_view(),
    {
        User { id: self.id, name: self.name, email: self.email, nickname: self.nickname }
    }
}

/// A device that a user registered for end-to-end encrypted rooms.
#[derive(Debug)]
pub struct UserDevice {
    pub id: i64,
    pub user_id: i64,
    pub device_id: String,
    pub device_name: Option<String>,
    pub public_key: String,
    pub created_at: String,
    pub last_seen_at: String,
}

/// A room key wrapped for one device.
#[derive(Debug)]
pub struct RoomDeviceKey {
    pub device_id: String,
    pub encrypted_key: String,
}

} // verus!
