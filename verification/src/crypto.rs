//! The key exchange of end-to-end encrypted rooms: the requests that
//! publish device keys and room keys, who may make them, and the answers.
use crate::chat::ChatRoomView;
use crate::models::{clone_text, RoomDeviceKey, UserDevice};
use crate::text::{trim, trimmed};
use vstd::prelude::*;
use vstd::string::*;

verus! {

/// A request to publish the caller's public key.
#[derive(Debug)]
pub struct StorePublicKeyInput {
    pub public_key: String,
}

/// A request to register one of the caller's devices.
#[derive(Debug)]
pub struct RegisterDeviceInput {
    pub device_id: String,
    pub device_name: Option<String>,
    pub public_key: String,
}

/// A device's public key as others fetch it.
#[derive(Debug)]
pub struct PublicDeviceKey {
    pub device_id: String,
    pub public_key: String,
}

/// A device as its owner lists it.
#[derive(Debug)]
pub struct DeviceResponse {
    pub device_id: String,
    pub device_name: Option<String>,
    pub public_key: String,
    pub created_at: String,
    pub last_seen_at: String,
}

/// The owner's devices.
#[derive(Debug)]
pub struct DevicesResponse {
    pub devices: Vec<DeviceResponse>,
}

/// A user's public keys: the first device's key, and all of them.
#[derive(Debug)]
pub struct PublicKeyResponse {
    pub public_key: Option<String>,
    pub devices: Vec<PublicDeviceKey>,
}

/// A request to store a room key wrapped for a member (and one of their
/// devices).
#[derive(Debug)]
pub struct StoreRoomKeyInput {
    pub user_id: i64,
    pub device_id: Option<String>,
    pub encrypted_key: String,
}

/// A room key wrapped for one device.
#[derive(Debug)]
pub struct RoomDeviceKeyResponse {
    pub device_id: String,
    pub encrypted_key: String,
}

/// The room keys wrapped for the caller: the first one, and all of them.
#[derive(Debug)]
pub struct RoomKeyResponse {
    pub encrypted_key: Option<String>,
    pub keys: Vec<RoomDeviceKeyResponse>,
}

/// The members that hold a wrapped room key.
#[derive(Debug)]
pub struct RoomKeyMembersResponse {
    pub member_ids: Vec<i64>,
}

/// The public keys of a user's devices, in order; the first one also
/// stands alone.
pub fn public_key_response(devices: &Vec<UserDevice>) -> (r: PublicKeyResponse)
    ensures
        r.public_key == (if devices@.len() > 0 {
            Some(devices@[0].public_key)
        } else {
            None::<String>
        }),
        r.devices@.len() == devices@.len(),
        forall|i: int|
            #![trigger r.devices@[i]]
            0 <= i < devices@.len() ==> r.devices@[i].device_id == devices@[i].device_id
                && r.devices@[i].public_key == devices@[i].public_key,
{
    let public_key = if devices.len() > 0 {
        Some(devices[0].public_key.clone())
    } else {
        None
    };
    let mut keys: Vec<PublicDeviceKey> = Vec::new();
    let mut i: usize = 0;
    while i < devices.len()
        invariant
            i <= devices@.len(),
            keys@.len() == i,
            forall|j: int|
                #![trigger keys@[j]]
                0 <= j < i ==> keys@[j].device_id == devices@[j].device_id
                    && keys@[j].public_key == devices@[j].public_key,
        decreases devices@.len() - i,
    {
        keys.push(
            PublicDeviceKey {
                device_id: devices[i].device_id.clone(),
                public_key: devices[i].public_key.clone(),
            },
        );
        i += 1;
    }
    PublicKeyResponse { public_key, devices: keys }
}

/// The owner's devices as listed, in order.
pub fn devices_response(devices: &Vec<UserDevice>) -> (r: DevicesResponse)
    ensures
        r.devices@.len() == devices@.len(),
        forall|i: int|
            0 <= i < devices@.len() ==> {
                let d = #[trigger] r.devices@[i];
                &&& d.device_id == devices@[i].device_id
                &&& d.device_name == devices@[i].device_name
                &&& d.public_key == devices@[i].public_key
                &&& d.created_at == devices@[i].created_at
                &&& d.last_seen_at == devices@[i].last_seen_at
            },
{
    let mut out: Vec<DeviceResponse> = Vec::new();
    let mut i: usize = 0;
    while i < devices.len()
        invariant
            i <= devices@.len(),
            out@.len() == i,
            forall|j: int|
                0 <= j < i ==> {
                    let d = #[trigger] out@[j];
                    &&& d.device_id == devices@[j].device_id
                    &&& d.device_name == devices@[j].device_name
                    &&& d.public_key == devices@[j].public_key
                    &&& d.created_at == devices@[j].created_at
                    &&& d.last_seen_at == devices@[j].last_seen_at
                },
        decreases devices@.len() - i,
    {
        let dev = &devices[i];
        out.push(
            DeviceResponse {
                device_id: dev.device_id.clone(),
                device_name: clone_text(&dev.device_name),
                public_key: dev.public_key.clone(),
                created_at: dev.created_at.clone(),
                last_seen_at: dev.last_seen_at.clone(),
            },
        );
        i += 1;
    }
    DevicesResponse { devices: out }
}

/// The room keys wrapped for the caller's devices, in order; the first one
/// also stands alone.
pub fn room_key_response(keys: &Vec<RoomDeviceKey>) -> (r: RoomKeyResponse)
    ensures
        r.encrypted_key == (if keys@.len() > 0 {
            Some(keys@[0].encrypted_key)
        } else {
            None::<String>
        }),
        r.keys@.len() == keys@.len(),
        forall|i: int|
            #![trigger r.keys@[i]]
            0 <= i < keys@.len() ==> r.keys@[i].device_id == keys@[i].device_id
                && r.keys@[i].encrypted_key == keys@[i].encrypted_key,
{
    let first = if keys.len() > 0 {
        Some(keys[0].encrypted_key.clone())
    } else {
        None
    };
    let mut out: Vec<RoomDeviceKeyResponse> = Vec::new();
    let mut i: usize = 0;
    while i < keys.len()
        invariant
            i <= keys@.len(),
            out@.len() == i,
            forall|j: int|
                #![trigger out@[j]]
                0 <= j < i ==> out@[j].device_id == keys@[j].device_id
                    && out@[j].encrypted_key == keys@[j].encrypted_key,
        decreases keys@.len() - i,
    {
        out.push(
            RoomDeviceKeyResponse {
                device_id: keys[i].device_id.clone(),
                encrypted_key: keys[i].encrypted_key.clone(),
            },
        );
        i += 1;
    }
    RoomKeyResponse { encrypted_key: first, keys: out }
}

/// Why a key request is refused.
#[derive(Debug, Clone, Copy, PartialEq, Eq)]
pub enum KeyRequestRejection {
    /// No one is signed in.
    Unauthorized,
    /// The room is not open to the caller.
    Forbidden,
    /// The room does not exchange keys.
    NotEncrypted,
    /// The key is for someone outside the room.
    TargetNotMember,
    /// The key is for a device its user did not register.
    DeviceNotRegistered,
    /// A device needs an id and a public key.
    MissingDeviceFields,
}

impl KeyRequestRejection {
    /// The HTTP status code of the answer.
    pub open spec fn spec_status(&self) -> u16 {
        match self {
            KeyRequestRejection::Unauthorized => 401,
            KeyRequestRejection::Forbidden => 403,
            KeyRequestRejection::NotEncrypted => 400,
            KeyRequestRejection::TargetNotMember => 403,
            KeyRequestRejection::DeviceNotRegistered => 403,
            KeyRequestRejection::MissingDeviceFields => 400,
        }
    }

    /// The HTTP status code of the answer.
    pub fn status(&self) -> (r: u16)
        ensures
            r == self.spec_status(),
            self is Unauthorized ==> r == 401,
            self is NotEncrypted || self is MissingDeviceFields ==> r == 400,
            self is Forbidden || self is TargetNotMember || self is DeviceNotRegistered ==> r == 403,
    {
        match self {
            KeyRequestRejection::Unauthorized => 401,
            KeyRequestRejection::Forbidden => 403,
            KeyRequestRejection::NotEncrypted => 400,
            KeyRequestRejection::TargetNotMember => 403,
            KeyRequestRejection::DeviceNotRegistered => 403,
            KeyRequestRejection::MissingDeviceFields => 400,
        }
    }

    /// The text of the answer.
    pub fn message(&self) -> (r: String)
        ensures
            r@ == match self {
                KeyRequestRejection::Unauthorized => "Unauthorized"@,
                KeyRequestRejection::Forbidden => "Forbidden"@,
                KeyRequestRejection::NotEncrypted => "Room does not use E2E keys"@,
                KeyRequestRejection::TargetNotMember => "Target user is not a room member"@,
                KeyRequestRejection::DeviceNotRegistered => "Target device is not registered"@,
                KeyRequestRejection::MissingDeviceFields => "Device id and public key are required"@,
            },
    {
        match self {
            KeyRequestRejection::Unauthorized => String::from_str("Unauthorized"),
            KeyRequestRejection::Forbidden => String::from_str("Forbidden"),
            KeyRequestRejection::NotEncrypted => String::from_str("Room does not use E2E keys"),
            KeyRequestRejection::TargetNotMember => String::from_str(
                "Target user is not a room member",
            ),
            KeyRequestRejection::DeviceNotRegistered => String::from_str(
                "Target device is not registered",
            ),
            KeyRequestRejection::MissingDeviceFields => String::from_str(
                "Device id and public key are required",
            ),
        }
    }
}

/// Whether a device registration may be stored: the caller is signed in,
/// and the device id and the key hold more than white space.
pub fn check_device_registration(signed_in: bool, input: &RegisterDeviceInput) -> (r: Result<
    (),
    KeyRequestRejection,
>)
    ensures
        !signed_in ==> r == Err::<(), KeyRequestRejection>(KeyRequestRejection::Unauthorized),
        signed_in && (trimmed(input.device_id@).len() == 0 || trimmed(input.public_key@).len()
            == 0) ==> r == Err::<(), KeyRequestRejection>(
            KeyRequestRejection::MissingDeviceFields,
        ),
        signed_in && trimmed(input.device_id@).len() != 0 && trimmed(input.public_key@).len()
            != 0 ==> r is Ok,
{
    if !signed_in {
        return Err(KeyRequestRejection::Unauthorized);
    }
    let id = trim(input.device_id.as_str());
    let key = trim(input.public_key.as_str());
    if id.as_str().is_empty() || key.as_str().is_empty() {
        Err(KeyRequestRejection::MissingDeviceFields)
    } else {
        Ok(())
    }
}

/// Whether a signed-in caller may read or publish keys of a room, given
/// the room as the caller sees it (`None` when it is not open to them):
/// only open rooms that exchange keys qualify.
pub fn check_room_key_access(signed_in: bool, room: Option<&ChatRoomView>) -> (r: Result<
    (),
    KeyRequestRejection,
>)
    ensures
        !signed_in ==> r == Err::<(), KeyRequestRejection>(KeyRequestRejection::Unauthorized),
        signed_in && room is None ==> r == Err::<(), KeyRequestRejection>(
            KeyRequestRejection::Forbidden,
        ),
        signed_in && room is Some && !room->0.is_encrypted ==> r == Err::<
            (),
            KeyRequestRejection,
        >(KeyRequestRejection::NotEncrypted),
        signed_in && room is Some && room->0.is_encrypted ==> r is Ok,
{
    if !signed_in {
        return Err(KeyRequestRejection::Unauthorized);
    }
    match room {
        None => Err(KeyRequestRejection::Forbidden),
        Some(v) => if v.is_encrypted {
            Ok(())
        } else {
            Err(KeyRequestRejection::NotEncrypted)
        },
    }
}

/// The next step of storing a wrapped room key.
#[derive(Debug, Clone, Copy, PartialEq, Eq)]
pub enum RoomKeyStep {
    /// Refuse the request.
    Reject(KeyRequestRejection),
    /// Look up whether the target user is a member, then decide again.
    NeedMembership,
    /// Look up whether the target device belongs to the target user, then
    /// decide again.
    NeedDeviceCheck,
    /// Store the key for the target's device.
    StoreForDevice,
    /// Store the key for the target user.
    StoreForUser,
}

/// The next step of storing a wrapped room key, given what has been looked
/// up so far (`None` for what has not): the room must pass
/// `check_room_key_access`, the target must be a member, and a named device
/// must be the target's.
pub fn decide_room_key_store(
    signed_in: bool,
    room: Option<&ChatRoomView>,
    target_is_member: Option<bool>,
    names_device: bool,
    device_is_targets: Option<bool>,
) -> (r: RoomKeyStep)
    ensures
        !signed_in ==> r == RoomKeyStep::Reject(KeyRequestRejection::Unauthorized),
        signed_in && room is None ==> r == RoomKeyStep::Reject(KeyRequestRejection::Forbidden),
        signed_in && room is Some && !room->0.is_encrypted ==> r == RoomKeyStep::Reject(
            KeyRequestRejection::NotEncrypted,
        ),
        signed_in && room is Some && room->0.is_encrypted ==> r == match target_is_member {
            None => RoomKeyStep::NeedMembership,
            Some(false) => RoomKeyStep::Reject(KeyRequestRejection::TargetNotMember),
            Some(true) => if !names_device {
                RoomKeyStep::StoreForUser
            } else {
                match device_is_targets {
                    None => RoomKeyStep::NeedDeviceCheck,
                    Some(false) => RoomKeyStep::Reject(KeyRequestRejection::DeviceNotRegistered),
                    Some(true) => RoomKeyStep::StoreForDevice,
                }
            },
        },
{
    match check_room_key_access(signed_in, room) {
        Err(e) => RoomKeyStep::Reject(e),
        Ok(()) => match target_is_member {
            None => RoomKeyStep::NeedMembership,
            Some(false) => RoomKeyStep::Reject(KeyRequestRejection::TargetNotMember),
            Some(true) => if !names_device {
                RoomKeyStep::StoreForUser
            } else {
                match device_is_targets {
                    None => RoomKeyStep::NeedDeviceCheck,
                    Some(false) => RoomKeyStep::Reject(KeyRequestRejection::DeviceNotRegistered),
                    Some(true) => RoomKeyStep::StoreForDevice,
                }
            },
        },
    }
}

} // verus!
