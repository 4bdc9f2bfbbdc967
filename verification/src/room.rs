use vstd::prelude::*;
use crate::user::{User, UserV};

verus! {

/// Ghost model of a room record.
pub struct RoomV {
    pub room_id: Seq<char>,
    pub room_title: Seq<char>,
    pub host_info: UserV,
    pub participants: Option<Seq<UserV>>,
    pub create_at: i64,
    pub scope: Seq<char>,
    pub delete_key: Seq<char>,
}

/// A room record: metadata plus the capability token that gates deletion.
/// `delete_key` never travels in outbound events.
pub struct Room {
    pub room_id: String,
    pub room_title: String,
    pub host_info: User,
    pub participants: Option<Vec<User>>,
    pub create_at: i64,
    pub scope: String,
    pub delete_key: String,
}

impl View for Room {
    type V = RoomV;

    open spec fn view(&self) -> RoomV {
        RoomV {
            room_id: self.room_id@,
            room_title: self.room_title@,
            host_info: self.host_info@,
            participants: self.participants.deep_view(),
            create_at: self.create_at,
            scope: self.scope@,
            delete_key: self.delete_key@,
        }
    }
}

impl DeepView for Room {
    type V = RoomV;

    open spec fn deep_view(&self) -> RoomV {
        self@
    }
}

impl Room {
    pub fn new(
        room_id: String,
        room_title: String,
        host_id: u128,
        host_name: String,
        participants: Option<Vec<User>>,
        create_at: i64,
        scope: String,
        delete_key: String,
    ) -> (r: Room)
        ensures
            r@ == (RoomV {
                room_id: room_id@,
                room_title: room_title@,
                host_info: UserV { id: host_id, name: host_name@ },
                participants: participants.deep_view(),
                create_at,
                scope: scope@,
                delete_key: delete_key@,
            }),
    {
        let host_info = User::new(host_id, &host_name);
        Room { room_id, room_title, host_info, participants, create_at, scope, delete_key }
    }

    /// A verified copy of the record.
    pub fn duplicate(&self) -> (r: Room)
        ensures
            r@ == self@,
    {
        let participants: Option<Vec<User>> = match &self.participants {
            Some(users) => Some(duplicate_users(users)),
            None => None,
        };
        proof {
            assert(participants.deep_view() =~~= self.participants.deep_view());
        }
        Room {
            room_id: self.room_id.clone(),
            room_title: self.room_title.clone(),
            host_info: self.host_info.duplicate(),
            participants,
            create_at: self.create_at,
            scope: self.scope.clone(),
            delete_key: self.delete_key.clone(),
        }
    }
}

/// An element-wise verified copy of a member list.
pub fn duplicate_users(users: &Vec<User>) -> (out: Vec<User>)
    ensures
        out@ =~= users@,
        out.deep_view() =~= users.deep_view(),
{
    let mut out: Vec<User> = Vec::new();
    let mut i: usize = 0;
    while i < users.len()
        invariant
            i <= users.len(),
            out@ =~= users@.take(i as int),
        decreases users.len() - i,
    {
        out.push(users[i].duplicate());
        proof {
            assert(out@ =~= users@.take(i + 1));
        }
        i = i + 1;
    }
    out
}

} // verus!
