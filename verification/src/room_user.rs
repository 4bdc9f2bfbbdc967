use vstd::prelude::*;

verus! {

/// Ghost model of a room-membership record.
pub struct RoomUserV {
    pub room_id: Seq<char>,
    pub user_id: u128,
    pub username: Seq<char>,
    pub room_title: Seq<char>,
    pub create_at: i64,
}

/// A persisted room-membership record: which user belongs to which room.
pub struct RoomUser {
    pub room_id: String,
    pub user_id: u128,
    pub username: String,
    pub room_title: String,
    pub create_at: i64,
}

impl View for RoomUser {
    type V = RoomUserV;

    open spec fn view(&self) -> RoomUserV {
        RoomUserV {
            room_id: self.room_id@,
            user_id: self.user_id,
            username: self.username@,
            room_title: self.room_title@,
            create_at: self.create_at,
        }
    }
}

impl DeepView for RoomUser {
    type V = RoomUserV;

    open spec fn deep_view(&self) -> RoomUserV {
        self@
    }
}

impl RoomUser {
    pub fn new(
        room_id: String,
        room_title: String,
        user_id: u128,
        username: String,
        create_at: i64,
    ) -> (r: RoomUser)
        ensures
            r@ == (RoomUserV {
                room_id: room_id@,
                user_id,
                username: username@,
                room_title: room_title@,
                create_at,
            }),
    {
        RoomUser { room_id, user_id, username, room_title, create_at }
    }
}

} // verus!
