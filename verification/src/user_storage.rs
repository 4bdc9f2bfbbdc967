use vstd::prelude::*;
use crate::room_user::{RoomUser, RoomUserV};
use crate::proto::{
    Addressing, Input, InputParcel, Output, OutputParcel, OutputV, ParcelV, RoomOutput, RoomOutputV,
    RoomsLoadedOutput, parcel_vec1,
};

verus! {

/// The membership entries as they are reported to a user.
pub open spec fn room_outputs_of(entries: Seq<RoomUserV>) -> Seq<RoomOutputV>
    decreases entries.len(),
{
    if entries.len() == 0 {
        Seq::empty()
    } else {
        room_outputs_of(entries.drop_last()).push(
            RoomOutputV {
                room_id: entries.last().room_id,
                room_title: entries.last().room_title,
                user_id: entries.last().user_id,
                create_at: entries.last().create_at,
            },
        )
    }
}

/// `LoadRooms` at the user registry: the stored membership entries, turned
/// into one `RoomsLoaded` event for the asking user. A failed lookup reads
/// as no data. User-level events carry no room, so their room id is empty.
pub open spec fn load_rooms_step(user_id: u128, entries: Option<Seq<RoomUserV>>) -> ParcelV {
    ParcelV {
        room_id: Seq::empty(),
        addressing: Addressing::OnlyClient(user_id),
        output: OutputV::RoomsLoaded {
            rooms: match entries {
                Some(es) => room_outputs_of(es),
                None => Seq::empty(),
            },
        },
    }
}

/// The read-mostly sibling of the room registry: it answers which rooms a
/// user belongs to. It keeps no state of its own; the stored entries are
/// handed in.
pub struct UserStorage {
}

impl UserStorage {
    pub fn new() -> (s: UserStorage) {
        UserStorage {  }
    }

    /// `LoadRooms`: turns the stored entries into a `RoomsLoaded` event
    /// targeted at the asking user.
    pub fn load_rooms(&self, user_id: u128, entries: &Option<Vec<RoomUser>>) -> (r: Vec<
        OutputParcel,
    >)
        ensures
            r.deep_view() == seq![load_rooms_step(user_id, entries.deep_view())],
    {
        let ghost target = load_rooms_step(user_id, entries.deep_view());
        let mut rooms: Vec<RoomOutput> = Vec::new();
        if let Some(es) = entries {
            let ghost esv = es.deep_view();
            let ghost mut acc: Seq<RoomOutputV> = Seq::empty();
            let mut i: usize = 0;
            proof {
                assert(esv.take(0) =~= Seq::<RoomUserV>::empty());
                assert(acc =~= room_outputs_of(esv.take(0)));
            }
            while i < es.len()
                invariant
                    i <= es.len(),
                    esv == es.deep_view(),
                    acc == room_outputs_of(esv.take(i as int)),
                    rooms@.len() == acc.len(),
                    forall|j: int| 0 <= j < acc.len() ==> (#[trigger] rooms@[j])@ == acc[j],
                decreases es.len() - i,
            {
                proof {
                    assert(esv.take(i + 1).drop_last() =~= esv.take(i as int));
                    assert(esv.take(i + 1).last() == esv[i as int]);
                    assert(esv[i as int] == es@[i as int].deep_view());
                }
                let e = &es[i];
                rooms.push(
                    RoomOutput::new(
                        e.room_id.clone(),
                        e.room_title.clone(),
                        e.user_id,
                        e.create_at,
                    ),
                );
                proof {
                    acc = acc.push(
                        RoomOutputV {
                            room_id: esv[i as int].room_id,
                            room_title: esv[i as int].room_title,
                            user_id: esv[i as int].user_id,
                            create_at: esv[i as int].create_at,
                        },
                    );
                }
                i = i + 1;
            }
            proof {
                assert(esv.take(esv.len() as int) =~= esv);
                assert forall|j: int| 0 <= j < acc.len() implies rooms.deep_view()[j] == acc[j] by {
                    assert(rooms.deep_view()[j] == rooms@[j].deep_view());
                }
                assert(rooms.deep_view() =~= room_outputs_of(esv));
            }
        } else {
            proof {
                assert(rooms.deep_view() =~= Seq::<RoomOutputV>::empty());
            }
        }
        let parcel = OutputParcel::new(
            String::new(),
            Addressing::OnlyClient(user_id),
            Output::RoomsLoaded(RoomsLoadedOutput::new(rooms)),
        );
        let r = parcel_vec1(parcel);
        proof {
            assert(r.deep_view() =~= seq![target]);
        }
        r
    }

    /// Dispatches one user-level command: `Ping` is answered directly,
    /// `LoadRooms` reports the stored entries. Room-level commands do not
    /// belong here.
    pub fn process(&self, parcel: &InputParcel, entries: &Option<Vec<RoomUser>>) -> (r: Vec<
        OutputParcel,
    >)
        requires
            parcel.input is Ping || parcel.input is LoadRooms,
        ensures
            parcel.input is Ping ==> r.deep_view() == seq![
                ParcelV {
                    room_id: Seq::<char>::empty(),
                    addressing: Addressing::OnlyClient(parcel.client_id),
                    output: OutputV::Pong,
                },
            ],
            parcel.input is LoadRooms ==> r.deep_view() == seq![
                load_rooms_step(parcel.input->LoadRooms_0.user_id, entries.deep_view()),
            ],
    {
        match &parcel.input {
            Input::Ping => {
                let r = parcel_vec1(
                    OutputParcel::new(
                        String::new(),
                        Addressing::OnlyClient(parcel.client_id),
                        Output::Pong,
                    ),
                );
                r
            },
            Input::LoadRooms(input) => self.load_rooms(input.user_id, entries),
            _ => {
                proof {
                    assert(false);
                }
                parcel_vec1(
                    OutputParcel::new(String::new(), Addressing::OnlyClient(parcel.client_id), Output::Pong),
                )
            },
        }
    }
}

} // verus!
