use chat_core::hub::RoomSeed;
use chat_core::proto::{
    Action, Addressing, Input, InputParcel, JoinInput, Output, OutputError, PostInput,
    RemoveRoomInput, RoomInput,
};
use chat_core::room_storage::{DispatchCtx, RoomStorage};
use chat_core::room_user::RoomUser;
use chat_core::user::User;
use chat_core::user_storage::UserStorage;

fn create_input(host_id: u128, host_name: &str, key: &str) -> RoomInput {
    RoomInput {
        room_title: String::from("general"),
        host_id,
        host_name: String::from(host_name),
        participants: None,
        delete_key: String::from(key),
    }
}

#[test]
fn create_room_joins_host_and_announces() {
    let mut reg = RoomStorage::new();
    let r = reg.create_room_at(String::from("r1"), &create_input(1, "Alice", "k"), 100);
    assert_eq!(r.outputs.len(), 3);
    assert!(matches!(r.outputs[0].output, Output::Joined(_)));
    assert!(matches!(r.outputs[1].output, Output::UserJoined(_)));
    match &r.outputs[2].output {
        Output::RoomCreated(c) => assert_eq!(c.room_id, "r1"),
        _ => panic!("expected RoomCreated"),
    }
    assert_eq!(r.outputs[2].addressing, Addressing::Room);
    // persisted: the host's user record, the room, the host's membership
    assert_eq!(r.actions.len(), 3);
    assert!(matches!(r.actions[0], Action::SaveUser(_)));
    match &r.actions[1] {
        Action::SaveRoom(room) => {
            assert_eq!(room.room_id, "r1");
            assert_eq!(room.room_title, "general");
            assert_eq!(room.host_info.name, "Alice");
            assert_eq!(room.create_at, 100);
            assert_eq!(room.delete_key, "k");
            assert!(room.participants.is_none());
        },
        _ => panic!("expected SaveRoom"),
    }
    match &r.actions[2] {
        Action::SaveRoomUser(m) => {
            assert_eq!(m.room_id, "r1");
            assert_eq!(m.user_id, 1);
            assert_eq!(m.username, "Alice");
        },
        _ => panic!("expected SaveRoomUser"),
    }
    assert!(reg.room_is_live(&String::from("r1")));
    assert!(reg.hub_is_live(&String::from("r1")));
}

#[test]
fn create_room_joins_declared_participants() {
    let mut reg = RoomStorage::new();
    let input = RoomInput {
        room_title: String::from("general"),
        host_id: 1,
        host_name: String::from("Alice"),
        participants: Some(vec![User::new(2, &String::from("Bob"))]),
        delete_key: String::from("k"),
    };
    let r = reg.create_room_at(String::from("r1"), &input, 100);
    // host join (2 parcels), participant join (2 parcels), RoomCreated
    assert_eq!(r.outputs.len(), 5);
    assert!(matches!(r.outputs[2].output, Output::Joined(_)));
    assert_eq!(r.outputs[2].addressing, Addressing::OnlyClient(2));
    // SaveUser x2, SaveRoom, SaveRoomUser x2
    assert_eq!(r.actions.len(), 5);
    match &r.actions[4] {
        Action::SaveRoomUser(m) => assert_eq!(m.username, "Bob"),
        _ => panic!("expected SaveRoomUser"),
    }
}

#[test]
fn create_room_with_taken_id_changes_nothing() {
    let mut reg = RoomStorage::new();
    reg.create_room_at(String::from("r1"), &create_input(1, "Alice", "k"), 100);
    let r = reg.create_room_at(String::from("r1"), &create_input(9, "Mallory", "other"), 200);
    assert_eq!(r.outputs.len(), 1);
    match &r.outputs[0].output {
        Output::Error(e) => assert_eq!(*e, OutputError::RoomNameTaken),
        _ => panic!("expected Error"),
    }
    assert!(r.actions.is_empty());
    // the first room is unchanged: its key still deletes it
    let rm = RemoveRoomInput { room_id: String::from("r1"), delete_key: String::from("k") };
    let r = reg.delete_room(&rm, &None);
    assert!(matches!(r.outputs[0].output, Output::RoomRemoved(_)));
}

#[test]
fn delete_with_wrong_key_keeps_the_room_loadable() {
    let mut reg = RoomStorage::new();
    reg.create_room_at(String::from("r1"), &create_input(1, "Alice", "secret"), 100);
    let rm = RemoveRoomInput { room_id: String::from("r1"), delete_key: String::from("wrong") };
    let r = reg.delete_room(&rm, &None);
    assert_eq!(r.outputs.len(), 1);
    match &r.outputs[0].output {
        Output::Error(e) => assert_eq!(*e, OutputError::RemoveRoomFailed),
        _ => panic!("expected Error"),
    }
    assert!(r.actions.is_empty());
    // still loadable
    let r = reg.load_room(&String::from("r1"), &DispatchCtx::nothing());
    assert!(matches!(r.outputs[0].output, Output::RoomLoaded(_)));
}

#[test]
fn delete_with_correct_key_makes_load_fail() {
    let mut reg = RoomStorage::new();
    reg.create_room_at(String::from("r1"), &create_input(1, "Alice", "secret"), 100);
    let rm = RemoveRoomInput { room_id: String::from("r1"), delete_key: String::from("secret") };
    let r = reg.delete_room(&rm, &None);
    assert_eq!(r.outputs.len(), 1);
    match &r.outputs[0].output {
        Output::RoomRemoved(x) => assert_eq!(x.room_id, "r1"),
        _ => panic!("expected RoomRemoved"),
    }
    assert_eq!(r.actions.len(), 1);
    assert!(matches!(r.actions[0], Action::RemoveRoom { .. }));
    assert!(!reg.room_is_live(&String::from("r1")));
    // a subsequent load, with storage no longer reporting the room, fails
    let r = reg.load_room(&String::from("r1"), &DispatchCtx::nothing());
    assert_eq!(r.outputs.len(), 1);
    match &r.outputs[0].output {
        Output::Error(e) => assert_eq!(*e, OutputError::RoomNotExists),
        _ => panic!("expected Error"),
    }
}

#[test]
fn delete_of_unknown_room_is_rejected() {
    let mut reg = RoomStorage::new();
    let rm = RemoveRoomInput { room_id: String::from("ghost"), delete_key: String::from("k") };
    let r = reg.delete_room(&rm, &None);
    match &r.outputs[0].output {
        Output::Error(e) => assert_eq!(*e, OutputError::RoomNotExists),
        _ => panic!("expected Error"),
    }
}

#[test]
fn load_of_unknown_room_is_rejected() {
    let mut reg = RoomStorage::new();
    let r = reg.load_room(&String::from("ghost"), &DispatchCtx::nothing());
    match &r.outputs[0].output {
        Output::Error(e) => assert_eq!(*e, OutputError::RoomNotExists),
        _ => panic!("expected Error"),
    }
}

#[test]
fn load_caches_the_stored_room_and_seeds_the_hub() {
    let mut reg = RoomStorage::new();
    let stored = chat_core::room::Room::new(
        String::from("r1"),
        String::from("general"),
        1,
        String::from("Alice"),
        None,
        50,
        String::new(),
        String::from("k"),
    );
    let ctx = DispatchCtx {
        repo_exists: true,
        room: Some(stored),
        seed: RoomSeed {
            messages: None,
            host: Some(User::new(1, &String::from("Alice"))),
            participants: None,
        },
    };
    let r = reg.load_room(&String::from("r1"), &ctx);
    match &r.outputs[0].output {
        Output::RoomLoaded(l) => {
            assert_eq!(l.users.len(), 1);
            assert_eq!(l.users[0].name, "Alice");
        },
        _ => panic!("expected RoomLoaded"),
    }
    assert!(reg.room_is_live(&String::from("r1")));
    assert!(reg.hub_is_live(&String::from("r1")));
}

#[test]
fn ping_is_answered_to_the_sender() {
    let mut reg = RoomStorage::new();
    let parcel = InputParcel::new(7, String::from("r1"), Input::Ping);
    let r = reg.process(parcel, &DispatchCtx::nothing());
    assert_eq!(r.outputs.len(), 1);
    assert!(matches!(r.outputs[0].output, Output::Pong));
    assert_eq!(r.outputs[0].addressing, Addressing::OnlyClient(7));
}

#[test]
fn routed_command_without_hub_is_rejected() {
    let mut reg = RoomStorage::new();
    let parcel = InputParcel::new(
        7,
        String::from("ghost"),
        Input::JoinRoom(JoinInput { client_id: 7, name: String::from("Alice") }),
    );
    let r = reg.process(parcel, &DispatchCtx::nothing());
    match &r.outputs[0].output {
        Output::Error(e) => assert_eq!(*e, OutputError::RoomNotExists),
        _ => panic!("expected Error"),
    }
}

#[test]
fn full_session_over_the_dispatch_loop() {
    let h: u128 = 10;
    let u2: u128 = 20;
    let r1 = String::from("r1");
    let mut reg = RoomStorage::new();

    // create room "r1" with host Alice and no participants
    let create = InputParcel::new(
        h,
        r1.clone(),
        Input::CreateRoom(RoomInput {
            room_title: String::from("general"),
            host_id: h,
            host_name: String::from("Alice"),
            participants: None,
            delete_key: String::from("k"),
        }),
    );
    let r = reg.process(create, &DispatchCtx::nothing());
    // Alice is joined as part of creation, and the creation is announced
    let joined_to_host = r.outputs.iter().any(|p| {
        matches!(p.output, Output::Joined(_)) && p.delivers_to(h)
    });
    let created = r.outputs.iter().any(|p| {
        match &p.output {
            Output::RoomCreated(c) => c.room_id == "r1" && p.delivers_to(h),
            _ => false,
        }
    });
    assert!(joined_to_host && created);

    // Alice posts "hi": Posted reaches her, UserPosted reaches nobody
    let post = InputParcel::new(
        h,
        r1.clone(),
        Input::PostMessage(PostInput { client_id: h, body: String::from("hi") }),
    );
    let r = reg.process(post, &DispatchCtx::nothing());
    assert_eq!(r.outputs.len(), 2);
    match &r.outputs[0].output {
        Output::Posted(p) => {
            assert_eq!(p.message.user.name, "Alice");
            assert_eq!(p.message.body, "hi");
        },
        _ => panic!("expected Posted"),
    }
    assert!(r.outputs[0].delivers_to(h));
    assert!(matches!(r.outputs[1].output, Output::UserPosted(_)));
    assert!(!r.outputs[1].delivers_to(h));

    // Bob joins: Joined reaches Bob, UserJoined reaches Alice
    let join = InputParcel::new(
        u2,
        r1.clone(),
        Input::JoinRoom(JoinInput { client_id: u2, name: String::from("Bob") }),
    );
    let r = reg.process(join, &DispatchCtx::nothing());
    assert!(matches!(r.outputs[0].output, Output::Joined(_)));
    assert!(r.outputs[0].delivers_to(u2) && !r.outputs[0].delivers_to(h));
    match &r.outputs[1].output {
        Output::UserJoined(u) => {
            assert_eq!(u.room_id, "r1");
            assert_eq!(u.user.name, "Bob");
        },
        _ => panic!("expected UserJoined"),
    }
    assert!(r.outputs[1].delivers_to(h) && !r.outputs[1].delivers_to(u2));

    // Bob posts: Posted to Bob, UserPosted to Alice
    let post2 = InputParcel::new(
        u2,
        r1.clone(),
        Input::PostMessage(PostInput { client_id: u2, body: String::from("hello") }),
    );
    let r = reg.process(post2, &DispatchCtx::nothing());
    assert!(matches!(r.outputs[0].output, Output::Posted(_)));
    assert!(r.outputs[0].delivers_to(u2));
    match &r.outputs[1].output {
        Output::UserPosted(p) => assert_eq!(p.message.user.name, "Bob"),
        _ => panic!("expected UserPosted"),
    }
    assert!(r.outputs[1].delivers_to(h) && !r.outputs[1].delivers_to(u2));
}

#[test]
fn user_registry_answers_ping_and_load_rooms() {
    let us = UserStorage::new();
    let ping = InputParcel::new(5, String::new(), Input::Ping);
    let r = us.process(&ping, &None);
    assert_eq!(r.len(), 1);
    assert!(matches!(r[0].output, Output::Pong));
    assert_eq!(r[0].addressing, Addressing::OnlyClient(5));

    let entries = vec![
        RoomUser::new(String::from("r1"), String::from("general"), 5, String::from("Alice"), 100),
        RoomUser::new(String::from("r2"), String::from("random"), 5, String::from("Alice"), 200),
    ];
    let load = InputParcel::new(
        5,
        String::new(),
        Input::LoadRooms(chat_core::proto::LoadRoomsInput { user_id: 5 }),
    );
    let r = us.process(&load, &Some(entries));
    assert_eq!(r.len(), 1);
    match &r[0].output {
        Output::RoomsLoaded(l) => {
            assert_eq!(l.rooms.len(), 2);
            assert_eq!(l.rooms[0].room_id, "r1");
            assert_eq!(l.rooms[0].room_title, "general");
            assert_eq!(l.rooms[1].room_id, "r2");
            assert_eq!(l.rooms[1].create_at, 200);
        },
        _ => panic!("expected RoomsLoaded"),
    }

    // a failed lookup reads as no rooms
    let load = InputParcel::new(
        5,
        String::new(),
        Input::LoadRooms(chat_core::proto::LoadRoomsInput { user_id: 5 }),
    );
    let r = us.process(&load, &None);
    match &r[0].output {
        Output::RoomsLoaded(l) => assert!(l.rooms.is_empty()),
        _ => panic!("expected RoomsLoaded"),
    }
}

#[test]
fn create_room_treats_empty_participant_list_as_none() {
    let mut reg = RoomStorage::new();
    let input = RoomInput {
        room_title: String::from("general"),
        host_id: 1,
        host_name: String::from("Alice"),
        participants: Some(vec![]),
        delete_key: String::from("k"),
    };
    let r = reg.create_room_at(String::from("r1"), &input, 100);
    // only the host joins, and the stored room carries no participant list
    assert_eq!(r.outputs.len(), 3);
    match &r.actions[1] {
        Action::SaveRoom(room) => assert!(room.participants.is_none()),
        _ => panic!("expected SaveRoom"),
    }
    assert_eq!(r.actions.len(), 3);
}

#[test]
fn disconnect_routes_into_the_live_hub() {
    let mut reg = RoomStorage::new();
    reg.create_room_at(String::from("r1"), &create_input(1, "Alice", "k"), 100);
    let r = reg.on_disconnect(&String::from("r1"), 1);
    assert_eq!(r.outputs.len(), 1);
    match &r.outputs[0].output {
        Output::UserLeft(u) => assert_eq!(u.user_id, 1),
        _ => panic!("expected UserLeft"),
    }
    // a room without a live hub has nothing to do
    let r = reg.on_disconnect(&String::from("ghost"), 1);
    assert!(r.outputs.is_empty());
}
