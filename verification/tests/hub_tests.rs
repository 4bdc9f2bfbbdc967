use chat_core::feed::Feed;
use chat_core::hub::{Hub, RoomSeed};
use chat_core::message::Message;
use chat_core::proto::{Addressing, Input, InputParcel, JoinInput, Output, OutputError, PostInput};
use chat_core::user::User;

fn room() -> String {
    String::from("r1")
}

fn join(hub: &mut Hub, id: u128, name: &str) -> Vec<chat_core::proto::OutputParcel> {
    let input = JoinInput { client_id: id, name: String::from(name) };
    hub.process_join(&room(), id, &input).outputs
}

#[test]
fn feed_keeps_time_order() {
    let mut feed = Feed::new();
    assert!(feed.is_empty());
    let alice = User::new(1, &String::from("Alice"));
    feed.add_message(Message::new_create_at(10, alice.duplicate(), &String::from("third"), 30));
    feed.add_message(Message::new_create_at(11, alice.duplicate(), &String::from("first"), 10));
    feed.add_message(Message::new_create_at(12, alice.duplicate(), &String::from("second"), 20));
    let msgs = feed.messages_iter();
    assert!(!feed.is_empty());
    assert_eq!(msgs.len(), 3);
    assert_eq!(msgs[0].body, "first");
    assert_eq!(msgs[1].body, "second");
    assert_eq!(msgs[2].body, "third");
    assert!(msgs[0].created_at <= msgs[1].created_at && msgs[1].created_at <= msgs[2].created_at);
}

#[test]
fn feed_breaks_ties_by_arrival() {
    let mut feed = Feed::new();
    let alice = User::new(1, &String::from("Alice"));
    feed.add_message(Message::new_create_at(1, alice.duplicate(), &String::from("earlier"), 20));
    feed.add_message(Message::new_create_at(2, alice.duplicate(), &String::from("later"), 20));
    let msgs = feed.messages_iter();
    assert_eq!(msgs[0].body, "earlier");
    assert_eq!(msgs[1].body, "later");
}

#[test]
fn join_reports_self_others_and_feed() {
    let mut hub = Hub::new();
    let first = join(&mut hub, 1, "Alice");
    assert_eq!(first.len(), 2);
    match &first[0].output {
        Output::Joined(j) => {
            assert_eq!(j.user.id, 1);
            assert_eq!(j.user.name, "Alice");
            assert!(j.others.is_empty());
            assert!(j.messages.is_empty());
        },
        _ => panic!("expected Joined"),
    }
    assert_eq!(first[0].addressing, Addressing::OnlyClient(1));
    match &first[1].output {
        Output::UserJoined(u) => {
            assert_eq!(u.room_id, "r1");
            assert_eq!(u.user.name, "Alice");
        },
        _ => panic!("expected UserJoined"),
    }
    assert_eq!(first[1].addressing, Addressing::AllExceptClient(1));

    let second = join(&mut hub, 2, "Bob");
    match &second[0].output {
        Output::Joined(j) => {
            assert_eq!(j.others.len(), 1);
            assert_eq!(j.others[0].name, "Alice");
        },
        _ => panic!("expected Joined"),
    }
    assert_eq!(hub.members().len(), 2);
}

#[test]
fn join_trims_the_requested_name() {
    let mut hub = Hub::new();
    join(&mut hub, 1, "  Alice  ");
    assert_eq!(hub.members()[0].name, "Alice");
    // a collision with the trimmed form is rejected
    let out = join(&mut hub, 2, "Alice");
    assert_eq!(out.len(), 1);
    match &out[0].output {
        Output::Error(e) => assert_eq!(*e, OutputError::UserNameTaken),
        _ => panic!("expected Error"),
    }
}

#[test]
fn join_name_taken_leaves_membership_unchanged() {
    let mut hub = Hub::new();
    join(&mut hub, 1, "Alice");
    let out = join(&mut hub, 2, "Alice");
    assert_eq!(out.len(), 1);
    match &out[0].output {
        Output::Error(e) => assert_eq!(*e, OutputError::UserNameTaken),
        _ => panic!("expected Error"),
    }
    assert_eq!(out[0].addressing, Addressing::OnlyClient(2));
    assert_eq!(hub.members().len(), 1);
    assert_eq!(hub.members()[0].id, 1);
    assert!(!hub.is_member(2));
}

#[test]
fn post_by_non_member_is_rejected_and_feed_untouched() {
    let mut hub = Hub::new();
    join(&mut hub, 1, "Alice");
    let input = PostInput { client_id: 9, body: String::from("hello") };
    let r = hub.process_post(&room(), 9, &input);
    assert_eq!(r.outputs.len(), 1);
    match &r.outputs[0].output {
        Output::Error(e) => assert_eq!(*e, OutputError::UserNotJoined),
        _ => panic!("expected Error"),
    }
    assert!(r.actions.is_empty());
    assert!(hub.feed_is_empty());
}

#[test]
fn post_with_empty_body_is_rejected() {
    let mut hub = Hub::new();
    join(&mut hub, 1, "Alice");
    let input = PostInput { client_id: 1, body: String::new() };
    let r = hub.process_post(&room(), 1, &input);
    match &r.outputs[0].output {
        Output::Error(e) => assert_eq!(*e, OutputError::InvalidMessageBody),
        _ => panic!("expected Error"),
    }
    assert!(hub.feed_is_empty());
}

#[test]
fn post_with_overlong_body_is_rejected() {
    let mut hub = Hub::new();
    join(&mut hub, 1, "Alice");
    let long = "a".repeat(257);
    let input = PostInput { client_id: 1, body: long };
    let r = hub.process_post(&room(), 1, &input);
    match &r.outputs[0].output {
        Output::Error(e) => assert_eq!(*e, OutputError::InvalidMessageBody),
        _ => panic!("expected Error"),
    }
    assert!(hub.feed_is_empty());

    // 256 code points are still fine
    let edge = "b".repeat(256);
    let input = PostInput { client_id: 1, body: edge };
    let r = hub.process_post(&room(), 1, &input);
    assert!(matches!(r.outputs[0].output, Output::Posted(_)));
    assert!(!hub.feed_is_empty());
}

#[test]
fn post_at_builds_the_exact_message() {
    let mut hub = Hub::new();
    join(&mut hub, 1, "Alice");
    let r = hub.post_at(&room(), 1, &String::from("hi"), 77, 1234);
    assert_eq!(r.outputs.len(), 2);
    match &r.outputs[0].output {
        Output::Posted(p) => {
            assert_eq!(p.message.id, 77);
            assert_eq!(p.message.user.id, 1);
            assert_eq!(p.message.user.name, "Alice");
            assert_eq!(p.message.body, "hi");
            assert_eq!(p.message.created_at, 1234);
        },
        _ => panic!("expected Posted"),
    }
    assert_eq!(r.outputs[0].addressing, Addressing::OnlyClient(1));
    match &r.outputs[1].output {
        Output::UserPosted(p) => assert_eq!(p.message.body, "hi"),
        _ => panic!("expected UserPosted"),
    }
    assert_eq!(r.outputs[1].addressing, Addressing::AllExceptClient(1));
    assert_eq!(r.actions.len(), 1);
}

#[test]
fn disconnect_removes_member_and_tells_the_rest() {
    let mut hub = Hub::new();
    join(&mut hub, 1, "Alice");
    join(&mut hub, 2, "Bob");
    let r = hub.on_disconnect(&room(), 1);
    assert_eq!(r.outputs.len(), 1);
    match &r.outputs[0].output {
        Output::UserLeft(u) => {
            assert_eq!(u.room_id, "r1");
            assert_eq!(u.user_id, 1);
        },
        _ => panic!("expected UserLeft"),
    }
    assert_eq!(r.outputs[0].addressing, Addressing::AllExceptClient(1));
    assert_eq!(hub.members().len(), 1);

    // a client that never joined leaves no trace
    let r = hub.on_disconnect(&room(), 99);
    assert!(r.outputs.is_empty());
    assert_eq!(hub.members().len(), 1);
}

#[test]
fn load_without_stored_host_reports_host_missing() {
    let mut hub = Hub::new();
    let r = hub.process_load(&room(), &RoomSeed::nothing());
    assert_eq!(r.outputs.len(), 1);
    match &r.outputs[0].output {
        Output::Error(e) => assert_eq!(*e, OutputError::HostUserNotExists),
        _ => panic!("expected Error"),
    }
    assert_eq!(r.outputs[0].addressing, Addressing::Room);
}

#[test]
fn load_seeds_membership_and_feed_from_storage() {
    let mut hub = Hub::new();
    let host = User::new(1, &String::from("Alice"));
    let bob = User::new(2, &String::from("Bob"));
    let m1 = Message::new_create_at(5, host.duplicate(), &String::from("late"), 50);
    let m2 = Message::new_create_at(6, bob.duplicate(), &String::from("early"), 10);
    let seed = RoomSeed {
        messages: Some(vec![m1, m2]),
        host: Some(host),
        participants: Some(vec![bob]),
    };
    let r = hub.process_load(&room(), &seed);
    assert_eq!(r.outputs.len(), 1);
    match &r.outputs[0].output {
        Output::RoomLoaded(l) => {
            assert_eq!(l.users.len(), 2);
            assert_eq!(l.users[0].name, "Alice");
            assert_eq!(l.users[1].name, "Bob");
            assert_eq!(l.recent_messages.len(), 2);
            assert_eq!(l.recent_messages[0].body, "early");
            assert_eq!(l.recent_messages[1].body, "late");
        },
        _ => panic!("expected RoomLoaded"),
    }
    assert_eq!(r.outputs[0].addressing, Addressing::Room);

    // a second load does not seed again
    let r = hub.process_load(&room(), &RoomSeed::nothing());
    assert!(matches!(r.outputs[0].output, Output::RoomLoaded(_)));
    assert_eq!(hub.members().len(), 2);
}

#[test]
fn delivery_follows_the_addressing() {
    let mut hub = Hub::new();
    join(&mut hub, 1, "Alice");
    let r = hub.post_at(&room(), 1, &String::from("hi"), 7, 1);
    // the Posted parcel goes to the author alone
    assert!(r.outputs[0].delivers_to(1));
    assert!(!r.outputs[0].delivers_to(2));
    // the UserPosted parcel goes to everyone but the author
    assert!(!r.outputs[1].delivers_to(1));
    assert!(r.outputs[1].delivers_to(2));
}

#[test]
fn hub_process_dispatches_by_command_kind() {
    let mut hub = Hub::new();
    let parcel = InputParcel::new(
        1,
        room(),
        Input::JoinRoom(JoinInput { client_id: 1, name: String::from("Alice") }),
    );
    let r = hub.process(&parcel, &RoomSeed::nothing());
    assert!(matches!(r.outputs[0].output, Output::Joined(_)));
    assert!(hub.is_member(1));

    let parcel = InputParcel::new(
        1,
        room(),
        Input::PostMessage(PostInput { client_id: 1, body: String::from("hi") }),
    );
    let r = hub.process(&parcel, &RoomSeed::nothing());
    assert!(matches!(r.outputs[0].output, Output::Posted(_)));

    let parcel = InputParcel::new(1, room(), Input::LoadRoom);
    let r = hub.process(&parcel, &RoomSeed::nothing());
    match &r.outputs[0].output {
        Output::RoomLoaded(l) => {
            assert_eq!(l.users.len(), 1);
            assert_eq!(l.recent_messages.len(), 1);
        },
        _ => panic!("expected RoomLoaded"),
    }

    let parcel = InputParcel::new(1, room(), Input::Ping);
    let r = hub.process(&parcel, &RoomSeed::nothing());
    assert!(matches!(r.outputs[0].output, Output::Pong));
    assert_eq!(r.outputs[0].addressing, Addressing::OnlyClient(1));
}

#[test]
fn message_new_fills_author_and_body() {
    let alice = User::new(3, &String::from("Alice"));
    let m = Message::new(alice, &String::from("hey"));
    assert_eq!(m.author.id, 3);
    assert_eq!(m.author.name, "Alice");
    assert_eq!(m.body, "hey");
}
