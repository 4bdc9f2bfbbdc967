use vstd::prelude::*;
use crate::user::UserV;
use crate::message::MessageV;
use crate::feed::time_sorted;
use crate::hub::{
    HubV, join_step, post_step, feed_add_all, lemma_feed_add_all_sorted, lemma_user_upsert_absent,
    name_taken, has_member, unique_ids, unique_names, MAX_MESSAGE_BODY_LENGTH,
};
use crate::proto::{Addressing, OutputError, OutputV, ParcelV};
use crate::room_storage::{
    StorageV, DispatchCtxV, create_step, delete_step, load_room_step, room_error, room_at,
    has_room, storage_wf, lemma_rooms_remove_at,
};

verus! {

/// A sequence of join commands applied to a hub, left to right. Each
/// command carries the joining client's id and the name as the hub
/// receives it (already trimmed).
pub open spec fn apply_join_cmds(h: HubV, room_id: Seq<char>, cmds: Seq<UserV>) -> HubV
    decreases cmds.len(),
{
    if cmds.len() == 0 {
        h
    } else {
        apply_join_cmds(
            join_step(h, room_id, cmds[0].id, cmds[0].name).hub,
            room_id,
            cmds.drop_first(),
        )
    }
}

/// Joins with fresh, pairwise distinct ids and names all succeed and each
/// adds exactly its member: the membership afterwards is the old members
/// followed by the joined ones, in order.
pub proof fn lemma_join_sequence(h: HubV, room_id: Seq<char>, cmds: Seq<UserV>)
    requires
        unique_ids(h.users),
        unique_names(h.users),
        forall|a: int, b: int| 0 <= a < b < cmds.len() ==> cmds[a].id != cmds[b].id,
        forall|a: int, b: int| 0 <= a < b < cmds.len() ==> cmds[a].name != cmds[b].name,
        forall|a: int, j: int|
            #![trigger cmds[a].id, h.users[j].id]
            0 <= a < cmds.len() && 0 <= j < h.users.len() ==> cmds[a].id != h.users[j].id,
        forall|a: int, j: int|
            #![trigger cmds[a].name, h.users[j].name]
            0 <= a < cmds.len() && 0 <= j < h.users.len() ==> cmds[a].name != h.users[j].name,
    ensures
        apply_join_cmds(h, room_id, cmds).users =~= h.users + cmds,
        apply_join_cmds(h, room_id, cmds).feed == h.feed,
    decreases cmds.len(),
{
    if cmds.len() == 0 {
        assert(h.users + cmds =~= h.users);
    } else {
        let c = cmds[0];
        assert(!name_taken(h.users, c.name)) by {
            if name_taken(h.users, c.name) {
                let j = choose|j: int| 0 <= j < h.users.len() && h.users[j].name == c.name;
                assert(cmds[0].name != h.users[j].name);
            }
        }
        lemma_user_upsert_absent(h.users, c);
        let h1 = join_step(h, room_id, c.id, c.name).hub;
        assert(h1.users =~= h.users.push(c));
        let rest = cmds.drop_first();
        assert forall|a: int, b: int| 0 <= a < b < rest.len() implies rest[a].id != rest[b].id by {
            assert(rest[a] == cmds[a + 1]);
            assert(rest[b] == cmds[b + 1]);
        }
        assert forall|a: int, b: int|
            0 <= a < b < rest.len() implies rest[a].name != rest[b].name by {
            assert(rest[a] == cmds[a + 1]);
            assert(rest[b] == cmds[b + 1]);
        }
        assert forall|a: int, j: int|
            #![trigger rest[a].id, h1.users[j].id]
            0 <= a < rest.len() && 0 <= j < h1.users.len() implies rest[a].id
            != h1.users[j].id by {
            assert(rest[a] == cmds[a + 1]);
            if j < h.users.len() {
                assert(h1.users[j] == h.users[j]);
            } else {
                assert(h1.users[j] == c);
            }
        }
        assert forall|a: int, j: int|
            #![trigger rest[a].name, h1.users[j].name]
            0 <= a < rest.len() && 0 <= j < h1.users.len() implies rest[a].name
            != h1.users[j].name by {
            assert(rest[a] == cmds[a + 1]);
            if j < h.users.len() {
                assert(h1.users[j] == h.users[j]);
            } else {
                assert(h1.users[j] == c);
            }
        }
        assert forall|a: int, b: int|
            0 <= a < b < h1.users.len() implies h1.users[a].id != h1.users[b].id by {
            assert(h1.users[a] == h.users[a]);
            if b < h.users.len() {
                assert(h1.users[b] == h.users[b]);
            } else {
                assert(h1.users[b] == c);
            }
        }
        assert forall|a: int, b: int|
            0 <= a < b < h1.users.len() implies h1.users[a].name != h1.users[b].name by {
            assert(h1.users[a] == h.users[a]);
            if b < h.users.len() {
                assert(h1.users[b] == h.users[b]);
            } else {
                assert(h1.users[b] == c);
            }
        }
        lemma_join_sequence(h1, room_id, rest);
        assert(h1.users + rest =~= h.users + cmds);
    }
}

/// Into an empty room, joins with pairwise distinct ids and names leave a
/// membership of exactly those users: its size equals the number of joins,
/// and no two members share an id or a name.
pub proof fn lemma_join_sequence_from_empty(room_id: Seq<char>, cmds: Seq<UserV>)
    requires
        forall|a: int, b: int| 0 <= a < b < cmds.len() ==> cmds[a].id != cmds[b].id,
        forall|a: int, b: int| 0 <= a < b < cmds.len() ==> cmds[a].name != cmds[b].name,
    ensures
        apply_join_cmds(HubV::empty(), room_id, cmds).users =~= cmds,
        apply_join_cmds(HubV::empty(), room_id, cmds).users.len() == cmds.len(),
        unique_ids(apply_join_cmds(HubV::empty(), room_id, cmds).users),
        unique_names(apply_join_cmds(HubV::empty(), room_id, cmds).users),
{
    lemma_join_sequence(HubV::empty(), room_id, cmds);
    assert(Seq::<UserV>::empty() + cmds =~= cmds);
}

/// Joining under a name a member already carries is always rejected with
/// `UserNameTaken`, targeted at the joiner, and the hub does not change.
pub proof fn lemma_join_name_taken(h: HubV, room_id: Seq<char>, client_id: u128, name: Seq<char>)
    requires
        name_taken(h.users, name),
    ensures
        join_step(h, room_id, client_id, name).hub == h,
        join_step(h, room_id, client_id, name).outputs =~= seq![
            ParcelV {
                room_id,
                addressing: Addressing::OnlyClient(client_id),
                output: OutputV::Error(OutputError::UserNameTaken),
            },
        ],
        join_step(h, room_id, client_id, name).actions =~= Seq::empty(),
{
}

/// A feed built by any sequence of `add` calls from an empty feed reads
/// back in non-decreasing timestamp order.
pub proof fn lemma_feed_sorted_from_adds(msgs: Seq<MessageV>)
    ensures
        time_sorted(feed_add_all(Seq::empty(), msgs)),
{
    lemma_feed_add_all_sorted(Seq::empty(), msgs);
}

/// A post from a client who is no member is always rejected with
/// `UserNotJoined`, targeted at the sender, and neither membership nor
/// feed changes.
pub proof fn lemma_post_non_member(
    h: HubV,
    room_id: Seq<char>,
    client_id: u128,
    body: Seq<char>,
    msg_id: u128,
    now: i64,
)
    requires
        !has_member(h.users, client_id),
    ensures
        post_step(h, room_id, client_id, body, msg_id, now).hub == h,
        post_step(h, room_id, client_id, body, msg_id, now).outputs =~= seq![
            ParcelV {
                room_id,
                addressing: Addressing::OnlyClient(client_id),
                output: OutputV::Error(OutputError::UserNotJoined),
            },
        ],
        post_step(h, room_id, client_id, body, msg_id, now).actions =~= Seq::empty(),
{
}

/// A member's post with an empty body, or one beyond the length bound, is
/// always rejected with `InvalidMessageBody`, and neither membership nor
/// feed changes. (A non-member is rejected as `UserNotJoined` first.)
pub proof fn lemma_post_invalid_body(
    h: HubV,
    room_id: Seq<char>,
    client_id: u128,
    body: Seq<char>,
    msg_id: u128,
    now: i64,
)
    requires
        has_member(h.users, client_id),
        body.len() == 0 || body.len() > MAX_MESSAGE_BODY_LENGTH,
    ensures
        post_step(h, room_id, client_id, body, msg_id, now).hub == h,
        post_step(h, room_id, client_id, body, msg_id, now).outputs =~= seq![
            ParcelV {
                room_id,
                addressing: Addressing::OnlyClient(client_id),
                output: OutputV::Error(OutputError::InvalidMessageBody),
            },
        ],
        post_step(h, room_id, client_id, body, msg_id, now).actions =~= Seq::empty(),
{
}

/// Creating a room under an id that is already present is always rejected
/// with `RoomNameTaken`, and the registry — the existing room's record
/// included — does not change at all.
pub proof fn lemma_create_room_taken(
    s: StorageV,
    room_id: Seq<char>,
    input: crate::proto::RoomInputV,
    now: i64,
)
    requires
        has_room(s.rooms, room_id),
    ensures
        create_step(s, room_id, input, now).storage == s,
        create_step(s, room_id, input, now).outputs =~= seq![
            room_error(room_id, OutputError::RoomNameTaken),
        ],
        create_step(s, room_id, input, now).actions =~= Seq::empty(),
{
}

/// Deleting with the correct key removes the room: it is no longer live,
/// and once the repository no longer reports it, a subsequent `LoadRoom`
/// on the same id yields `Error{RoomNotExists}` and changes nothing.
pub proof fn lemma_delete_then_load(
    s: StorageV,
    room_id: Seq<char>,
    key: Seq<char>,
    fetched: Option<crate::room::RoomV>,
    ctx: DispatchCtxV,
)
    requires
        storage_wf(s),
        has_room(s.rooms, room_id),
        room_at(s.rooms, room_id).delete_key == key,
        !ctx.repo_exists,
    ensures
        ({
            let s1 = delete_step(s, room_id, key, fetched).storage;
            &&& !has_room(s1.rooms, room_id)
            &&& load_room_step(s1, room_id, ctx).storage == s1
            &&& load_room_step(s1, room_id, ctx).outputs =~= seq![
                room_error(room_id, OutputError::RoomNotExists),
            ]
        }),
{
    let s1 = delete_step(s, room_id, key, fetched).storage;
    let i = choose|i: int| 0 <= i < s.rooms.len() && s.rooms[i].room_id == room_id;
    assert forall|j: int| 0 <= j < i implies s.rooms[j].room_id != room_id by {
        if s.rooms[j].room_id == room_id {
            assert(s.rooms[j].room_id != s.rooms[i].room_id);
        }
    }
    lemma_rooms_remove_at(s.rooms, room_id, i);
    assert(s1.rooms =~= s.rooms.remove(i));
    assert forall|k: int| 0 <= k < s1.rooms.len() implies s1.rooms[k].room_id != room_id by {
        if k < i {
            assert(s1.rooms[k] == s.rooms[k]);
        } else {
            assert(s1.rooms[k] == s.rooms[k + 1]);
        }
    }
    if has_room(s1.rooms, room_id) {
        let k = choose|k: int| 0 <= k < s1.rooms.len() && s1.rooms[k].room_id == room_id;
        assert(false);
    }
}

/// Deleting with a wrong key is rejected with `RemoveRoomFailed`, nothing
/// changes, and the room stays loadable: a subsequent `LoadRoom` on the
/// same id does not yield `Error{RoomNotExists}`.
pub proof fn lemma_delete_wrong_key(
    s: StorageV,
    room_id: Seq<char>,
    key: Seq<char>,
    fetched: Option<crate::room::RoomV>,
    ctx: DispatchCtxV,
)
    requires
        has_room(s.rooms, room_id),
        room_at(s.rooms, room_id).delete_key != key,
    ensures
        delete_step(s, room_id, key, fetched).storage == s,
        delete_step(s, room_id, key, fetched).outputs =~= seq![
            room_error(room_id, OutputError::RemoveRoomFailed),
        ],
        delete_step(s, room_id, key, fetched).actions =~= Seq::empty(),
        load_room_step(s, room_id, ctx).outputs[0].output != OutputV::Error(
            OutputError::RoomNotExists,
        ),
{
}

} // verus!
