use vstd::prelude::*;
use crate::user::{User, UserV};
use crate::message::{Message, MessageV};
use crate::feed::{Feed, feed_add, time_sorted, lemma_feed_add_sorted};
use crate::proto::{
    Action, ActionV, Addressing, Input, InputParcel, JoinInput, JoinedOutput, Output, OutputError,
    OutputParcel, OutputV, ParcelV, PostInput, PostedOutput, RoomLoadedOutput, UserJoinedOutput,
    UserLeftOutput, UserOutput, MessageOutput, UserPostedOutput, parcel_vec0, parcel_vec1,
    parcel_vec2, action_vec0, action_vec1, append_parcels, append_actions,
};
use crate::outside::{trimmed, trim_str, fresh_id, now_millis};

verus! {

/// Longest accepted message body, in code points.
pub const MAX_MESSAGE_BODY_LENGTH: usize = 256;

/// Ghost model of a hub: the live membership and the feed of one room.
#[verifier::ext_equal]
pub struct HubV {
    pub users: Seq<UserV>,
    pub feed: Seq<MessageV>,
}

impl HubV {
    pub open spec fn empty() -> HubV {
        HubV { users: Seq::empty(), feed: Seq::empty() }
    }
}

/// No two members share an id.
pub open spec fn unique_ids(users: Seq<UserV>) -> bool {
    forall|i: int, j: int| 0 <= i < j < users.len() ==> users[i].id != users[j].id
}

/// No two members share a name.
pub open spec fn unique_names(users: Seq<UserV>) -> bool {
    forall|i: int, j: int| 0 <= i < j < users.len() ==> users[i].name != users[j].name
}

/// Some member carries this name.
pub open spec fn name_taken(users: Seq<UserV>, name: Seq<char>) -> bool {
    exists|i: int| 0 <= i < users.len() && users[i].name == name
}

/// Some member carries this id.
pub open spec fn has_member(users: Seq<UserV>, id: u128) -> bool {
    exists|i: int| 0 <= i < users.len() && users[i].id == id
}

/// The member carrying this id (meaningful when present and ids are unique).
pub open spec fn member_of(users: Seq<UserV>, id: u128) -> UserV {
    users[choose|i: int| 0 <= i < users.len() && users[i].id == id]
}

/// Insertion keyed by id: replaces the entry with the same id in place, or
/// appends a new entry at the end.
pub open spec fn user_upsert(users: Seq<UserV>, u: UserV) -> Seq<UserV>
    decreases users.len(),
{
    if users.len() == 0 {
        seq![u]
    } else if users[0].id == u.id {
        seq![u] + users.drop_first()
    } else {
        seq![users[0]] + user_upsert(users.drop_first(), u)
    }
}

/// Removal keyed by id: drops the first entry with the id, if any.
pub open spec fn user_remove(users: Seq<UserV>, id: u128) -> Seq<UserV>
    decreases users.len(),
{
    if users.len() == 0 {
        users
    } else if users[0].id == id {
        users.drop_first()
    } else {
        seq![users[0]] + user_remove(users.drop_first(), id)
    }
}

/// The members other than the given client, in order.
pub open spec fn others_of(users: Seq<UserV>, id: u128) -> Seq<UserV>
    decreases users.len(),
{
    if users.len() == 0 {
        users
    } else if users.last().id == id {
        others_of(users.drop_last(), id)
    } else {
        others_of(users.drop_last(), id).push(users.last())
    }
}

/// Upserts applied left to right.
pub open spec fn upsert_all(users: Seq<UserV>, toadd: Seq<UserV>) -> Seq<UserV>
    decreases toadd.len(),
{
    if toadd.len() == 0 {
        users
    } else {
        user_upsert(upsert_all(users, toadd.drop_last()), toadd.last())
    }
}

/// Feed insertions applied left to right.
pub open spec fn feed_add_all(feed: Seq<MessageV>, msgs: Seq<MessageV>) -> Seq<MessageV>
    decreases msgs.len(),
{
    if msgs.len() == 0 {
        feed
    } else {
        feed_add(feed_add_all(feed, msgs.drop_last()), msgs.last())
    }
}

pub proof fn lemma_user_upsert_at(s: Seq<UserV>, u: UserV, i: int)
    requires
        0 <= i < s.len(),
        s[i].id == u.id,
        forall|j: int| 0 <= j < i ==> s[j].id != u.id,
    ensures
        user_upsert(s, u) =~= s.update(i, u),
    decreases s.len(),
{
    if i == 0 {
        assert(seq![u] + s.drop_first() =~= s.update(0, u));
    } else {
        lemma_user_upsert_at(s.drop_first(), u, i - 1);
        assert(s.drop_first().update(i - 1, u) =~= s.update(i, u).drop_first());
        assert(seq![s[0]] + user_upsert(s.drop_first(), u) =~= s.update(i, u));
    }
}

pub proof fn lemma_user_upsert_absent(s: Seq<UserV>, u: UserV)
    requires
        forall|j: int| 0 <= j < s.len() ==> s[j].id != u.id,
    ensures
        user_upsert(s, u) =~= s.push(u),
    decreases s.len(),
{
    if s.len() == 0 {
        assert(seq![u] =~= s.push(u));
    } else {
        lemma_user_upsert_absent(s.drop_first(), u);
        assert(seq![s[0]] + s.drop_first().push(u) =~= s.push(u));
    }
}

pub proof fn lemma_user_upsert_unique(s: Seq<UserV>, u: UserV)
    requires
        unique_ids(s),
    ensures
        unique_ids(user_upsert(s, u)),
    decreases s.len(),
{
    if s.len() == 0 {
    } else if s[0].id == u.id {
        let r = seq![u] + s.drop_first();
        assert forall|i: int, j: int| 0 <= i < j < r.len() implies r[i].id != r[j].id by {
            if i > 0 {
                assert(r[i] == s[i]);
            }
            assert(r[j] == s[j]);
        }
    } else {
        lemma_user_upsert_unique(s.drop_first(), u);
        lemma_user_upsert_ids(s.drop_first(), u);
        let t = user_upsert(s.drop_first(), u);
        let r = seq![s[0]] + t;
        assert forall|i: int, j: int| 0 <= i < j < r.len() implies r[i].id != r[j].id by {
            if i > 0 {
                assert(r[i] == t[i - 1]);
            }
            assert(r[j] == t[j - 1]);
            if i == 0 {
                assert(t[j - 1].id == u.id || has_id_of(s.drop_first(), t[j - 1].id));
            }
        }
    }
}

/// Every id after an upsert is either the new id or one already present.
pub open spec fn has_id_of(s: Seq<UserV>, id: u128) -> bool {
    exists|i: int| 0 <= i < s.len() && s[i].id == id
}

pub proof fn lemma_user_upsert_ids(s: Seq<UserV>, u: UserV)
    ensures
        forall|k: int|
            0 <= k < user_upsert(s, u).len() ==> (#[trigger] user_upsert(s, u)[k].id == u.id
                || has_id_of(s, user_upsert(s, u)[k].id)),
    decreases s.len(),
{
    if s.len() == 0 {
    } else if s[0].id == u.id {
        let r = seq![u] + s.drop_first();
        assert forall|k: int| 0 <= k < r.len() implies (r[k].id == u.id || has_id_of(
            s,
            r[k].id,
        )) by {
            if k > 0 {
                assert(r[k] == s[k]);
            }
        }
    } else {
        lemma_user_upsert_ids(s.drop_first(), u);
        let t = user_upsert(s.drop_first(), u);
        let r = seq![s[0]] + t;
        assert forall|k: int| 0 <= k < r.len() implies (r[k].id == u.id || has_id_of(
            s,
            r[k].id,
        )) by {
            if k > 0 {
                assert(t[k - 1].id == u.id || has_id_of(s.drop_first(), t[k - 1].id));
                if has_id_of(s.drop_first(), t[k - 1].id) {
                    let i = choose|i: int|
                        0 <= i < s.drop_first().len() && s.drop_first()[i].id == t[k - 1].id;
                    assert(s[i + 1].id == t[k - 1].id);
                }
            }
        }
    }
}

pub proof fn lemma_user_remove_at(s: Seq<UserV>, id: u128, i: int)
    requires
        0 <= i < s.len(),
        s[i].id == id,
        forall|j: int| 0 <= j < i ==> s[j].id != id,
    ensures
        user_remove(s, id) =~= s.remove(i),
    decreases s.len(),
{
    if i == 0 {
        assert(s.drop_first() =~= s.remove(0));
    } else {
        lemma_user_remove_at(s.drop_first(), id, i - 1);
        assert(s.drop_first().remove(i - 1) =~= s.remove(i).drop_first());
        assert(seq![s[0]] + user_remove(s.drop_first(), id) =~= s.remove(i));
    }
}

pub proof fn lemma_user_remove_absent(s: Seq<UserV>, id: u128)
    requires
        forall|j: int| 0 <= j < s.len() ==> s[j].id != id,
    ensures
        user_remove(s, id) =~= s,
    decreases s.len(),
{
    if s.len() == 0 {
    } else {
        lemma_user_remove_absent(s.drop_first(), id);
        assert(seq![s[0]] + s.drop_first() =~= s);
    }
}

pub proof fn lemma_upsert_all_unique(s: Seq<UserV>, toadd: Seq<UserV>)
    requires
        unique_ids(s),
    ensures
        unique_ids(upsert_all(s, toadd)),
    decreases toadd.len(),
{
    if toadd.len() > 0 {
        lemma_upsert_all_unique(s, toadd.drop_last());
        lemma_user_upsert_unique(upsert_all(s, toadd.drop_last()), toadd.last());
    }
}

pub proof fn lemma_feed_add_all_sorted(feed: Seq<MessageV>, msgs: Seq<MessageV>)
    requires
        time_sorted(feed),
    ensures
        time_sorted(feed_add_all(feed, msgs)),
    decreases msgs.len(),
{
    if msgs.len() > 0 {
        lemma_feed_add_all_sorted(feed, msgs.drop_last());
        lemma_feed_add_sorted(feed_add_all(feed, msgs.drop_last()), msgs.last());
    }
}

/// Well-formedness of a hub model: ids are unique and the feed is
/// time-ordered.
pub open spec fn hubv_wf(h: HubV) -> bool {
    unique_ids(h.users) && time_sorted(h.feed)
}

/// The result of one hub transition: the events to publish and the
/// persistence requests to hand to the repository layer.
pub struct HubResult {
    pub outputs: Vec<OutputParcel>,
    pub actions: Vec<Action>,
}

/// Ghost model of one hub transition.
#[verifier::ext_equal]
pub struct HubStep {
    pub hub: HubV,
    pub outputs: Seq<ParcelV>,
    pub actions: Seq<ActionV>,
}

/// What repository lookups feed a `LoadRoom`: the recent page of messages,
/// the room's host, and its declared participants. `None` means the lookup
/// failed or found nothing; the hub then works with what it has.
pub struct RoomSeed {
    pub messages: Option<Vec<Message>>,
    pub host: Option<User>,
    pub participants: Option<Vec<User>>,
}

#[verifier::ext_equal]
pub struct RoomSeedV {
    pub messages: Option<Seq<MessageV>>,
    pub host: Option<UserV>,
    pub participants: Option<Seq<UserV>>,
}

impl View for RoomSeed {
    type V = RoomSeedV;

    open spec fn view(&self) -> RoomSeedV {
        RoomSeedV {
            messages: self.messages.deep_view(),
            host: self.host.deep_view(),
            participants: self.participants.deep_view(),
        }
    }
}

impl RoomSeed {
    /// A seed with no repository data at all.
    pub fn nothing() -> (s: RoomSeed)
        ensures
            s@ == (RoomSeedV { messages: None, host: None, participants: None }),
    {
        RoomSeed { messages: None, host: None, participants: None }
    }
}

/// `JoinRoom`: rejected if the (already trimmed) name is taken, otherwise
/// the user enters, learns about the others and the feed, the others learn
/// about the user, and the user record is persisted.
pub open spec fn join_step(h: HubV, room_id: Seq<char>, client_id: u128, name: Seq<char>) -> HubStep {
    if name_taken(h.users, name) {
        HubStep {
            hub: h,
            outputs: seq![
                ParcelV {
                    room_id,
                    addressing: Addressing::OnlyClient(client_id),
                    output: OutputV::Error(OutputError::UserNameTaken),
                },
            ],
            actions: seq![],
        }
    } else {
        let u = UserV { id: client_id, name };
        let users2 = user_upsert(h.users, u);
        HubStep {
            hub: HubV { users: users2, feed: h.feed },
            outputs: seq![
                ParcelV {
                    room_id,
                    addressing: Addressing::OnlyClient(client_id),
                    output: OutputV::Joined {
                        user: u,
                        others: others_of(users2, client_id),
                        messages: h.feed,
                    },
                },
                ParcelV {
                    room_id,
                    addressing: Addressing::AllExceptClient(client_id),
                    output: OutputV::UserJoined { room_id, user: u },
                },
            ],
            actions: seq![ActionV::SaveUser(u)],
        }
    }
}

/// A sequence of `JoinRoom` commands fed through one hub, left to right:
/// one per invited user, each trimming the invited name.
pub open spec fn join_all(h: HubV, room_id: Seq<char>, users: Seq<UserV>) -> HubStep
    decreases users.len(),
{
    if users.len() == 0 {
        HubStep { hub: h, outputs: Seq::empty(), actions: Seq::empty() }
    } else {
        let prev = join_all(h, room_id, users.drop_last());
        let last = join_step(prev.hub, room_id, users.last().id, trimmed(users.last().name));
        HubStep {
            hub: last.hub,
            outputs: prev.outputs + last.outputs,
            actions: prev.actions + last.actions,
        }
    }
}

/// `PostMessage`: rejected if the sender is no member or the body is empty
/// or too long; otherwise the message enters the feed at its timestamp
/// position, the author gets `Posted`, everyone else `UserPosted`, and the
/// message is persisted.
pub open spec fn post_step(
    h: HubV,
    room_id: Seq<char>,
    client_id: u128,
    body: Seq<char>,
    msg_id: u128,
    now: i64,
) -> HubStep {
    if !has_member(h.users, client_id) {
        HubStep {
            hub: h,
            outputs: seq![
                ParcelV {
                    room_id,
                    addressing: Addressing::OnlyClient(client_id),
                    output: OutputV::Error(OutputError::UserNotJoined),
                },
            ],
            actions: seq![],
        }
    } else if body.len() == 0 || body.len() > MAX_MESSAGE_BODY_LENGTH {
        HubStep {
            hub: h,
            outputs: seq![
                ParcelV {
                    room_id,
                    addressing: Addressing::OnlyClient(client_id),
                    output: OutputV::Error(OutputError::InvalidMessageBody),
                },
            ],
            actions: seq![],
        }
    } else {
        let m = MessageV {
            id: msg_id,
            author: member_of(h.users, client_id),
            body,
            created_at: now,
        };
        HubStep {
            hub: HubV { users: h.users, feed: feed_add(h.feed, m) },
            outputs: seq![
                ParcelV {
                    room_id,
                    addressing: Addressing::OnlyClient(client_id),
                    output: OutputV::Posted { message: m },
                },
                ParcelV {
                    room_id,
                    addressing: Addressing::AllExceptClient(client_id),
                    output: OutputV::UserPosted { message: m },
                },
            ],
            actions: seq![ActionV::SaveMessage { room_id, message: m }],
        }
    }
}

/// `LoadRoom`: an empty feed is seeded from the repository page, empty
/// membership from the stored host and participants (a missing host is
/// reported to the room and stops the seeding); then the current state is
/// broadcast as `RoomLoaded`.
pub open spec fn load_step(h: HubV, room_id: Seq<char>, seed: RoomSeedV) -> HubStep {
    let feed2 = if h.feed.len() == 0 && seed.messages is Some {
        feed_add_all(h.feed, seed.messages->0)
    } else {
        h.feed
    };
    if h.users.len() == 0 && seed.host is None {
        HubStep {
            hub: HubV { users: h.users, feed: feed2 },
            outputs: seq![
                ParcelV {
                    room_id,
                    addressing: Addressing::Room,
                    output: OutputV::Error(OutputError::HostUserNotExists),
                },
            ],
            actions: seq![],
        }
    } else {
        let users2 = if h.users.len() == 0 {
            let seeded = user_upsert(h.users, seed.host->0);
            if seed.participants is Some {
                upsert_all(seeded, seed.participants->0)
            } else {
                seeded
            }
        } else {
            h.users
        };
        HubStep {
            hub: HubV { users: users2, feed: feed2 },
            outputs: seq![
                ParcelV {
                    room_id,
                    addressing: Addressing::Room,
                    output: OutputV::RoomLoaded { users: users2, recent_messages: feed2 },
                },
            ],
            actions: seq![],
        }
    }
}

/// `onDisconnect`: removes the member if present and tells the remaining
/// members; a no-op for a client that never joined.
pub open spec fn disconnect_step(h: HubV, room_id: Seq<char>, client_id: u128) -> HubStep {
    if has_member(h.users, client_id) {
        HubStep {
            hub: HubV { users: user_remove(h.users, client_id), feed: h.feed },
            outputs: seq![
                ParcelV {
                    room_id,
                    addressing: Addressing::AllExceptClient(client_id),
                    output: OutputV::UserLeft { room_id, user_id: client_id },
                },
            ],
            actions: seq![],
        }
    } else {
        HubStep { hub: h, outputs: seq![], actions: seq![] }
    }
}

/// The live, in-memory actor for one room: membership plus feed. One hub
/// exists per live room; the registry owns it and drives it sequentially.
pub struct Hub {
    users: Vec<User>,
    feed: Feed,
}

impl View for Hub {
    type V = HubV;

    closed spec fn view(&self) -> HubV {
        HubV { users: self.users.deep_view(), feed: self.feed@ }
    }
}

impl Hub {
    /// Well-formed: ids are unique and the feed is time-ordered.
    pub open spec fn wf(&self) -> bool {
        hubv_wf(self@)
    }

    pub fn new() -> (h: Hub)
        ensures
            h@ == HubV::empty(),
            h.wf(),
    {
        let h = Hub { users: Vec::new(), feed: Feed::new() };
        proof {
            assert(h@.users =~= Seq::<UserV>::empty());
            assert(h@ =~= HubV::empty());
        }
        h
    }

    /// The index of the member with this id, scanning from the front.
    fn find_index(&self, client_id: u128) -> (r: Option<usize>)
        ensures
            match r {
                Some(i) => i < self@.users.len() && self@.users[i as int].id == client_id
                    && forall|j: int| 0 <= j < i ==> self@.users[j].id != client_id,
                None => !has_member(self@.users, client_id),
            },
    {
        let mut i: usize = 0;
        while i < self.users.len()
            invariant
                i <= self.users.len(),
                forall|j: int| 0 <= j < i ==> self@.users[j].id != client_id,
            decreases self.users.len() - i,
        {
            if self.users[i].id == client_id {
                return Some(i);
            }
            i = i + 1;
        }
        None
    }

    pub fn is_member(&self, client_id: u128) -> (r: bool)
        ensures
            r == has_member(self@.users, client_id),
    {
        self.find_index(client_id).is_some()
    }

    pub fn members_is_empty(&self) -> (r: bool)
        ensures
            r == (self@.users.len() == 0),
    {
        self.users.len() == 0
    }

    pub fn feed_is_empty(&self) -> (r: bool)
        ensures
            r == (self@.feed.len() == 0),
    {
        self.feed.is_empty()
    }

    /// The current members, in insertion order.
    pub fn members(&self) -> (r: &Vec<User>)
        ensures
            r.deep_view() == self@.users,
    {
        &self.users
    }

    /// Inserts keyed by id, matching `user_upsert`.
    fn upsert_user(&mut self, user: User)
        ensures
            final(self)@.users == user_upsert(old(self)@.users, user@),
            final(self)@.feed == old(self)@.feed,
    {
        let ghost s = self@.users;
        match self.find_index(user.id) {
            Some(i) => {
                proof {
                    lemma_user_upsert_at(s, user@, i as int);
                }
                self.users.remove(i);
                self.users.insert(i, user);
                proof {
                    assert(self.users.deep_view() =~= s.update(i as int, user@));
                }
            },
            None => {
                proof {
                    lemma_user_upsert_absent(s, user@);
                }
                self.users.push(user);
                proof {
                    assert(self.users.deep_view() =~= s.push(user@));
                }
            },
        }
    }

    /// The members other than the client, as event payloads.
    fn collect_others(&self, client_id: u128) -> (r: Vec<UserOutput>)
        ensures
            r.deep_view() == others_of(self@.users, client_id),
    {
        let ghost s = self@.users;
        let ghost mut acc: Seq<UserV> = Seq::empty();
        let mut out: Vec<UserOutput> = Vec::new();
        let mut i: usize = 0;
        while i < self.users.len()
            invariant
                i <= self.users.len(),
                s == self@.users,
                acc == others_of(s.take(i as int), client_id),
                out@.len() == acc.len(),
                forall|j: int| 0 <= j < acc.len() ==> (#[trigger] out@[j])@ == acc[j],
            decreases self.users.len() - i,
        {
            proof {
                assert(s.take(i + 1).drop_last() =~= s.take(i as int));
                assert(s.take(i + 1).last() == s[i as int]);
            }
            if self.users[i].id != client_id {
                out.push(UserOutput::new(self.users[i].id, &self.users[i].name));
                proof {
                    acc = acc.push(s[i as int]);
                }
            }
            i = i + 1;
        }
        proof {
            assert(s.take(s.len() as int) =~= s);
            assert forall|j: int| 0 <= j < acc.len() implies out.deep_view()[j] == acc[j] by {
                assert(out.deep_view()[j] == out@[j].deep_view());
            }
            assert(out.deep_view() =~= acc);
        }
        out
    }

    /// Every member, as event payloads.
    fn collect_users(&self) -> (r: Vec<UserOutput>)
        ensures
            r.deep_view() == self@.users,
    {
        let ghost s = self@.users;
        let mut out: Vec<UserOutput> = Vec::new();
        let mut i: usize = 0;
        while i < self.users.len()
            invariant
                i <= self.users.len(),
                s == self@.users,
                out@.len() == i,
                forall|j: int| 0 <= j < i ==> (#[trigger] out@[j])@ == s[j],
            decreases self.users.len() - i,
        {
            out.push(UserOutput::new(self.users[i].id, &self.users[i].name));
            i = i + 1;
        }
        proof {
            assert forall|j: int| 0 <= j < s.len() implies out.deep_view()[j] == s[j] by {
                assert(out.deep_view()[j] == out@[j].deep_view());
            }
            assert(out.deep_view() =~= s);
        }
        out
    }

    /// The whole feed, as event payloads.
    fn collect_messages(&self) -> (r: Vec<MessageOutput>)
        ensures
            r.deep_view() == self@.feed,
    {
        let msgs = self.feed.messages_iter();
        let ghost s = self@.feed;
        let mut out: Vec<MessageOutput> = Vec::new();
        let mut i: usize = 0;
        while i < msgs.len()
            invariant
                i <= msgs.len(),
                msgs.deep_view() == s,
                out@.len() == i,
                forall|j: int| 0 <= j < i ==> (#[trigger] out@[j])@ == s[j],
            decreases msgs.len() - i,
        {
            let m = &msgs[i];
            proof {
                assert(m.deep_view() == s[i as int]);
            }
            out.push(
                MessageOutput::new(m.id, UserOutput::new(m.author.id, &m.author.name), &m.body, m.created_at),
            );
            i = i + 1;
        }
        proof {
            assert forall|j: int| 0 <= j < s.len() implies out.deep_view()[j] == s[j] by {
                assert(out.deep_view()[j] == out@[j].deep_view());
            }
            assert(out.deep_view() =~= s);
        }
        out
    }

    /// `JoinRoom` with the name taken as given (already trimmed).
    pub fn join_with_name(&mut self, room_id: &String, client_id: u128, name: &String) -> (r:
        HubResult)
        ensures
            ({
                let step = join_step(old(self)@, room_id@, client_id, name@);
                &&& final(self)@ == step.hub
                &&& r.outputs.deep_view() == step.outputs
                &&& r.actions.deep_view() == step.actions
                &&& old(self).wf() ==> final(self).wf()
            }),
    {
        let ghost h0 = self@;
        let ghost step = join_step(h0, room_id@, client_id, name@);

        // reject a taken name
        let mut i: usize = 0;
        while i < self.users.len()
            invariant
                i <= self.users.len(),
                h0 == self@,
                forall|j: int| 0 <= j < i ==> h0.users[j].name != name@,
            decreases self.users.len() - i,
        {
            proof {
                assert(h0.users[i as int] == self.users@[i as int].deep_view());
            }
            if self.users[i].name == *name {
                proof {
                    assert(h0.users[i as int].name == name@);
                    assert(name_taken(h0.users, name@));
                }
                let outputs = parcel_vec1(
                    OutputParcel::new(
                        room_id.clone(),
                        Addressing::OnlyClient(client_id),
                        Output::Error(OutputError::UserNameTaken),
                    ),
                );
                let r = HubResult { outputs, actions: action_vec0() };
                proof {
                    assert(r.outputs.deep_view() =~= join_step(
                        h0,
                        room_id@,
                        client_id,
                        name@,
                    ).outputs);
                    assert(r.actions.deep_view() =~= join_step(
                        h0,
                        room_id@,
                        client_id,
                        name@,
                    ).actions);
                }
                return r;
            }
            i = i + 1;
        }
        proof {
            assert(!name_taken(h0.users, name@));
        }

        // the user enters
        let user = User::new(client_id, name);
        self.upsert_user(user);
        proof {
            if unique_ids(h0.users) {
                lemma_user_upsert_unique(h0.users, UserV { id: client_id, name: name@ });
            }
        }

        // report success to the joiner, then tell the others
        let user_output = UserOutput::new(client_id, name);
        let others = self.collect_others(client_id);
        let messages = self.collect_messages();
        let joined = Output::Joined(JoinedOutput::new(user_output, others, messages));
        let user_joined = Output::UserJoined(
            UserJoinedOutput::new(room_id.clone(), UserOutput::new(client_id, name)),
        );
        let outputs = parcel_vec2(
            OutputParcel::new(room_id.clone(), Addressing::OnlyClient(client_id), joined),
            OutputParcel::new(room_id.clone(), Addressing::AllExceptClient(client_id), user_joined),
        );
        let actions = action_vec1(Action::SaveUser(User::new(client_id, name)));
        let r = HubResult { outputs, actions };
        proof {
            assert(r.outputs.deep_view() =~~= step.outputs);
            assert(r.actions.deep_view() =~~= step.actions);
        }
        r
    }

    /// `JoinRoom`: trims the requested name, then joins with it.
    pub fn process_join(&mut self, room_id: &String, client_id: u128, input: &JoinInput) -> (r:
        HubResult)
        ensures
            ({
                let step = join_step(old(self)@, room_id@, client_id, trimmed(input.name@));
                &&& final(self)@ == step.hub
                &&& r.outputs.deep_view() == step.outputs
                &&& r.actions.deep_view() == step.actions
                &&& old(self).wf() ==> final(self).wf()
            }),
    {
        let name = trim_str(&input.name);
        self.join_with_name(room_id, client_id, &name)
    }

    /// Joins each listed user in turn, as the registry does for the host's
    /// invitees at room creation.
    pub fn join_many(&mut self, room_id: &String, users: &Vec<User>) -> (r: HubResult)
        ensures
            ({
                let step = join_all(old(self)@, room_id@, users.deep_view());
                &&& final(self)@ == step.hub
                &&& r.outputs.deep_view() == step.outputs
                &&& r.actions.deep_view() == step.actions
                &&& old(self).wf() ==> final(self).wf()
            }),
    {
        let ghost us = users.deep_view();
        let mut outputs: Vec<OutputParcel> = Vec::new();
        let mut actions: Vec<Action> = Vec::new();
        let mut i: usize = 0;
        proof {
            assert(us.take(0) =~= Seq::<UserV>::empty());
            assert(outputs.deep_view() =~= Seq::<ParcelV>::empty());
            assert(actions.deep_view() =~= Seq::<ActionV>::empty());
        }
        while i < users.len()
            invariant
                i <= users.len(),
                us == users.deep_view(),
                self@ == join_all(old(self)@, room_id@, us.take(i as int)).hub,
                outputs.deep_view() == join_all(old(self)@, room_id@, us.take(i as int)).outputs,
                actions.deep_view() == join_all(old(self)@, room_id@, us.take(i as int)).actions,
                old(self).wf() ==> self.wf(),
            decreases users.len() - i,
        {
            proof {
                assert(us.take(i + 1).drop_last() =~= us.take(i as int));
                assert(us.take(i + 1).last() == us[i as int]);
                assert(us[i as int] == users@[i as int].deep_view());
            }
            let input = JoinInput { client_id: users[i].id, name: users[i].name.clone() };
            let hr = self.process_join(room_id, input.client_id, &input);
            append_parcels(&mut outputs, hr.outputs);
            append_actions(&mut actions, hr.actions);
            i = i + 1;
        }
        proof {
            assert(us.take(us.len() as int) =~= us);
        }
        HubResult { outputs, actions }
    }

    /// `PostMessage` with the message id and timestamp taken as given.
    pub fn post_at(
        &mut self,
        room_id: &String,
        client_id: u128,
        body: &String,
        msg_id: u128,
        created_at: i64,
    ) -> (r: HubResult)
        requires
            old(self).wf(),
        ensures
            ({
                let step = post_step(old(self)@, room_id@, client_id, body@, msg_id, created_at);
                &&& final(self)@ == step.hub
                &&& r.outputs.deep_view() == step.outputs
                &&& r.actions.deep_view() == step.actions
                &&& final(self).wf()
            }),
    {
        let ghost h0 = self@;
        let ghost step = post_step(h0, room_id@, client_id, body@, msg_id, created_at);

        // the sender must be a member
        let author_index = match self.find_index(client_id) {
            Some(i) => i,
            None => {
                let outputs = parcel_vec1(
                    OutputParcel::new(
                        room_id.clone(),
                        Addressing::OnlyClient(client_id),
                        Output::Error(OutputError::UserNotJoined),
                    ),
                );
                let r = HubResult { outputs, actions: action_vec0() };
                proof {
                    assert(r.outputs.deep_view() =~= step.outputs);
                    assert(r.actions.deep_view() =~= step.actions);
                }
                return r;
            },
        };
        proof {
            assert(has_member(h0.users, client_id));
        }

        // the body must be non-empty and within bounds
        let body_len = body.as_str().unicode_len();
        if body_len == 0 || body_len > MAX_MESSAGE_BODY_LENGTH {
            let outputs = parcel_vec1(
                OutputParcel::new(
                    room_id.clone(),
                    Addressing::OnlyClient(client_id),
                    Output::Error(OutputError::InvalidMessageBody),
                ),
            );
            let r = HubResult { outputs, actions: action_vec0() };
            proof {
                assert(r.outputs.deep_view() =~= step.outputs);
                assert(r.actions.deep_view() =~= step.actions);
            }
            return r;
        }

        // the message enters the feed
        let author = self.users[author_index].duplicate();
        proof {
            let i = choose|i: int| 0 <= i < h0.users.len() && h0.users[i].id == client_id;
            assert(i == author_index as int);
            assert(author@ == member_of(h0.users, client_id));
        }
        let message = Message::new_create_at(msg_id, author, body, created_at);
        let message_for_action = message.duplicate();
        self.feed.add_message(message);

        // report to the author, then to everyone else
        let message_output = MessageOutput::new(
            msg_id,
            UserOutput::new(message_for_action.author.id, &message_for_action.author.name),
            body,
            created_at,
        );
        let posted = Output::Posted(PostedOutput::new(message_output.duplicate()));
        let user_posted = Output::UserPosted(UserPostedOutput::new(message_output));
        let outputs = parcel_vec2(
            OutputParcel::new(room_id.clone(), Addressing::OnlyClient(client_id), posted),
            OutputParcel::new(room_id.clone(), Addressing::AllExceptClient(client_id), user_posted),
        );
        let actions = action_vec1(
            Action::SaveMessage { room_id: room_id.clone(), message: message_for_action },
        );
        let r = HubResult { outputs, actions };
        proof {
            lemma_feed_add_sorted(h0.feed, MessageV {
                id: msg_id,
                author: member_of(h0.users, client_id),
                body: body@,
                created_at,
            });
            assert(r.outputs.deep_view() =~~= step.outputs);
            assert(r.actions.deep_view() =~~= step.actions);
        }
        r
    }

    /// `PostMessage`: draws a fresh message id and the current time, then
    /// posts. The step holds for whatever id and time were drawn.
    pub fn process_post(&mut self, room_id: &String, client_id: u128, input: &PostInput) -> (r:
        HubResult)
        requires
            old(self).wf(),
        ensures
            exists|msg_id: u128, now: i64|
                {
                    let step = #[trigger] post_step(
                        old(self)@,
                        room_id@,
                        client_id,
                        input.body@,
                        msg_id,
                        now,
                    );
                    &&& final(self)@ == step.hub
                    &&& r.outputs.deep_view() == step.outputs
                    &&& r.actions.deep_view() == step.actions
                },
            final(self).wf(),
    {
        let msg_id = fresh_id();
        let now = now_millis();
        let r = self.post_at(room_id, client_id, &input.body, msg_id, now);
        r
    }

    /// `LoadRoom` with the repository results taken as given.
    pub fn process_load(&mut self, room_id: &String, seed: &RoomSeed) -> (r: HubResult)
        ensures
            ({
                let step = load_step(old(self)@, room_id@, seed@);
                &&& final(self)@ == step.hub
                &&& r.outputs.deep_view() == step.outputs
                &&& r.actions.deep_view() == step.actions
                &&& old(self).wf() ==> final(self).wf()
            }),
    {
        let ghost h0 = self@;
        let ghost step = load_step(h0, room_id@, seed@);

        // seed the feed from the stored page when it is empty
        if self.feed.is_empty() {
            if let Some(msgs) = &seed.messages {
                let ghost ms = msgs.deep_view();
                let mut i: usize = 0;
                while i < msgs.len()
                    invariant
                        i <= msgs.len(),
                        ms == msgs.deep_view(),
                        self@.feed == feed_add_all(h0.feed, ms.take(i as int)),
                        self@.users == h0.users,
                    decreases msgs.len() - i,
                {
                    proof {
                        assert(ms.take(i + 1).drop_last() =~= ms.take(i as int));
                        assert(ms.take(i + 1).last() == ms[i as int]);
                    }
                    self.feed.add_message(msgs[i].duplicate());
                    i = i + 1;
                }
                proof {
                    assert(ms.take(ms.len() as int) =~= ms);
                }
            }
        }
        proof {
            assert(self@.feed == step.hub.feed);
            if time_sorted(h0.feed) {
                if h0.feed.len() == 0 && seed@.messages is Some {
                    lemma_feed_add_all_sorted(h0.feed, seed@.messages->0);
                }
            }
        }

        // seed the membership from the stored host and participants
        if self.users.len() == 0 {
            match &seed.host {
                None => {
                    let outputs = parcel_vec1(
                        OutputParcel::new(
                            room_id.clone(),
                            Addressing::Room,
                            Output::Error(OutputError::HostUserNotExists),
                        ),
                    );
                    let r = HubResult { outputs, actions: action_vec0() };
                    proof {
                        assert(r.outputs.deep_view() =~= step.outputs);
                        assert(r.actions.deep_view() =~= step.actions);
                    }
                    return r;
                },
                Some(host) => {
                    self.upsert_user(host.duplicate());
                    if let Some(participants) = &seed.participants {
                        let ghost seeded = self@.users;
                        let ghost ps = participants.deep_view();
                        let mut i: usize = 0;
                        while i < participants.len()
                            invariant
                                i <= participants.len(),
                                ps == participants.deep_view(),
                                self@.users == upsert_all(seeded, ps.take(i as int)),
                                self@.feed == step.hub.feed,
                            decreases participants.len() - i,
                        {
                            proof {
                                assert(ps.take(i + 1).drop_last() =~= ps.take(i as int));
                                assert(ps.take(i + 1).last() == ps[i as int]);
                            }
                            self.upsert_user(participants[i].duplicate());
                            i = i + 1;
                        }
                        proof {
                            assert(ps.take(ps.len() as int) =~= ps);
                        }
                    }
                },
            }
        }
        proof {
            assert(self@.users == step.hub.users);
            if unique_ids(h0.users) {
                if h0.users.len() == 0 && seed@.host is Some {
                    lemma_user_upsert_unique(h0.users, seed@.host->0);
                    if seed@.participants is Some {
                        lemma_upsert_all_unique(
                            user_upsert(h0.users, seed@.host->0),
                            seed@.participants->0,
                        );
                    }
                }
            }
        }

        // broadcast the current state of the room
        let users = self.collect_users();
        let messages = self.collect_messages();
        let loaded = Output::RoomLoaded(RoomLoadedOutput { users, recent_messages: messages });
        let outputs = parcel_vec1(OutputParcel::new(room_id.clone(), Addressing::Room, loaded));
        let r = HubResult { outputs, actions: action_vec0() };
        proof {
            assert(r.outputs.deep_view() =~~= step.outputs);
            assert(r.actions.deep_view() =~= step.actions);
        }
        r
    }

    /// A client's connection went away: drop it from the membership and
    /// tell the remaining members.
    pub fn on_disconnect(&mut self, room_id: &String, client_id: u128) -> (r: HubResult)
        ensures
            ({
                let step = disconnect_step(old(self)@, room_id@, client_id);
                &&& final(self)@ == step.hub
                &&& r.outputs.deep_view() == step.outputs
                &&& r.actions.deep_view() == step.actions
                &&& old(self).wf() ==> final(self).wf()
            }),
    {
        let ghost h0 = self@;
        let ghost step = disconnect_step(h0, room_id@, client_id);
        match self.find_index(client_id) {
            Some(i) => {
                proof {
                    lemma_user_remove_at(h0.users, client_id, i as int);
                }
                self.users.remove(i);
                proof {
                    assert(self.users.deep_view() =~= h0.users.remove(i as int));
                    if unique_ids(h0.users) {
                        assert forall|a: int, b: int|
                            0 <= a < b < self@.users.len() implies self@.users[a].id
                            != self@.users[b].id by {
                            if a < i as int {
                                assert(self@.users[a] == h0.users[a]);
                            } else {
                                assert(self@.users[a] == h0.users[a + 1]);
                            }
                            if b < i as int {
                                assert(self@.users[b] == h0.users[b]);
                            } else {
                                assert(self@.users[b] == h0.users[b + 1]);
                            }
                        }
                    }
                }
                let left = Output::UserLeft(UserLeftOutput::new(room_id.clone(), client_id));
                let outputs = parcel_vec1(
                    OutputParcel::new(room_id.clone(), Addressing::AllExceptClient(client_id), left),
                );
                let r = HubResult { outputs, actions: action_vec0() };
                proof {
                    assert(r.outputs.deep_view() =~~= step.outputs);
                    assert(r.actions.deep_view() =~= step.actions);
                }
                r
            },
            None => {
                let r = HubResult { outputs: parcel_vec0(), actions: action_vec0() };
                proof {
                    assert(r.outputs.deep_view() =~= step.outputs);
                    assert(r.actions.deep_view() =~= step.actions);
                }
                r
            },
        }
    }

    /// Dispatches one addressed command into this hub. Only room-level,
    /// non-lifecycle commands belong here; anything else is a programming
    /// error of the caller.
    pub fn process(&mut self, parcel: &InputParcel, seed: &RoomSeed) -> (r: HubResult)
        requires
            old(self).wf(),
            parcel.input is Ping || parcel.input is LoadRoom || parcel.input is JoinRoom
                || parcel.input is PostMessage,
        ensures
            final(self).wf(),
            parcel.input is Ping ==> final(self)@ == old(self)@ && r.outputs.deep_view() == seq![
                ParcelV {
                    room_id: parcel.room_id@,
                    addressing: Addressing::OnlyClient(parcel.client_id),
                    output: OutputV::Pong,
                },
            ] && r.actions.deep_view() == Seq::<ActionV>::empty(),
            parcel.input is LoadRoom ==> ({
                let step = load_step(old(self)@, parcel.room_id@, seed@);
                &&& final(self)@ == step.hub
                &&& r.outputs.deep_view() == step.outputs
                &&& r.actions.deep_view() == step.actions
            }),
            parcel.input is JoinRoom ==> ({
                let step = join_step(
                    old(self)@,
                    parcel.room_id@,
                    parcel.client_id,
                    trimmed(parcel.input->JoinRoom_0.name@),
                );
                &&& final(self)@ == step.hub
                &&& r.outputs.deep_view() == step.outputs
                &&& r.actions.deep_view() == step.actions
            }),
            parcel.input is PostMessage ==> exists|msg_id: u128, now: i64|
                {
                    let step = #[trigger] post_step(
                        old(self)@,
                        parcel.room_id@,
                        parcel.client_id,
                        parcel.input->PostMessage_0.body@,
                        msg_id,
                        now,
                    );
                    &&& final(self)@ == step.hub
                    &&& r.outputs.deep_view() == step.outputs
                    &&& r.actions.deep_view() == step.actions
                },
    {
        match &parcel.input {
            Input::Ping => {
                let r = HubResult {
                    outputs: parcel_vec1(
                        OutputParcel::new(
                            parcel.room_id.clone(),
                            Addressing::OnlyClient(parcel.client_id),
                            Output::Pong,
                        ),
                    ),
                    actions: action_vec0(),
                };
                proof {
                    assert(r.actions.deep_view() =~= Seq::<ActionV>::empty());
                }
                r
            },
            Input::LoadRoom => self.process_load(&parcel.room_id, seed),
            Input::JoinRoom(input) => self.process_join(&parcel.room_id, parcel.client_id, input),
            Input::PostMessage(input) => self.process_post(&parcel.room_id, parcel.client_id, input),
            _ => {
                proof {
                    assert(false);
                }
                HubResult { outputs: Vec::new(), actions: Vec::new() }
            },
        }
    }
}

} // verus!
