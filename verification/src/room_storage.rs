use vstd::prelude::*;
use crate::user::{User, UserV};
use crate::room::{Room, RoomV, duplicate_users};
use crate::room_user::{RoomUser, RoomUserV};
use crate::hub::{
    Hub, HubV, HubResult, RoomSeed, RoomSeedV, join_step, join_all, post_step, disconnect_step,
    hubv_wf, load_step as hub_load_step,
};
use crate::proto::{
    Action, ActionV, Addressing, Input, InputParcel, JoinInput, Output, OutputError, OutputParcel,
    OutputV, ParcelV, PostInput, RemoveRoomInput, RoomCreatedOutput, RoomInput, RoomInputV,
    RoomRemovedOutput, parcel_vec0, parcel_vec1, action_vec0, action_vec1, append_parcels,
    append_actions,
};
use crate::outside::{trimmed, now_millis};

verus! {

/// Ghost model of the registry: the cached room records and the live hubs,
/// both keyed by room id.
#[verifier::ext_equal]
pub struct StorageV {
    pub rooms: Seq<RoomV>,
    pub hubs: Seq<(Seq<char>, HubV)>,
}

/// Ghost model of one registry transition.
#[verifier::ext_equal]
pub struct StorageStep {
    pub storage: StorageV,
    pub outputs: Seq<ParcelV>,
    pub actions: Seq<ActionV>,
}

pub open spec fn has_room(rooms: Seq<RoomV>, id: Seq<char>) -> bool {
    exists|i: int| 0 <= i < rooms.len() && rooms[i].room_id == id
}

/// The cached record with this id (meaningful when present and unique).
pub open spec fn room_at(rooms: Seq<RoomV>, id: Seq<char>) -> RoomV {
    rooms[choose|i: int| 0 <= i < rooms.len() && rooms[i].room_id == id]
}

/// Removal keyed by room id: drops the first record with the id, if any.
pub open spec fn rooms_remove(rooms: Seq<RoomV>, id: Seq<char>) -> Seq<RoomV>
    decreases rooms.len(),
{
    if rooms.len() == 0 {
        rooms
    } else if rooms[0].room_id == id {
        rooms.drop_first()
    } else {
        seq![rooms[0]] + rooms_remove(rooms.drop_first(), id)
    }
}

pub open spec fn unique_room_ids(rooms: Seq<RoomV>) -> bool {
    forall|i: int, j: int| 0 <= i < j < rooms.len() ==> rooms[i].room_id != rooms[j].room_id
}

pub open spec fn has_hub(hubs: Seq<(Seq<char>, HubV)>, id: Seq<char>) -> bool {
    exists|i: int| 0 <= i < hubs.len() && hubs[i].0 == id
}

/// The live hub for this id (meaningful when present and unique).
pub open spec fn hub_at(hubs: Seq<(Seq<char>, HubV)>, id: Seq<char>) -> HubV {
    hubs[choose|i: int| 0 <= i < hubs.len() && hubs[i].0 == id].1
}

/// Registration keyed by room id: replaces the hub under the same id in
/// place, or appends a new entry at the end.
pub open spec fn hubs_upsert(hubs: Seq<(Seq<char>, HubV)>, id: Seq<char>, h: HubV) -> Seq<
    (Seq<char>, HubV),
>
    decreases hubs.len(),
{
    if hubs.len() == 0 {
        seq![(id, h)]
    } else if hubs[0].0 == id {
        seq![(id, h)] + hubs.drop_first()
    } else {
        seq![hubs[0]] + hubs_upsert(hubs.drop_first(), id, h)
    }
}

/// Removal keyed by room id: drops the first hub with the id, if any.
pub open spec fn hubs_remove(hubs: Seq<(Seq<char>, HubV)>, id: Seq<char>) -> Seq<(Seq<char>, HubV)>
    decreases hubs.len(),
{
    if hubs.len() == 0 {
        hubs
    } else if hubs[0].0 == id {
        hubs.drop_first()
    } else {
        seq![hubs[0]] + hubs_remove(hubs.drop_first(), id)
    }
}

pub open spec fn unique_hub_ids(hubs: Seq<(Seq<char>, HubV)>) -> bool {
    forall|i: int, j: int| 0 <= i < j < hubs.len() ==> hubs[i].0 != hubs[j].0
}

/// Well-formedness of the registry: a room id maps to at most one record
/// and at most one hub, and every hub is itself well-formed.
pub open spec fn storage_wf(s: StorageV) -> bool {
    &&& unique_room_ids(s.rooms)
    &&& unique_hub_ids(s.hubs)
    &&& forall|i: int| 0 <= i < s.hubs.len() ==> hubv_wf(#[trigger] s.hubs[i].1)
}

pub proof fn lemma_rooms_remove_at(s: Seq<RoomV>, id: Seq<char>, i: int)
    requires
        0 <= i < s.len(),
        s[i].room_id == id,
        forall|j: int| 0 <= j < i ==> s[j].room_id != id,
    ensures
        rooms_remove(s, id) =~= s.remove(i),
    decreases s.len(),
{
    if i == 0 {
        assert(s.drop_first() =~= s.remove(0));
    } else {
        lemma_rooms_remove_at(s.drop_first(), id, i - 1);
        assert(s.drop_first().remove(i - 1) =~= s.remove(i).drop_first());
        assert(seq![s[0]] + rooms_remove(s.drop_first(), id) =~= s.remove(i));
    }
}

pub proof fn lemma_rooms_remove_absent(s: Seq<RoomV>, id: Seq<char>)
    requires
        forall|j: int| 0 <= j < s.len() ==> s[j].room_id != id,
    ensures
        rooms_remove(s, id) =~= s,
    decreases s.len(),
{
    if s.len() > 0 {
        lemma_rooms_remove_absent(s.drop_first(), id);
        assert(seq![s[0]] + s.drop_first() =~= s);
    }
}

pub proof fn lemma_hubs_upsert_at(s: Seq<(Seq<char>, HubV)>, id: Seq<char>, h: HubV, i: int)
    requires
        0 <= i < s.len(),
        s[i].0 == id,
        forall|j: int| 0 <= j < i ==> s[j].0 != id,
    ensures
        hubs_upsert(s, id, h) =~= s.update(i, (id, h)),
    decreases s.len(),
{
    if i == 0 {
        assert(seq![(id, h)] + s.drop_first() =~= s.update(0, (id, h)));
    } else {
        lemma_hubs_upsert_at(s.drop_first(), id, h, i - 1);
        assert(s.drop_first().update(i - 1, (id, h)) =~= s.update(i, (id, h)).drop_first());
        assert(seq![s[0]] + hubs_upsert(s.drop_first(), id, h) =~= s.update(i, (id, h)));
    }
}

pub proof fn lemma_hubs_upsert_absent(s: Seq<(Seq<char>, HubV)>, id: Seq<char>, h: HubV)
    requires
        forall|j: int| 0 <= j < s.len() ==> s[j].0 != id,
    ensures
        hubs_upsert(s, id, h) =~= s.push((id, h)),
    decreases s.len(),
{
    if s.len() == 0 {
        assert(seq![(id, h)] =~= s.push((id, h)));
    } else {
        lemma_hubs_upsert_absent(s.drop_first(), id, h);
        assert(seq![s[0]] + s.drop_first().push((id, h)) =~= s.push((id, h)));
    }
}

pub proof fn lemma_hubs_remove_at(s: Seq<(Seq<char>, HubV)>, id: Seq<char>, i: int)
    requires
        0 <= i < s.len(),
        s[i].0 == id,
        forall|j: int| 0 <= j < i ==> s[j].0 != id,
    ensures
        hubs_remove(s, id) =~= s.remove(i),
    decreases s.len(),
{
    if i == 0 {
        assert(s.drop_first() =~= s.remove(0));
    } else {
        lemma_hubs_remove_at(s.drop_first(), id, i - 1);
        assert(s.drop_first().remove(i - 1) =~= s.remove(i).drop_first());
        assert(seq![s[0]] + hubs_remove(s.drop_first(), id) =~= s.remove(i));
    }
}

pub proof fn lemma_hubs_remove_absent(s: Seq<(Seq<char>, HubV)>, id: Seq<char>)
    requires
        forall|j: int| 0 <= j < s.len() ==> s[j].0 != id,
    ensures
        hubs_remove(s, id) =~= s,
    decreases s.len(),
{
    if s.len() > 0 {
        lemma_hubs_remove_absent(s.drop_first(), id);
        assert(seq![s[0]] + s.drop_first() =~= s);
    }
}

/// With unique ids, the record found at an index is the record of the id.
pub proof fn lemma_room_at_index(rooms: Seq<RoomV>, id: Seq<char>, i: int)
    requires
        unique_room_ids(rooms),
        0 <= i < rooms.len(),
        rooms[i].room_id == id,
    ensures
        has_room(rooms, id),
        room_at(rooms, id) == rooms[i],
{
    assert(has_room(rooms, id));
    let k = choose|k: int| 0 <= k < rooms.len() && rooms[k].room_id == id;
    if k != i {
        assert(false);
    }
}

/// With unique ids, the hub found at an index is the hub of the id.
pub proof fn lemma_hub_at_index(hubs: Seq<(Seq<char>, HubV)>, id: Seq<char>, i: int)
    requires
        unique_hub_ids(hubs),
        0 <= i < hubs.len(),
        hubs[i].0 == id,
    ensures
        has_hub(hubs, id),
        hub_at(hubs, id) == hubs[i].1,
{
    assert(has_hub(hubs, id));
    let k = choose|k: int| 0 <= k < hubs.len() && hubs[k].0 == id;
    if k != i {
        assert(false);
    }
}

/// The declared participants, with an empty list standing for none.
pub open spec fn nonempty_or_none(ps: Option<Seq<UserV>>) -> Option<Seq<UserV>> {
    match ps {
        Some(s) => if s.len() > 0 {
            Some(s)
        } else {
            None
        },
        None => None,
    }
}

/// The membership record persisted for one user of a room.
pub open spec fn room_user_of(room: RoomV, u: UserV) -> RoomUserV {
    RoomUserV {
        room_id: room.room_id,
        user_id: u.id,
        username: u.name,
        room_title: room.room_title,
        create_at: room.create_at,
    }
}

pub open spec fn records_of(room: RoomV, ps: Seq<UserV>) -> Seq<ActionV>
    decreases ps.len(),
{
    if ps.len() == 0 {
        Seq::empty()
    } else {
        records_of(room, ps.drop_last()).push(
            ActionV::SaveRoomUser(room_user_of(room, ps.last())),
        )
    }
}

/// One membership record for the host and one per declared participant.
pub open spec fn membership_records(room: RoomV) -> Seq<ActionV> {
    seq![ActionV::SaveRoomUser(room_user_of(room, room.host_info))] + match room.participants {
        Some(ps) => records_of(room, ps),
        None => Seq::empty(),
    }
}

/// A registry-level error, broadcast to the room it concerns.
pub open spec fn room_error(room_id: Seq<char>, e: OutputError) -> ParcelV {
    ParcelV { room_id, addressing: Addressing::Room, output: OutputV::Error(e) }
}

/// `CreateRoom`: rejected while the id is taken; otherwise the record is
/// cached, a fresh hub is fed one join for the host and one per declared
/// participant, the hub is registered, the room and its memberships are
/// persisted, and `RoomCreated` is broadcast.
pub open spec fn create_step(
    s: StorageV,
    room_id: Seq<char>,
    input: RoomInputV,
    now: i64,
) -> StorageStep {
    if has_room(s.rooms, room_id) {
        StorageStep {
            storage: s,
            outputs: seq![room_error(room_id, OutputError::RoomNameTaken)],
            actions: seq![],
        }
    } else {
        let parts = nonempty_or_none(input.participants);
        let room = RoomV {
            room_id,
            room_title: input.room_title,
            host_info: UserV { id: input.host_id, name: input.host_name },
            participants: parts,
            create_at: now,
            scope: Seq::empty(),
            delete_key: input.delete_key,
        };
        let host_join = join_step(HubV::empty(), room_id, input.host_id, trimmed(input.host_name));
        let part_list = match parts {
            Some(ps) => ps,
            None => Seq::empty(),
        };
        let parts_join = join_all(host_join.hub, room_id, part_list);
        StorageStep {
            storage: StorageV {
                rooms: s.rooms.push(room),
                hubs: hubs_upsert(s.hubs, room_id, parts_join.hub),
            },
            outputs: host_join.outputs + parts_join.outputs + seq![
                ParcelV {
                    room_id,
                    addressing: Addressing::Room,
                    output: OutputV::RoomCreated { room_id },
                },
            ],
            actions: host_join.actions + parts_join.actions + seq![ActionV::SaveRoom(room)]
                + membership_records(room),
        }
    }
}

/// `DeleteRoom`: the room is resolved live-first, then from the repository
/// record handed in; a missing room or a wrong key stops deletion, else
/// record and hub leave the live maps, `RoomRemoved` is broadcast and the
/// stored room is deleted best-effort.
pub open spec fn delete_step(
    s: StorageV,
    room_id: Seq<char>,
    delete_key: Seq<char>,
    fetched: Option<RoomV>,
) -> StorageStep {
    let live = has_room(s.rooms, room_id);
    if !live && fetched is None {
        StorageStep {
            storage: s,
            outputs: seq![room_error(room_id, OutputError::RoomNotExists)],
            actions: seq![],
        }
    } else {
        let room = if live {
            room_at(s.rooms, room_id)
        } else {
            fetched->0
        };
        if room.delete_key != delete_key {
            StorageStep {
                storage: s,
                outputs: seq![room_error(room_id, OutputError::RemoveRoomFailed)],
                actions: seq![],
            }
        } else {
            StorageStep {
                storage: StorageV {
                    rooms: rooms_remove(s.rooms, room_id),
                    hubs: hubs_remove(s.hubs, room_id),
                },
                outputs: seq![
                    ParcelV {
                        room_id,
                        addressing: Addressing::Room,
                        output: OutputV::RoomRemoved { room_id },
                    },
                ],
                actions: seq![ActionV::RemoveRoom { room_id }],
            }
        }
    }
}

/// `LoadRoom` at the registry: rejected when the room is neither live nor
/// in storage; otherwise the record is cached on a miss, a hub is made
/// live if none is, and the hub performs the load with the seed.
pub open spec fn load_room_step(s: StorageV, room_id: Seq<char>, ctx: DispatchCtxV) -> StorageStep {
    if !has_room(s.rooms, room_id) && !ctx.repo_exists {
        StorageStep {
            storage: s,
            outputs: seq![room_error(room_id, OutputError::RoomNotExists)],
            actions: seq![],
        }
    } else {
        let rooms2 = if !has_room(s.rooms, room_id) && ctx.room is Some {
            s.rooms.push(ctx.room->0)
        } else {
            s.rooms
        };
        let hub0 = if has_hub(s.hubs, room_id) {
            hub_at(s.hubs, room_id)
        } else {
            HubV::empty()
        };
        let hs = hub_load_step(hub0, room_id, ctx.seed);
        StorageStep {
            storage: StorageV { rooms: rooms2, hubs: hubs_upsert(s.hubs, room_id, hs.hub) },
            outputs: hs.outputs,
            actions: hs.actions,
        }
    }
}

/// Routing of `JoinRoom` into the addressed room's hub: an error when no
/// hub is live.
pub open spec fn join_route_step(
    s: StorageV,
    room_id: Seq<char>,
    client_id: u128,
    name: Seq<char>,
) -> StorageStep {
    if !has_hub(s.hubs, room_id) {
        StorageStep {
            storage: s,
            outputs: seq![room_error(room_id, OutputError::RoomNotExists)],
            actions: seq![],
        }
    } else {
        let hs = join_step(hub_at(s.hubs, room_id), room_id, client_id, name);
        StorageStep {
            storage: StorageV { rooms: s.rooms, hubs: hubs_upsert(s.hubs, room_id, hs.hub) },
            outputs: hs.outputs,
            actions: hs.actions,
        }
    }
}

/// Routing of `PostMessage` into the addressed room's hub: an error when
/// no hub is live.
pub open spec fn post_route_step(
    s: StorageV,
    room_id: Seq<char>,
    client_id: u128,
    body: Seq<char>,
    msg_id: u128,
    now: i64,
) -> StorageStep {
    if !has_hub(s.hubs, room_id) {
        StorageStep {
            storage: s,
            outputs: seq![room_error(room_id, OutputError::RoomNotExists)],
            actions: seq![],
        }
    } else {
        let hs = post_step(hub_at(s.hubs, room_id), room_id, client_id, body, msg_id, now);
        StorageStep {
            storage: StorageV { rooms: s.rooms, hubs: hubs_upsert(s.hubs, room_id, hs.hub) },
            outputs: hs.outputs,
            actions: hs.actions,
        }
    }
}

/// Routing of a client's disconnect into the addressed room's hub: a
/// no-op when no hub is live.
pub open spec fn disconnect_route_step(s: StorageV, room_id: Seq<char>, client_id: u128) -> StorageStep {
    if !has_hub(s.hubs, room_id) {
        StorageStep { storage: s, outputs: seq![], actions: seq![] }
    } else {
        let hs = disconnect_step(hub_at(s.hubs, room_id), room_id, client_id);
        StorageStep {
            storage: StorageV { rooms: s.rooms, hubs: hubs_upsert(s.hubs, room_id, hs.hub) },
            outputs: hs.outputs,
            actions: hs.actions,
        }
    }
}

/// What the repository contributed to one dispatch: whether the addressed
/// room exists in storage, its record if it could be fetched, and the seed
/// data for a load. The registry consults them only where its rules say.
pub struct DispatchCtx {
    pub repo_exists: bool,
    pub room: Option<Room>,
    pub seed: RoomSeed,
}

#[verifier::ext_equal]
pub struct DispatchCtxV {
    pub repo_exists: bool,
    pub room: Option<RoomV>,
    pub seed: RoomSeedV,
}

impl View for DispatchCtx {
    type V = DispatchCtxV;

    open spec fn view(&self) -> DispatchCtxV {
        DispatchCtxV {
            repo_exists: self.repo_exists,
            room: self.room.deep_view(),
            seed: self.seed@,
        }
    }
}

impl DispatchCtx {
    /// A context with no repository data at all.
    pub fn nothing() -> (c: DispatchCtx)
        ensures
            c@ == (DispatchCtxV {
                repo_exists: false,
                room: None,
                seed: RoomSeedV { messages: None, host: None, participants: None },
            }),
    {
        DispatchCtx { repo_exists: false, room: None, seed: RoomSeed::nothing() }
    }
}

/// The membership records persisted for a freshly created room: one for
/// the host and one per declared participant.
fn membership_actions_of(room: &Room) -> (r: Vec<Action>)
    ensures
        r.deep_view() == membership_records(room@),
{
    let ghost target = membership_records(room@);
    let mut r: Vec<Action> = Vec::new();
    r.push(
        Action::SaveRoomUser(
            RoomUser::new(
                room.room_id.clone(),
                room.room_title.clone(),
                room.host_info.id,
                room.host_info.name.clone(),
                room.create_at,
            ),
        ),
    );
    let ghost mut acc: Seq<ActionV> = seq![
        ActionV::SaveRoomUser(room_user_of(room@, room@.host_info)),
    ];
    proof {
        assert(r.deep_view()[0] == r@[0].deep_view());
        assert(r.deep_view() =~= acc);
    }
    if let Some(ps) = &room.participants {
        let ghost psv = ps.deep_view();
        let mut i: usize = 0;
        while i < ps.len()
            invariant
                i <= ps.len(),
                psv == ps.deep_view(),
                acc == seq![ActionV::SaveRoomUser(room_user_of(room@, room@.host_info))]
                    + records_of(room@, psv.take(i as int)),
                r@.len() == acc.len(),
                forall|j: int| 0 <= j < acc.len() ==> (#[trigger] r@[j])@ == acc[j],
            decreases ps.len() - i,
        {
            proof {
                assert(psv.take(i + 1).drop_last() =~= psv.take(i as int));
                assert(psv.take(i + 1).last() == psv[i as int]);
                assert(psv[i as int] == ps@[i as int].deep_view());
            }
            r.push(
                Action::SaveRoomUser(
                    RoomUser::new(
                        room.room_id.clone(),
                        room.room_title.clone(),
                        ps[i].id,
                        ps[i].name.clone(),
                        room.create_at,
                    ),
                ),
            );
            proof {
                acc = acc.push(ActionV::SaveRoomUser(room_user_of(room@, psv[i as int])));
                assert(acc =~= seq![ActionV::SaveRoomUser(room_user_of(room@, room@.host_info))]
                    + records_of(room@, psv.take(i + 1)));
            }
            i = i + 1;
        }
        proof {
            assert(psv.take(psv.len() as int) =~= psv);
            assert(acc =~= target);
        }
    }
    proof {
        assert(acc =~= target);
        assert forall|j: int| 0 <= j < acc.len() implies r.deep_view()[j] == acc[j] by {
            assert(r.deep_view()[j] == r@[j].deep_view());
        }
        assert(r.deep_view() =~= target);
    }
    r
}

/// One live hub, keyed by its room id.
struct HubEntry {
    room_id: String,
    hub: Hub,
}

impl View for HubEntry {
    type V = (Seq<char>, HubV);

    closed spec fn view(&self) -> (Seq<char>, HubV) {
        (self.room_id@, self.hub@)
    }
}

impl DeepView for HubEntry {
    type V = (Seq<char>, HubV);

    closed spec fn deep_view(&self) -> (Seq<char>, HubV) {
        self@
    }
}

/// The room registry: owns the cached room records and the live hubs and
/// dispatches one command envelope at a time, so all mutations are totally
/// ordered.
pub struct RoomStorage {
    rooms: Vec<Room>,
    hubs: Vec<HubEntry>,
}

impl View for RoomStorage {
    type V = StorageV;

    closed spec fn view(&self) -> StorageV {
        StorageV { rooms: self.rooms.deep_view(), hubs: self.hubs.deep_view() }
    }
}

impl RoomStorage {
    pub open spec fn wf(&self) -> bool {
        storage_wf(self@)
    }

    pub fn new() -> (s: RoomStorage)
        ensures
            s@ == (StorageV { rooms: Seq::<RoomV>::empty(), hubs: Seq::<(Seq<char>, HubV)>::empty() }),
            s.wf(),
    {
        let s = RoomStorage { rooms: Vec::new(), hubs: Vec::new() };
        proof {
            assert(s@.rooms =~= Seq::<RoomV>::empty());
            assert(s@.hubs =~= Seq::<(Seq<char>, HubV)>::empty());
        }
        s
    }

    fn find_room_index(&self, room_id: &String) -> (r: Option<usize>)
        ensures
            match r {
                Some(i) => i < self@.rooms.len() && self@.rooms[i as int].room_id == room_id@
                    && forall|j: int| 0 <= j < i ==> self@.rooms[j].room_id != room_id@,
                None => !has_room(self@.rooms, room_id@),
            },
    {
        let mut i: usize = 0;
        while i < self.rooms.len()
            invariant
                i <= self.rooms.len(),
                forall|j: int| 0 <= j < i ==> self@.rooms[j].room_id != room_id@,
            decreases self.rooms.len() - i,
        {
            proof {
                assert(self@.rooms[i as int] == self.rooms@[i as int].deep_view());
            }
            if self.rooms[i].room_id == *room_id {
                return Some(i);
            }
            i = i + 1;
        }
        None
    }

    fn find_hub_index(&self, room_id: &String) -> (r: Option<usize>)
        ensures
            match r {
                Some(i) => i < self@.hubs.len() && self@.hubs[i as int].0 == room_id@ && forall|
                    j: int,
                |
                    0 <= j < i ==> self@.hubs[j].0 != room_id@,
                None => !has_hub(self@.hubs, room_id@),
            },
    {
        let mut i: usize = 0;
        while i < self.hubs.len()
            invariant
                i <= self.hubs.len(),
                forall|j: int| 0 <= j < i ==> self@.hubs[j].0 != room_id@,
            decreases self.hubs.len() - i,
        {
            proof {
                assert(self@.hubs[i as int] == self.hubs@[i as int].deep_view());
            }
            if self.hubs[i].room_id == *room_id {
                return Some(i);
            }
            i = i + 1;
        }
        None
    }

    /// Whether a record for this id sits in the live map; the caller uses
    /// it to decide which repository lookups a command will need.
    pub fn room_is_live(&self, room_id: &String) -> (r: bool)
        ensures
            r == has_room(self@.rooms, room_id@),
    {
        self.find_room_index(room_id).is_some()
    }

    /// Whether a hub for this id is live.
    pub fn hub_is_live(&self, room_id: &String) -> (r: bool)
        ensures
            r == has_hub(self@.hubs, room_id@),
    {
        self.find_hub_index(room_id).is_some()
    }

    /// A client's connection to this room went away: the hub drops the
    /// member if it was one. A room without a live hub has nothing to do.
    pub fn on_disconnect(&mut self, room_id: &String, client_id: u128) -> (r: HubResult)
        requires
            old(self).wf(),
        ensures
            final(self).wf(),
            ({
                let step = disconnect_route_step(old(self)@, room_id@, client_id);
                &&& final(self)@ == step.storage
                &&& r.outputs.deep_view() == step.outputs
                &&& r.actions.deep_view() == step.actions
            }),
    {
        let ghost s0 = self@;
        match self.find_hub_index(room_id) {
            Some(i) => {
                proof {
                    lemma_hub_at_index(s0.hubs, room_id@, i as int);
                    assert(s0.hubs[i as int] == self.hubs@[i as int].deep_view());
                    assert(hubv_wf(s0.hubs[i as int].1));
                }
                let entry = &mut self.hubs[i];
                let r = entry.hub.on_disconnect(room_id, client_id);
                proof {
                    let hubv = entry.hub@;
                    lemma_hubs_upsert_at(s0.hubs, room_id@, hubv, i as int);
                    assert forall|j: int|
                        0 <= j < self.hubs@.len() implies self.hubs.deep_view()[j] == s0.hubs.update(
                        i as int,
                        (room_id@, hubv),
                    )[j] by {
                        assert(self.hubs.deep_view()[j] == self.hubs@[j].deep_view());
                        if j != i as int {
                            assert(s0.hubs[j] == self.hubs@[j].deep_view());
                        }
                    }
                    assert(self.hubs.deep_view() =~= s0.hubs.update(i as int, (room_id@, hubv)));
                    assert(self@ =~= disconnect_route_step(s0, room_id@, client_id).storage);
                    lemma_wf_after_upsert_only(s0, self@, room_id@, hubv);
                }
                r
            },
            None => {
                let r = HubResult { outputs: parcel_vec0(), actions: action_vec0() };
                proof {
                    assert(r.outputs.deep_view() =~= Seq::<ParcelV>::empty());
                    assert(r.actions.deep_view() =~= Seq::<ActionV>::empty());
                }
                r
            },
        }
    }

    /// `CreateRoom` with the creation time taken as given.
    pub fn create_room_at(&mut self, room_id: String, input: &RoomInput, created_at: i64) -> (r:
        HubResult)
        requires
            old(self).wf(),
        ensures
            final(self).wf(),
            ({
                let step = create_step(old(self)@, room_id@, input@, created_at);
                &&& final(self)@ == step.storage
                &&& r.outputs.deep_view() == step.outputs
                &&& r.actions.deep_view() == step.actions
            }),
    {
        let ghost s0 = self@;
        let ghost step = create_step(s0, room_id@, input@, created_at);

        // reject a taken id
        if let Some(_) = self.find_room_index(&room_id) {
            let r = HubResult {
                outputs: parcel_vec1(
                    OutputParcel::new(
                        room_id.clone(),
                        Addressing::Room,
                        Output::Error(OutputError::RoomNameTaken),
                    ),
                ),
                actions: action_vec0(),
            };
            proof {
                assert(r.outputs.deep_view() =~= step.outputs);
                assert(r.actions.deep_view() =~= step.actions);
            }
            return r;
        }
        proof {
            lemma_not_has_room(s0.rooms, room_id@);
        }

        // the declared participants, an empty list standing for none
        let mut join_list: Vec<User> = Vec::new();
        if let Some(ps) = &input.participants {
            if ps.len() > 0 {
                join_list = duplicate_users(ps);
            }
        }
        let parts_for_room: Option<Vec<User>> = if join_list.len() > 0 {
            Some(duplicate_users(&join_list))
        } else {
            None
        };
        proof {
            assert(join_list.deep_view() =~= match nonempty_or_none(input@.participants) {
                Some(ps) => ps,
                None => Seq::<UserV>::empty(),
            });
        }

        // cache the record
        let room = Room::new(
            room_id.clone(),
            input.room_title.clone(),
            input.host_id,
            input.host_name.clone(),
            parts_for_room,
            created_at,
            String::new(),
            input.delete_key.clone(),
        );
        let ghost roomv = room@;
        let room_copy = room.duplicate();
        let membership = membership_actions_of(&room);
        self.rooms.push(room);
        proof {
            assert(self.rooms.deep_view() =~= s0.rooms.push(roomv));
            assert(self@.hubs == s0.hubs);
        }

        // a fresh hub joins the host, then each declared participant
        let mut hub = Hub::new();
        let host_input = JoinInput { client_id: input.host_id, name: input.host_name.clone() };
        let host_res = hub.process_join(&room_id, input.host_id, &host_input);
        let many_res = hub.join_many(&room_id, &join_list);
        let ghost hubv = hub@;

        // register the hub
        match self.find_hub_index(&room_id) {
            Some(i) => {
                proof {
                    lemma_hubs_upsert_at(s0.hubs, room_id@, hubv, i as int);
                }
                self.hubs.remove(i);
                self.hubs.insert(i, HubEntry { room_id: room_id.clone(), hub });
                proof {
                    assert(self.hubs.deep_view() =~= s0.hubs.update(i as int, (room_id@, hubv)));
                }
            },
            None => {
                proof {
                    lemma_not_has_hub(s0.hubs, room_id@);
                    lemma_hubs_upsert_absent(s0.hubs, room_id@, hubv);
                }
                self.hubs.push(HubEntry { room_id: room_id.clone(), hub });
                proof {
                    assert(self.hubs.deep_view() =~= s0.hubs.push((room_id@, hubv)));
                }
            },
        }

        // persist the room and its membership records, then announce it
        let mut outputs: Vec<OutputParcel> = Vec::new();
        append_parcels(&mut outputs, host_res.outputs);
        append_parcels(&mut outputs, many_res.outputs);
        append_parcels(
            &mut outputs,
            parcel_vec1(
                OutputParcel::new(
                    room_id.clone(),
                    Addressing::Room,
                    Output::RoomCreated(RoomCreatedOutput::new(room_id.clone())),
                ),
            ),
        );
        let mut actions: Vec<Action> = Vec::new();
        append_actions(&mut actions, host_res.actions);
        append_actions(&mut actions, many_res.actions);
        append_actions(&mut actions, action_vec1(Action::SaveRoom(room_copy)));
        append_actions(&mut actions, membership);
        let r = HubResult { outputs, actions };
        proof {
            assert(r.outputs.deep_view() =~= step.outputs);
            assert(r.actions.deep_view() =~= step.actions);
            assert(self@ =~= step.storage);
            assert(hubv_wf(hubv));
            lemma_wf_after_upsert(s0, self@, room_id@, roomv, hubv);
        }
        r
    }

    /// `CreateRoom`: reads the clock, then creates. The step holds for
    /// whatever time was read.
    pub fn create_room(&mut self, room_id: String, input: &RoomInput) -> (r: HubResult)
        requires
            old(self).wf(),
        ensures
            final(self).wf(),
            exists|now: i64|
                {
                    let step = #[trigger] create_step(old(self)@, room_id@, input@, now);
                    &&& final(self)@ == step.storage
                    &&& r.outputs.deep_view() == step.outputs
                    &&& r.actions.deep_view() == step.actions
                },
    {
        let now = now_millis();
        self.create_room_at(room_id, input, now)
    }

    /// `DeleteRoom`: `fetched` is the stored record, handed in for the case
    /// that the room is not live.
    pub fn delete_room(&mut self, input: &RemoveRoomInput, fetched: &Option<Room>) -> (r:
        HubResult)
        requires
            old(self).wf(),
            fetched matches Some(room) ==> room@.room_id == input.room_id@,
        ensures
            final(self).wf(),
            ({
                let step = delete_step(
                    old(self)@,
                    input.room_id@,
                    input.delete_key@,
                    fetched.deep_view(),
                );
                &&& final(self)@ == step.storage
                &&& r.outputs.deep_view() == step.outputs
                &&& r.actions.deep_view() == step.actions
            }),
    {
        let ghost s0 = self@;
        let ghost step = delete_step(s0, input.room_id@, input.delete_key@, fetched.deep_view());

        // resolve the room, live first, then from storage
        let key_ok: bool;
        match self.find_room_index(&input.room_id) {
            Some(i) => {
                proof {
                    lemma_room_at_index(s0.rooms, input.room_id@, i as int);
                    assert(s0.rooms[i as int] == self.rooms@[i as int].deep_view());
                }
                key_ok = self.rooms[i].delete_key == input.delete_key;
            },
            None => {
                match fetched {
                    Some(room) => {
                        key_ok = room.delete_key == input.delete_key;
                    },
                    None => {
                        let r = HubResult {
                            outputs: parcel_vec1(
                                OutputParcel::new(
                                    input.room_id.clone(),
                                    Addressing::Room,
                                    Output::Error(OutputError::RoomNotExists),
                                ),
                            ),
                            actions: action_vec0(),
                        };
                        proof {
                            assert(r.outputs.deep_view() =~= step.outputs);
                            assert(r.actions.deep_view() =~= step.actions);
                        }
                        return r;
                    },
                }
            },
        }

        // a wrong key stops deletion here
        if !key_ok {
            let r = HubResult {
                outputs: parcel_vec1(
                    OutputParcel::new(
                        input.room_id.clone(),
                        Addressing::Room,
                        Output::Error(OutputError::RemoveRoomFailed),
                    ),
                ),
                actions: action_vec0(),
            };
            proof {
                assert(r.outputs.deep_view() =~= step.outputs);
                assert(r.actions.deep_view() =~= step.actions);
            }
            return r;
        }

        // drop record and hub from the live maps
        match self.find_room_index(&input.room_id) {
            Some(i) => {
                proof {
                    lemma_rooms_remove_at(s0.rooms, input.room_id@, i as int);
                }
                self.rooms.remove(i);
                proof {
                    assert(self.rooms.deep_view() =~= s0.rooms.remove(i as int));
                }
            },
            None => {
                proof {
                    lemma_not_has_room(s0.rooms, input.room_id@);
                    lemma_rooms_remove_absent(s0.rooms, input.room_id@);
                }
            },
        }
        match self.find_hub_index(&input.room_id) {
            Some(i) => {
                proof {
                    assert(self@.hubs == s0.hubs);
                    lemma_hubs_remove_at(s0.hubs, input.room_id@, i as int);
                }
                self.hubs.remove(i);
                proof {
                    assert(self.hubs.deep_view() =~= s0.hubs.remove(i as int));
                }
            },
            None => {
                proof {
                    lemma_not_has_hub(s0.hubs, input.room_id@);
                    lemma_hubs_remove_absent(s0.hubs, input.room_id@);
                }
            },
        }

        let r = HubResult {
            outputs: parcel_vec1(
                OutputParcel::new(
                    input.room_id.clone(),
                    Addressing::Room,
                    Output::RoomRemoved(RoomRemovedOutput::new(input.room_id.clone())),
                ),
            ),
            actions: action_vec1(Action::RemoveRoom { room_id: input.room_id.clone() }),
        };
        proof {
            assert(r.outputs.deep_view() =~= step.outputs);
            assert(r.actions.deep_view() =~= step.actions);
            assert(self@ =~= step.storage);
            lemma_wf_after_remove(s0, self@, input.room_id@);
        }
        r
    }

    /// `LoadRoom` at the registry: caches the record on a miss, makes a hub
    /// live if none is, and lets the hub perform the load with the seed.
    pub fn load_room(&mut self, room_id: &String, ctx: &DispatchCtx) -> (r: HubResult)
        requires
            old(self).wf(),
            ctx.room matches Some(room) ==> room@.room_id == room_id@,
        ensures
            final(self).wf(),
            ({
                let step = load_room_step(old(self)@, room_id@, ctx@);
                &&& final(self)@ == step.storage
                &&& r.outputs.deep_view() == step.outputs
                &&& r.actions.deep_view() == step.actions
            }),
    {
        let ghost s0 = self@;
        let ghost step = load_room_step(s0, room_id@, ctx@);

        // the room must be live or in storage
        let live = self.find_room_index(room_id).is_some();
        if !live && !ctx.repo_exists {
            let r = HubResult {
                outputs: parcel_vec1(
                    OutputParcel::new(
                        room_id.clone(),
                        Addressing::Room,
                        Output::Error(OutputError::RoomNotExists),
                    ),
                ),
                actions: action_vec0(),
            };
            proof {
                assert(r.outputs.deep_view() =~= step.outputs);
                assert(r.actions.deep_view() =~= step.actions);
            }
            return r;
        }

        // cache the record on a miss
        if !live {
            if let Some(room) = &ctx.room {
                let ghost roomv = room@;
                self.rooms.push(room.duplicate());
                proof {
                    assert(self.rooms.deep_view() =~= s0.rooms.push(roomv));
                }
            }
        }
        proof {
            assert(self@.rooms == step.storage.rooms);
            assert(self@.hubs == s0.hubs);
        }

        // the hub performs the load
        let r: HubResult;
        let ghost hubv: HubV;
        match self.find_hub_index(room_id) {
            Some(i) => {
                proof {
                    lemma_hub_at_index(s0.hubs, room_id@, i as int);
                    assert(s0.hubs[i as int] == self.hubs@[i as int].deep_view());
                    assert(hubv_wf(s0.hubs[i as int].1));
                }
                let entry = &mut self.hubs[i];
                r = entry.hub.process_load(room_id, &ctx.seed);
                proof {
                    hubv = entry.hub@;
                    lemma_hubs_upsert_at(s0.hubs, room_id@, hubv, i as int);
                    assert forall|j: int|
                        0 <= j < self.hubs@.len() implies self.hubs.deep_view()[j] == s0.hubs.update(
                        i as int,
                        (room_id@, hubv),
                    )[j] by {
                        assert(self.hubs.deep_view()[j] == self.hubs@[j].deep_view());
                        if j != i as int {
                            assert(s0.hubs[j] == self.hubs@[j].deep_view());
                        }
                    }
                    assert(self.hubs.deep_view() =~= s0.hubs.update(i as int, (room_id@, hubv)));
                }
            },
            None => {
                proof {
                    lemma_not_has_hub(s0.hubs, room_id@);
                }
                let mut hub = Hub::new();
                r = hub.process_load(room_id, &ctx.seed);
                proof {
                    hubv = hub@;
                    lemma_hubs_upsert_absent(s0.hubs, room_id@, hubv);
                }
                self.hubs.push(HubEntry { room_id: room_id.clone(), hub });
                proof {
                    assert(self.hubs.deep_view() =~= s0.hubs.push((room_id@, hubv)));
                }
            },
        }
        proof {
            assert(hubv_wf(hubv));
            assert(self@ =~= step.storage);
            lemma_wf_after_upsert_only(s0, self@, room_id@, hubv);
            assert(r.outputs.deep_view() == step.outputs);
            assert(r.actions.deep_view() == step.actions);
        }
        r
    }

    /// Dispatches one command envelope: `Ping` is answered directly, the
    /// room-lifecycle commands are handled here, everything else is routed
    /// to the addressed room's hub. Commands of the user-level registry do
    /// not belong here.
    pub fn process(&mut self, parcel: InputParcel, ctx: &DispatchCtx) -> (r: HubResult)
        requires
            old(self).wf(),
            !(parcel.input is LoadRooms),
            parcel.input is LoadRoom ==> (ctx.room matches Some(room) ==> room@.room_id
                == parcel.room_id@),
            parcel.input is DeleteRoom ==> (ctx.room matches Some(room) ==> room@.room_id
                == parcel.input->DeleteRoom_0.room_id@),
        ensures
            final(self).wf(),
            parcel.input is Ping ==> final(self)@ == old(self)@ && r.outputs.deep_view() == seq![
                ParcelV {
                    room_id: parcel.room_id@,
                    addressing: Addressing::OnlyClient(parcel.client_id),
                    output: OutputV::Pong,
                },
            ] && r.actions.deep_view() == Seq::<ActionV>::empty(),
            parcel.input is LoadRoom ==> ({
                let step = load_room_step(old(self)@, parcel.room_id@, ctx@);
                &&& final(self)@ == step.storage
                &&& r.outputs.deep_view() == step.outputs
                &&& r.actions.deep_view() == step.actions
            }),
            parcel.input is CreateRoom ==> exists|now: i64|
                {
                    let step = #[trigger] create_step(
                        old(self)@,
                        parcel.room_id@,
                        parcel.input->CreateRoom_0@,
                        now,
                    );
                    &&& final(self)@ == step.storage
                    &&& r.outputs.deep_view() == step.outputs
                    &&& r.actions.deep_view() == step.actions
                },
            parcel.input is DeleteRoom ==> ({
                let step = delete_step(
                    old(self)@,
                    parcel.input->DeleteRoom_0.room_id@,
                    parcel.input->DeleteRoom_0.delete_key@,
                    ctx@.room,
                );
                &&& final(self)@ == step.storage
                &&& r.outputs.deep_view() == step.outputs
                &&& r.actions.deep_view() == step.actions
            }),
            parcel.input is JoinRoom ==> ({
                let step = join_route_step(
                    old(self)@,
                    parcel.room_id@,
                    parcel.client_id,
                    trimmed(parcel.input->JoinRoom_0.name@),
                );
                &&& final(self)@ == step.storage
                &&& r.outputs.deep_view() == step.outputs
                &&& r.actions.deep_view() == step.actions
            }),
            parcel.input is PostMessage ==> exists|msg_id: u128, now: i64|
                {
                    let step = #[trigger] post_route_step(
                        old(self)@,
                        parcel.room_id@,
                        parcel.client_id,
                        parcel.input->PostMessage_0.body@,
                        msg_id,
                        now,
                    );
                    &&& final(self)@ == step.storage
                    &&& r.outputs.deep_view() == step.outputs
                    &&& r.actions.deep_view() == step.actions
                },
    {
        match &parcel.input {
            Input::Ping => {
                let r = HubResult {
                    outputs: parcel_vec1(
                        OutputParcel::new(
                            parcel.room_id.clone(),
                            Addressing::OnlyClient(parcel.client_id),
                            Output::Pong,
                        ),
                    ),
                    actions: action_vec0(),
                };
                proof {
                    assert(r.actions.deep_view() =~= Seq::<ActionV>::empty());
                }
                r
            },
            Input::LoadRoom => self.load_room(&parcel.room_id, ctx),
            Input::CreateRoom(input) => self.create_room(parcel.room_id.clone(), input),
            Input::DeleteRoom(input) => self.delete_room(input, &ctx.room),
            Input::JoinRoom(input) => self.route_join(&parcel.room_id, parcel.client_id, input),
            Input::PostMessage(input) => self.route_post(&parcel.room_id, parcel.client_id, input),
            Input::LoadRooms(_) => {
                proof {
                    assert(false);
                }
                HubResult { outputs: parcel_vec0(), actions: action_vec0() }
            },
        }
    }

    /// Routes a `JoinRoom` to the addressed room's hub.
    fn route_join(&mut self, room_id: &String, client_id: u128, input: &JoinInput) -> (r:
        HubResult)
        requires
            old(self).wf(),
        ensures
            final(self).wf(),
            ({
                let step = join_route_step(old(self)@, room_id@, client_id, trimmed(input.name@));
                &&& final(self)@ == step.storage
                &&& r.outputs.deep_view() == step.outputs
                &&& r.actions.deep_view() == step.actions
            }),
    {
        let ghost s0 = self@;
        match self.find_hub_index(room_id) {
            Some(i) => {
                proof {
                    lemma_hub_at_index(s0.hubs, room_id@, i as int);
                    assert(s0.hubs[i as int] == self.hubs@[i as int].deep_view());
                    assert(hubv_wf(s0.hubs[i as int].1));
                }
                let entry = &mut self.hubs[i];
                let r = entry.hub.process_join(room_id, client_id, input);
                proof {
                    let hubv = entry.hub@;
                    lemma_hubs_upsert_at(s0.hubs, room_id@, hubv, i as int);
                    assert forall|j: int|
                        0 <= j < self.hubs@.len() implies self.hubs.deep_view()[j] == s0.hubs.update(
                        i as int,
                        (room_id@, hubv),
                    )[j] by {
                        assert(self.hubs.deep_view()[j] == self.hubs@[j].deep_view());
                        if j != i as int {
                            assert(s0.hubs[j] == self.hubs@[j].deep_view());
                        }
                    }
                    assert(self.hubs.deep_view() =~= s0.hubs.update(i as int, (room_id@, hubv)));
                    assert(self@ =~= join_route_step(s0, room_id@, client_id, trimmed(input.name@)).storage);
                    lemma_wf_after_upsert_only(s0, self@, room_id@, hubv);
                }
                r
            },
            None => {
                let r = HubResult {
                    outputs: parcel_vec1(
                        OutputParcel::new(
                            room_id.clone(),
                            Addressing::Room,
                            Output::Error(OutputError::RoomNotExists),
                        ),
                    ),
                    actions: action_vec0(),
                };
                proof {
                    assert(r.outputs.deep_view() =~= join_route_step(
                        s0,
                        room_id@,
                        client_id,
                        trimmed(input.name@),
                    ).outputs);
                    assert(r.actions.deep_view() =~= Seq::<ActionV>::empty());
                }
                r
            },
        }
    }

    /// Routes a `PostMessage` to the addressed room's hub.
    fn route_post(&mut self, room_id: &String, client_id: u128, input: &PostInput) -> (r:
        HubResult)
        requires
            old(self).wf(),
        ensures
            final(self).wf(),
            exists|msg_id: u128, now: i64|
                {
                    let step = #[trigger] post_route_step(
                        old(self)@,
                        room_id@,
                        client_id,
                        input.body@,
                        msg_id,
                        now,
                    );
                    &&& final(self)@ == step.storage
                    &&& r.outputs.deep_view() == step.outputs
                    &&& r.actions.deep_view() == step.actions
                },
    {
        let ghost s0 = self@;
        match self.find_hub_index(room_id) {
            Some(i) => {
                proof {
                    lemma_hub_at_index(s0.hubs, room_id@, i as int);
                    assert(s0.hubs[i as int] == self.hubs@[i as int].deep_view());
                    assert(hubv_wf(s0.hubs[i as int].1));
                }
                let entry = &mut self.hubs[i];
                let ghost h0 = entry.hub@;
                let r = entry.hub.process_post(room_id, client_id, input);
                proof {
                    let hubv = entry.hub@;
                    let (mid, mts): (u128, i64) = choose|mid: u128, mts: i64|
                        {
                            let hs = #[trigger] post_step(h0, room_id@, client_id, input.body@, mid, mts);
                            &&& hubv == hs.hub
                            &&& r.outputs.deep_view() == hs.outputs
                            &&& r.actions.deep_view() == hs.actions
                        };
                    lemma_hubs_upsert_at(s0.hubs, room_id@, hubv, i as int);
                    assert forall|j: int|
                        0 <= j < self.hubs@.len() implies self.hubs.deep_view()[j] == s0.hubs.update(
                        i as int,
                        (room_id@, hubv),
                    )[j] by {
                        assert(self.hubs.deep_view()[j] == self.hubs@[j].deep_view());
                        if j != i as int {
                            assert(s0.hubs[j] == self.hubs@[j].deep_view());
                        }
                    }
                    assert(self.hubs.deep_view() =~= s0.hubs.update(i as int, (room_id@, hubv)));
                    lemma_wf_after_upsert_only(s0, self@, room_id@, hubv);
                    let stepw = post_route_step(s0, room_id@, client_id, input.body@, mid, mts);
                    assert(self@ =~= stepw.storage);
                    assert(r.outputs.deep_view() == stepw.outputs);
                    assert(r.actions.deep_view() == stepw.actions);
                }
                r
            },
            None => {
                let r = HubResult {
                    outputs: parcel_vec1(
                        OutputParcel::new(
                            room_id.clone(),
                            Addressing::Room,
                            Output::Error(OutputError::RoomNotExists),
                        ),
                    ),
                    actions: action_vec0(),
                };
                proof {
                    let stepw = post_route_step(s0, room_id@, client_id, input.body@, 0u128, 0i64);
                    assert(r.outputs.deep_view() =~= stepw.outputs);
                    assert(r.actions.deep_view() =~= Seq::<ActionV>::empty());
                }
                r
            },
        }
    }
}

/// `!has_room` spelled pointwise.
proof fn lemma_not_has_room(rooms: Seq<RoomV>, id: Seq<char>)
    requires
        !has_room(rooms, id),
    ensures
        forall|j: int| 0 <= j < rooms.len() ==> rooms[j].room_id != id,
{
    assert forall|j: int| 0 <= j < rooms.len() implies rooms[j].room_id != id by {
        if rooms[j].room_id == id {
            assert(has_room(rooms, id));
        }
    }
}

/// `!has_hub` spelled pointwise.
proof fn lemma_not_has_hub(hubs: Seq<(Seq<char>, HubV)>, id: Seq<char>)
    requires
        !has_hub(hubs, id),
    ensures
        forall|j: int| 0 <= j < hubs.len() ==> hubs[j].0 != id,
{
    assert forall|j: int| 0 <= j < hubs.len() implies hubs[j].0 != id by {
        if hubs[j].0 == id {
            assert(has_hub(hubs, id));
        }
    }
}

/// Every entry after an upsert is the new entry or one already present
/// under another id.
proof fn lemma_hubs_upsert_membership(s: Seq<(Seq<char>, HubV)>, id: Seq<char>, h: HubV)
    requires
        unique_hub_ids(s),
    ensures
        forall|k: int|
            0 <= k < hubs_upsert(s, id, h).len() ==> (#[trigger] hubs_upsert(s, id, h)[k] == (id, h)
                || (exists|j: int|
                0 <= j < s.len() && s[j] == hubs_upsert(s, id, h)[k] && s[j].0 != id)),
    decreases s.len(),
{
    if s.len() == 0 {
    } else if s[0].0 == id {
        let r = seq![(id, h)] + s.drop_first();
        assert forall|k: int| 0 <= k < r.len() implies (#[trigger] r[k] == (id, h) || (exists|j: int|
            0 <= j < s.len() && s[j] == r[k] && s[j].0 != id)) by {
            if k > 0 && r[k].0 != id {
                assert(s[k] == r[k]);
            }
            if k > 0 && r[k].0 == id {
                assert(s[k] == r[k]);
                assert(false);
            }
        }
    } else {
        assert forall|a: int, b: int|
            0 <= a < b < s.drop_first().len() implies s.drop_first()[a].0
            != s.drop_first()[b].0 by {
            assert(s.drop_first()[a] == s[a + 1]);
            assert(s.drop_first()[b] == s[b + 1]);
        }
        lemma_hubs_upsert_membership(s.drop_first(), id, h);
        let t = hubs_upsert(s.drop_first(), id, h);
        let r = seq![s[0]] + t;
        assert forall|k: int| 0 <= k < r.len() implies (#[trigger] r[k] == (id, h) || (exists|j: int|
            0 <= j < s.len() && s[j] == r[k] && s[j].0 != id)) by {
            if k == 0 {
                assert(s[0] == r[0] && s[0].0 != id);
            } else {
                assert(r[k] == t[k - 1]);
                if t[k - 1] != (id, h) {
                    let j = choose|j: int|
                        0 <= j < s.drop_first().len() && s.drop_first()[j] == t[k - 1]
                            && s.drop_first()[j].0 != id;
                    assert(s[j + 1] == r[k] && s[j + 1].0 != id);
                }
            }
        }
    }
    if s.len() > 0 && s[0].0 == id {
        assert(hubs_upsert(s, id, h) == seq![(id, h)] + s.drop_first());
    }
}

/// An upsert keeps the hub ids unique.
proof fn lemma_hubs_upsert_unique(s: Seq<(Seq<char>, HubV)>, id: Seq<char>, h: HubV)
    requires
        unique_hub_ids(s),
    ensures
        unique_hub_ids(hubs_upsert(s, id, h)),
    decreases s.len(),
{
    if s.len() == 0 {
    } else if s[0].0 == id {
        let r = seq![(id, h)] + s.drop_first();
        assert forall|i: int, j: int| 0 <= i < j < r.len() implies r[i].0 != r[j].0 by {
            if i > 0 {
                assert(r[i] == s[i]);
            }
            assert(r[j] == s[j]);
        }
    } else {
        lemma_hubs_upsert_unique(s.drop_first(), id, h);
        lemma_hubs_upsert_membership(s.drop_first(), id, h);
        let t = hubs_upsert(s.drop_first(), id, h);
        let r = seq![s[0]] + t;
        assert forall|i: int, j: int| 0 <= i < j < r.len() implies r[i].0 != r[j].0 by {
            if i > 0 {
                assert(r[i] == t[i - 1]);
            }
            assert(r[j] == t[j - 1]);
            if i == 0 {
                assert(t[j - 1] == (id, h) || (exists|q: int|
                    0 <= q < s.drop_first().len() && s.drop_first()[q] == t[j - 1]
                        && s.drop_first()[q].0 != id));
                if t[j - 1] != (id, h) {
                    let q = choose|q: int|
                        0 <= q < s.drop_first().len() && s.drop_first()[q] == t[j - 1]
                            && s.drop_first()[q].0 != id;
                    assert(s[q + 1] == t[j - 1]);
                }
            }
        }
    }
}

/// Registering or replacing one well-formed hub keeps the registry
/// well-formed, rooms aside.
proof fn lemma_wf_after_upsert_only(s0: StorageV, s1: StorageV, room_id: Seq<char>, hubv: HubV)
    requires
        unique_hub_ids(s0.hubs),
        forall|i: int| 0 <= i < s0.hubs.len() ==> hubv_wf(#[trigger] s0.hubs[i].1),
        unique_room_ids(s1.rooms),
        s1.hubs == hubs_upsert(s0.hubs, room_id, hubv),
        hubv_wf(hubv),
    ensures
        storage_wf(s1),
{
    lemma_hubs_upsert_unique(s0.hubs, room_id, hubv);
    lemma_hubs_upsert_membership(s0.hubs, room_id, hubv);
    assert forall|i: int| 0 <= i < s1.hubs.len() implies hubv_wf(#[trigger] s1.hubs[i].1) by {
        if s1.hubs[i] != (room_id, hubv) {
            let j = choose|j: int|
                0 <= j < s0.hubs.len() && s0.hubs[j] == s1.hubs[i] && s0.hubs[j].0 != room_id;
            assert(hubv_wf(s0.hubs[j].1));
        }
    }
}

/// Creating a room keeps the registry well-formed: the new record's id was
/// free, and the registered hub is well-formed.
proof fn lemma_wf_after_upsert(
    s0: StorageV,
    s1: StorageV,
    room_id: Seq<char>,
    room: RoomV,
    hubv: HubV,
)
    requires
        storage_wf(s0),
        !has_room(s0.rooms, room_id),
        room.room_id == room_id,
        s1.rooms == s0.rooms.push(room),
        s1.hubs == hubs_upsert(s0.hubs, room_id, hubv),
        hubv_wf(hubv),
    ensures
        storage_wf(s1),
{
    lemma_not_has_room(s0.rooms, room_id);
    assert forall|a: int, b: int|
        0 <= a < b < s1.rooms.len() implies s1.rooms[a].room_id != s1.rooms[b].room_id by {
        assert(s1.rooms[a] == s0.rooms[a]);
        if b < s1.rooms.len() - 1 {
            assert(s1.rooms[b] == s0.rooms[b]);
        }
    }
    lemma_wf_after_upsert_only(s0, s1, room_id, hubv);
}

/// Every record after a removal was present before.
proof fn lemma_rooms_remove_membership(s: Seq<RoomV>, id: Seq<char>)
    ensures
        forall|k: int|
            0 <= k < rooms_remove(s, id).len() ==> exists|j: int|
                0 <= j < s.len() && s[j] == #[trigger] rooms_remove(s, id)[k],
    decreases s.len(),
{
    if s.len() == 0 {
    } else if s[0].room_id == id {
        assert forall|k: int| 0 <= k < rooms_remove(s, id).len() implies exists|j: int|
            0 <= j < s.len() && s[j] == #[trigger] rooms_remove(s, id)[k] by {
            assert(s[k + 1] == rooms_remove(s, id)[k]);
        }
    } else {
        lemma_rooms_remove_membership(s.drop_first(), id);
        let t = rooms_remove(s.drop_first(), id);
        let r = seq![s[0]] + t;
        assert forall|k: int| 0 <= k < r.len() implies exists|j: int|
            0 <= j < s.len() && s[j] == #[trigger] rooms_remove(s, id)[k] by {
            if k == 0 {
                assert(s[0] == r[0]);
            } else {
                assert(r[k] == t[k - 1]);
                let j = choose|j: int| 0 <= j < s.drop_first().len() && s.drop_first()[j] == t[k - 1];
                assert(s[j + 1] == r[k]);
            }
        }
    }
}

/// A removal keeps the room ids unique.
proof fn lemma_rooms_remove_unique(s: Seq<RoomV>, id: Seq<char>)
    requires
        unique_room_ids(s),
    ensures
        unique_room_ids(rooms_remove(s, id)),
    decreases s.len(),
{
    if s.len() == 0 {
    } else if s[0].room_id == id {
    } else {
        lemma_rooms_remove_unique(s.drop_first(), id);
        lemma_rooms_remove_membership(s.drop_first(), id);
        let t = rooms_remove(s.drop_first(), id);
        let r = seq![s[0]] + t;
        assert forall|a: int, b: int|
            0 <= a < b < r.len() implies r[a].room_id != r[b].room_id by {
            if a > 0 {
                assert(r[a] == t[a - 1]);
            }
            assert(r[b] == t[b - 1]);
            if a == 0 {
                let j = choose|j: int|
                    0 <= j < s.drop_first().len() && s.drop_first()[j] == t[b - 1];
                assert(s[j + 1] == t[b - 1]);
            }
        }
    }
}

/// Every hub after a removal was live before.
proof fn lemma_hubs_remove_membership(s: Seq<(Seq<char>, HubV)>, id: Seq<char>)
    ensures
        forall|k: int|
            0 <= k < hubs_remove(s, id).len() ==> exists|j: int|
                0 <= j < s.len() && s[j] == #[trigger] hubs_remove(s, id)[k],
    decreases s.len(),
{
    if s.len() == 0 {
    } else if s[0].0 == id {
        assert forall|k: int| 0 <= k < hubs_remove(s, id).len() implies exists|j: int|
            0 <= j < s.len() && s[j] == #[trigger] hubs_remove(s, id)[k] by {
            assert(s[k + 1] == hubs_remove(s, id)[k]);
        }
    } else {
        lemma_hubs_remove_membership(s.drop_first(), id);
        let t = hubs_remove(s.drop_first(), id);
        let r = seq![s[0]] + t;
        assert forall|k: int| 0 <= k < r.len() implies exists|j: int|
            0 <= j < s.len() && s[j] == #[trigger] hubs_remove(s, id)[k] by {
            if k == 0 {
                assert(s[0] == r[0]);
            } else {
                assert(r[k] == t[k - 1]);
                let j = choose|j: int| 0 <= j < s.drop_first().len() && s.drop_first()[j] == t[k - 1];
                assert(s[j + 1] == r[k]);
            }
        }
    }
}

/// A removal keeps the hub ids unique.
proof fn lemma_hubs_remove_unique(s: Seq<(Seq<char>, HubV)>, id: Seq<char>)
    requires
        unique_hub_ids(s),
    ensures
        unique_hub_ids(hubs_remove(s, id)),
    decreases s.len(),
{
    if s.len() == 0 {
    } else if s[0].0 == id {
    } else {
        lemma_hubs_remove_unique(s.drop_first(), id);
        lemma_hubs_remove_membership(s.drop_first(), id);
        let t = hubs_remove(s.drop_first(), id);
        let r = seq![s[0]] + t;
        assert forall|a: int, b: int| 0 <= a < b < r.len() implies r[a].0 != r[b].0 by {
            if a > 0 {
                assert(r[a] == t[a - 1]);
            }
            assert(r[b] == t[b - 1]);
            if a == 0 {
                let j = choose|j: int|
                    0 <= j < s.drop_first().len() && s.drop_first()[j] == t[b - 1];
                assert(s[j + 1] == t[b - 1]);
            }
        }
    }
}

/// Removing a room and its hub keeps the registry well-formed.
proof fn lemma_wf_after_remove(s0: StorageV, s1: StorageV, id: Seq<char>)
    requires
        storage_wf(s0),
        s1.rooms == rooms_remove(s0.rooms, id),
        s1.hubs == hubs_remove(s0.hubs, id),
    ensures
        storage_wf(s1),
{
    lemma_rooms_remove_unique(s0.rooms, id);
    lemma_hubs_remove_unique(s0.hubs, id);
    lemma_hubs_remove_membership(s0.hubs, id);
    assert forall|i: int| 0 <= i < s1.hubs.len() implies hubv_wf(#[trigger] s1.hubs[i].1) by {
        let j = choose|j: int| 0 <= j < s0.hubs.len() && s0.hubs[j] == s1.hubs[i];
        assert(hubv_wf(s0.hubs[j].1));
    }
}

} // verus!
