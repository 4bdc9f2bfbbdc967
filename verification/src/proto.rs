use vstd::prelude::*;
use crate::user::{User, UserV};
use crate::message::MessageV;
use crate::room::{Room, RoomV};
use crate::room_user::{RoomUser, RoomUserV};
use crate::message::Message;

verus! {

/// How an outbound parcel is addressed: to every subscriber of the room,
/// to everyone in the room but one client, or to one client alone.
#[derive(Clone, Copy, PartialEq, Eq, Structural, Debug)]
pub enum Addressing {
    Room,
    AllExceptClient(u128),
    OnlyClient(u128),
}

/// The closed set of user-facing error kinds.
#[derive(Clone, Copy, PartialEq, Eq, Structural, Debug)]
pub enum OutputError {
    RoomNotExists,
    RoomNameTaken,
    HostUserNotExists,
    InvalidRoomName,
    RemoveRoomFailed,
    UserNameTaken,
    InvalidUserName,
    UserNotJoined,
    InvalidMessageBody,
}

/// Payload of `CreateRoom`.
pub struct RoomInput {
    pub room_title: String,
    pub host_id: u128,
    pub host_name: String,
    pub participants: Option<Vec<User>>,
    pub delete_key: String,
}

pub struct RoomInputV {
    pub room_title: Seq<char>,
    pub host_id: u128,
    pub host_name: Seq<char>,
    pub participants: Option<Seq<UserV>>,
    pub delete_key: Seq<char>,
}

impl View for RoomInput {
    type V = RoomInputV;

    open spec fn view(&self) -> RoomInputV {
        RoomInputV {
            room_title: self.room_title@,
            host_id: self.host_id,
            host_name: self.host_name@,
            participants: self.participants.deep_view(),
            delete_key: self.delete_key@,
        }
    }
}

/// Payload of `DeleteRoom`.
pub struct RemoveRoomInput {
    pub room_id: String,
    pub delete_key: String,
}

/// Payload of `JoinRoom`.
pub struct JoinInput {
    pub client_id: u128,
    pub name: String,
}

/// Payload of `PostMessage`.
pub struct PostInput {
    pub client_id: u128,
    pub body: String,
}

/// Payload of `LoadRooms` (user-level registry).
pub struct LoadRoomsInput {
    pub user_id: u128,
}

/// Commands, client to server.
pub enum Input {
    Ping,
    LoadRoom,
    CreateRoom(RoomInput),
    DeleteRoom(RemoveRoomInput),
    JoinRoom(JoinInput),
    PostMessage(PostInput),
    LoadRooms(LoadRoomsInput),
}

/// The unit of inbound work: who sent which command to which room.
pub struct InputParcel {
    pub client_id: u128,
    pub room_id: String,
    pub input: Input,
}

impl InputParcel {
    pub fn new(client_id: u128, room_id: String, input: Input) -> (p: InputParcel)
        ensures
            p.client_id == client_id,
            p.room_id == room_id,
            p.input == input,
    {
        InputParcel { client_id, room_id, input }
    }
}

/// A member as it travels in events.
pub struct UserOutput {
    pub id: u128,
    pub name: String,
}

impl View for UserOutput {
    type V = UserV;

    open spec fn view(&self) -> UserV {
        UserV { id: self.id, name: self.name@ }
    }
}

impl DeepView for UserOutput {
    type V = UserV;

    open spec fn deep_view(&self) -> UserV {
        self@
    }
}

impl UserOutput {
    pub fn new(id: u128, name: &String) -> (u: UserOutput)
        ensures
            u@ == (UserV { id, name: name@ }),
    {
        UserOutput { id, name: name.clone() }
    }

    pub fn duplicate(&self) -> (u: UserOutput)
        ensures
            u == *self,
    {
        UserOutput { id: self.id, name: self.name.clone() }
    }
}

/// A message as it travels in events.
pub struct MessageOutput {
    pub id: u128,
    pub user: UserOutput,
    pub body: String,
    pub created_at: i64,
}

impl View for MessageOutput {
    type V = MessageV;

    open spec fn view(&self) -> MessageV {
        MessageV { id: self.id, author: self.user@, body: self.body@, created_at: self.created_at }
    }
}

impl DeepView for MessageOutput {
    type V = MessageV;

    open spec fn deep_view(&self) -> MessageV {
        self@
    }
}

impl MessageOutput {
    pub fn new(id: u128, user: UserOutput, body: &String, created_at: i64) -> (m: MessageOutput)
        ensures
            m@ == (MessageV { id, author: user@, body: body@, created_at }),
    {
        MessageOutput { id, user, body: body.clone(), created_at }
    }

    pub fn duplicate(&self) -> (m: MessageOutput)
        ensures
            m == *self,
    {
        MessageOutput {
            id: self.id,
            user: self.user.duplicate(),
            body: self.body.clone(),
            created_at: self.created_at,
        }
    }
}

pub struct RoomLoadedOutput {
    pub users: Vec<UserOutput>,
    pub recent_messages: Vec<MessageOutput>,
}

pub struct RoomCreatedOutput {
    pub room_id: String,
}

impl RoomCreatedOutput {
    pub fn new(room_id: String) -> (o: RoomCreatedOutput)
        ensures
            o.room_id == room_id,
    {
        RoomCreatedOutput { room_id }
    }
}

pub struct RoomRemovedOutput {
    pub room_id: String,
}

impl RoomRemovedOutput {
    pub fn new(room_id: String) -> (o: RoomRemovedOutput)
        ensures
            o.room_id == room_id,
    {
        RoomRemovedOutput { room_id }
    }
}

pub struct JoinedOutput {
    pub user: UserOutput,
    pub others: Vec<UserOutput>,
    pub messages: Vec<MessageOutput>,
}

impl JoinedOutput {
    pub fn new(user: UserOutput, others: Vec<UserOutput>, messages: Vec<MessageOutput>) -> (o:
        JoinedOutput)
        ensures
            o.user == user,
            o.others == others,
            o.messages == messages,
    {
        JoinedOutput { user, others, messages }
    }
}

pub struct UserJoinedOutput {
    pub room_id: String,
    pub user: UserOutput,
}

impl UserJoinedOutput {
    pub fn new(room_id: String, user: UserOutput) -> (o: UserJoinedOutput)
        ensures
            o.room_id == room_id,
            o.user == user,
    {
        UserJoinedOutput { room_id, user }
    }
}

pub struct UserLeftOutput {
    pub room_id: String,
    pub user_id: u128,
}

impl UserLeftOutput {
    pub fn new(room_id: String, user_id: u128) -> (o: UserLeftOutput)
        ensures
            o.room_id == room_id,
            o.user_id == user_id,
    {
        UserLeftOutput { room_id, user_id }
    }
}

pub struct PostedOutput {
    pub message: MessageOutput,
}

impl PostedOutput {
    pub fn new(message: MessageOutput) -> (o: PostedOutput)
        ensures
            o.message == message,
    {
        PostedOutput { message }
    }
}

pub struct UserPostedOutput {
    pub message: MessageOutput,
}

impl UserPostedOutput {
    pub fn new(message: MessageOutput) -> (o: UserPostedOutput)
        ensures
            o.message == message,
    {
        UserPostedOutput { message }
    }
}

/// One room-membership entry as reported to a user.
pub struct RoomOutput {
    pub room_id: String,
    pub room_title: String,
    pub user_id: u128,
    pub create_at: i64,
}

pub struct RoomOutputV {
    pub room_id: Seq<char>,
    pub room_title: Seq<char>,
    pub user_id: u128,
    pub create_at: i64,
}

impl View for RoomOutput {
    type V = RoomOutputV;

    open spec fn view(&self) -> RoomOutputV {
        RoomOutputV {
            room_id: self.room_id@,
            room_title: self.room_title@,
            user_id: self.user_id,
            create_at: self.create_at,
        }
    }
}

impl DeepView for RoomOutput {
    type V = RoomOutputV;

    open spec fn deep_view(&self) -> RoomOutputV {
        self@
    }
}

impl RoomOutput {
    pub fn new(room_id: String, room_title: String, user_id: u128, create_at: i64) -> (o:
        RoomOutput)
        ensures
            o@ == (RoomOutputV { room_id: room_id@, room_title: room_title@, user_id, create_at }),
    {
        RoomOutput { room_id, room_title, user_id, create_at }
    }
}

pub struct RoomsLoadedOutput {
    pub rooms: Vec<RoomOutput>,
}

impl RoomsLoadedOutput {
    pub fn new(rooms: Vec<RoomOutput>) -> (o: RoomsLoadedOutput)
        ensures
            o.rooms == rooms,
    {
        RoomsLoadedOutput { rooms }
    }
}

/// Events, server to client.
pub enum Output {
    Pong,
    Error(OutputError),
    RoomLoaded(RoomLoadedOutput),
    RoomCreated(RoomCreatedOutput),
    RoomRemoved(RoomRemovedOutput),
    Joined(JoinedOutput),
    UserJoined(UserJoinedOutput),
    UserLeft(UserLeftOutput),
    Posted(PostedOutput),
    UserPosted(UserPostedOutput),
    RoomsLoaded(RoomsLoadedOutput),
}

/// Ghost model of an event.
pub enum OutputV {
    Pong,
    Error(OutputError),
    RoomLoaded { users: Seq<UserV>, recent_messages: Seq<MessageV> },
    RoomCreated { room_id: Seq<char> },
    RoomRemoved { room_id: Seq<char> },
    Joined { user: UserV, others: Seq<UserV>, messages: Seq<MessageV> },
    UserJoined { room_id: Seq<char>, user: UserV },
    UserLeft { room_id: Seq<char>, user_id: u128 },
    Posted { message: MessageV },
    UserPosted { message: MessageV },
    RoomsLoaded { rooms: Seq<RoomOutputV> },
}

impl View for Output {
    type V = OutputV;

    open spec fn view(&self) -> OutputV {
        match self {
            Output::Pong => OutputV::Pong,
            Output::Error(e) => OutputV::Error(*e),
            Output::RoomLoaded(p) => OutputV::RoomLoaded {
                users: p.users.deep_view(),
                recent_messages: p.recent_messages.deep_view(),
            },
            Output::RoomCreated(p) => OutputV::RoomCreated { room_id: p.room_id@ },
            Output::RoomRemoved(p) => OutputV::RoomRemoved { room_id: p.room_id@ },
            Output::Joined(p) => OutputV::Joined {
                user: p.user@,
                others: p.others.deep_view(),
                messages: p.messages.deep_view(),
            },
            Output::UserJoined(p) => OutputV::UserJoined { room_id: p.room_id@, user: p.user@ },
            Output::UserLeft(p) => OutputV::UserLeft { room_id: p.room_id@, user_id: p.user_id },
            Output::Posted(p) => OutputV::Posted { message: p.message@ },
            Output::UserPosted(p) => OutputV::UserPosted { message: p.message@ },
            Output::RoomsLoaded(p) => OutputV::RoomsLoaded { rooms: p.rooms.deep_view() },
        }
    }
}

impl DeepView for Output {
    type V = OutputV;

    open spec fn deep_view(&self) -> OutputV {
        self@
    }
}

/// Ghost model of an addressed outbound parcel.
pub struct ParcelV {
    pub room_id: Seq<char>,
    pub addressing: Addressing,
    pub output: OutputV,
}

/// The unit of outbound work: an event, the room it concerns, and how it
/// is addressed.
pub struct OutputParcel {
    pub room_id: String,
    pub addressing: Addressing,
    pub output: Output,
}

impl View for OutputParcel {
    type V = ParcelV;

    open spec fn view(&self) -> ParcelV {
        ParcelV { room_id: self.room_id@, addressing: self.addressing, output: self.output@ }
    }
}

impl DeepView for OutputParcel {
    type V = ParcelV;

    open spec fn deep_view(&self) -> ParcelV {
        self@
    }
}

impl OutputParcel {
    pub fn new(room_id: String, addressing: Addressing, output: Output) -> (p: OutputParcel)
        ensures
            p@ == (ParcelV { room_id: room_id@, addressing, output: output@ }),
    {
        OutputParcel { room_id, addressing, output }
    }

    /// Whether this parcel is delivered to the given connected client of
    /// its room.
    pub fn delivers_to(&self, client_id: u128) -> (r: bool)
        ensures
            r == delivers(self.addressing, client_id),
    {
        match self.addressing {
            Addressing::Room => true,
            Addressing::AllExceptClient(ignored) => client_id != ignored,
            Addressing::OnlyClient(target) => client_id == target,
        }
    }
}

/// Delivery rule of the output bus: a room broadcast reaches every
/// subscriber of the room, an ignore-addressed parcel everyone but the
/// named client, a targeted parcel only the named client.
pub open spec fn delivers(addressing: Addressing, client_id: u128) -> bool {
    match addressing {
        Addressing::Room => true,
        Addressing::AllExceptClient(ignored) => client_id != ignored,
        Addressing::OnlyClient(target) => client_id == target,
    }
}

/// Ghost model of a persistence request.
pub enum ActionV {
    SaveUser(UserV),
    SaveMessage { room_id: Seq<char>, message: MessageV },
    SaveRoom(RoomV),
    SaveRoomUser(RoomUserV),
    RemoveRoom { room_id: Seq<char> },
}

/// A fire-and-forget persistence request handed to the repository layer.
/// Failures there never abort the in-memory operation that produced it.
pub enum Action {
    SaveUser(User),
    SaveMessage { room_id: String, message: Message },
    SaveRoom(Room),
    SaveRoomUser(RoomUser),
    RemoveRoom { room_id: String },
}

impl View for Action {
    type V = ActionV;

    open spec fn view(&self) -> ActionV {
        match self {
            Action::SaveUser(u) => ActionV::SaveUser(u@),
            Action::SaveMessage { room_id, message } => ActionV::SaveMessage {
                room_id: room_id@,
                message: message@,
            },
            Action::SaveRoom(r) => ActionV::SaveRoom(r@),
            Action::SaveRoomUser(r) => ActionV::SaveRoomUser(r@),
            Action::RemoveRoom { room_id } => ActionV::RemoveRoom { room_id: room_id@ },
        }
    }
}

impl DeepView for Action {
    type V = ActionV;

    open spec fn deep_view(&self) -> ActionV {
        self@
    }
}

/// A one-parcel output list.
pub fn parcel_vec1(p: OutputParcel) -> (r: Vec<OutputParcel>)
    ensures
        r.deep_view() == seq![p@],
{
    let mut r: Vec<OutputParcel> = Vec::new();
    r.push(p);
    proof {
        assert(r.deep_view()[0] == r@[0].deep_view());
        assert(r.deep_view() =~= seq![p@]);
    }
    r
}

/// A two-parcel output list.
pub fn parcel_vec2(p0: OutputParcel, p1: OutputParcel) -> (r: Vec<OutputParcel>)
    ensures
        r.deep_view() == seq![p0@, p1@],
{
    let mut r: Vec<OutputParcel> = Vec::new();
    r.push(p0);
    r.push(p1);
    proof {
        assert(r.deep_view()[0] == r@[0].deep_view());
        assert(r.deep_view()[1] == r@[1].deep_view());
        assert(r.deep_view() =~= seq![p0@, p1@]);
    }
    r
}

/// An empty output list.
pub fn parcel_vec0() -> (r: Vec<OutputParcel>)
    ensures
        r.deep_view() == Seq::<ParcelV>::empty(),
{
    let r: Vec<OutputParcel> = Vec::new();
    proof {
        assert(r.deep_view() =~= Seq::<ParcelV>::empty());
    }
    r
}

/// A one-action list.
pub fn action_vec1(a: Action) -> (r: Vec<Action>)
    ensures
        r.deep_view() == seq![a@],
{
    let mut r: Vec<Action> = Vec::new();
    r.push(a);
    proof {
        assert(r.deep_view()[0] == r@[0].deep_view());
        assert(r.deep_view() =~= seq![a@]);
    }
    r
}

/// Appends one output list to another, keeping the order.
pub fn append_parcels(acc: &mut Vec<OutputParcel>, more: Vec<OutputParcel>)
    ensures
        final(acc).deep_view() == old(acc).deep_view() + more.deep_view(),
{
    let ghost a = acc.deep_view();
    let ghost av = acc@;
    let ghost b = more.deep_view();
    let ghost bv = more@;
    let mut more = more;
    acc.append(&mut more);
    proof {
        assert forall|j: int| 0 <= j < acc@.len() implies acc.deep_view()[j] == (a + b)[j] by {
            assert(acc.deep_view()[j] == acc@[j].deep_view());
            if j < a.len() {
                assert(a[j] == av[j].deep_view());
            } else {
                assert(b[j - a.len()] == bv[j - a.len()].deep_view());
            }
        }
        assert(acc.deep_view() =~= a + b);
    }
}

/// Appends one action list to another, keeping the order.
pub fn append_actions(acc: &mut Vec<Action>, more: Vec<Action>)
    ensures
        final(acc).deep_view() == old(acc).deep_view() + more.deep_view(),
{
    let ghost a = acc.deep_view();
    let ghost av = acc@;
    let ghost b = more.deep_view();
    let ghost bv = more@;
    let mut more = more;
    acc.append(&mut more);
    proof {
        assert forall|j: int| 0 <= j < acc@.len() implies acc.deep_view()[j] == (a + b)[j] by {
            assert(acc.deep_view()[j] == acc@[j].deep_view());
            if j < a.len() {
                assert(a[j] == av[j].deep_view());
            } else {
                assert(b[j - a.len()] == bv[j - a.len()].deep_view());
            }
        }
        assert(acc.deep_view() =~= a + b);
    }
}

/// An empty action list.
pub fn action_vec0() -> (r: Vec<Action>)
    ensures
        r.deep_view() == Seq::<ActionV>::empty(),
{
    let r: Vec<Action> = Vec::new();
    proof {
        assert(r.deep_view() =~= Seq::<ActionV>::empty());
    }
    r
}

} // verus!
