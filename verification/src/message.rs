use vstd::prelude::*;
use crate::user::{User, UserV};
use crate::outside::{fresh_id, now_millis};

verus! {

/// Ghost model of a message.
pub struct MessageV {
    pub id: u128,
    pub author: UserV,
    pub body: Seq<char>,
    pub created_at: i64,
}

/// One chat message. Immutable once created; appended to exactly one
/// room's feed.
pub struct Message {
    pub id: u128,
    pub author: User,
    pub body: String,
    pub created_at: i64,
}

impl View for Message {
    type V = MessageV;

    open spec fn view(&self) -> MessageV {
        MessageV { id: self.id, author: self.author@, body: self.body@, created_at: self.created_at }
    }
}

impl DeepView for Message {
    type V = MessageV;

    open spec fn deep_view(&self) -> MessageV {
        self@
    }
}

impl Message {
    /// A message with a fresh random id and the current timestamp. The id
    /// and timestamp are drawn outside the model, so only the remaining
    /// fields are pinned down.
    pub fn new(author: User, body: &String) -> (m: Message)
        ensures
            m@.author == author@,
            m@.body == body@,
    {
        let id = fresh_id();
        let created_at = now_millis();
        Message::new_create_at(id, author, body, created_at)
    }

    pub fn new_create_at(id: u128, author: User, body: &String, created_at: i64) -> (m: Message)
        ensures
            m@ == (MessageV { id, author: author@, body: body@, created_at }),
    {
        Message { id, author, body: body.clone(), created_at }
    }

    /// A verified copy: equal to `self` field by field.
    pub fn duplicate(&self) -> (m: Message)
        ensures
            m == *self,
    {
        Message {
            id: self.id,
            author: self.author.duplicate(),
            body: self.body.clone(),
            created_at: self.created_at,
        }
    }
}

} // verus!
