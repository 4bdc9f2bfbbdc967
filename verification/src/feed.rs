use vstd::prelude::*;
use crate::message::{Message, MessageV};

verus! {

/// Messages are kept in non-decreasing `created_at` order.
pub open spec fn time_sorted(s: Seq<MessageV>) -> bool {
    forall|i: int, j: int| 0 <= i < j < s.len() ==> s[i].created_at <= s[j].created_at
}

/// Stable insertion by timestamp, scanning from the tail: the new message
/// lands after every existing message whose timestamp is not greater.
pub open spec fn feed_add(s: Seq<MessageV>, m: MessageV) -> Seq<MessageV>
    decreases s.len(),
{
    if s.len() == 0 {
        seq![m]
    } else if s.last().created_at <= m.created_at {
        s.push(m)
    } else {
        feed_add(s.drop_last(), m).push(s.last())
    }
}

/// `feed_add` splits the sequence at one point and puts the new message
/// there: everything after the point is strictly later than the message.
pub proof fn lemma_feed_add_shape(s: Seq<MessageV>, m: MessageV) -> (k: int)
    ensures
        0 <= k <= s.len(),
        feed_add(s, m) =~= s.take(k) + seq![m] + s.skip(k),
        forall|j: int| k <= j < s.len() ==> s[j].created_at > m.created_at,
        k > 0 ==> s[k - 1].created_at <= m.created_at,
    decreases s.len(),
{
    if s.len() == 0 {
        assert(feed_add(s, m) =~= s.take(0) + seq![m] + s.skip(0));
        0
    } else if s.last().created_at <= m.created_at {
        let k = s.len() as int;
        assert(feed_add(s, m) =~= s.take(k) + seq![m] + s.skip(k));
        k
    } else {
        let t = s.drop_last();
        let k = lemma_feed_add_shape(t, m);
        assert(t.take(k) =~= s.take(k));
        assert(t.skip(k).push(s.last()) =~= s.skip(k));
        assert(feed_add(s, m) =~= s.take(k) + seq![m] + s.skip(k));
        assert forall|j: int| k <= j < s.len() implies s[j].created_at > m.created_at by {
            if j < s.len() - 1 {
                assert(s[j] == t[j]);
            } else {
                assert(s[j] == s.last());
            }
        }
        k
    }
}

/// Inserting keeps the order: a sorted feed stays sorted.
pub proof fn lemma_feed_add_sorted(s: Seq<MessageV>, m: MessageV)
    requires
        time_sorted(s),
    ensures
        time_sorted(feed_add(s, m)),
{
    let k = lemma_feed_add_shape(s, m);
    let r = feed_add(s, m);
    assert forall|i: int, j: int| 0 <= i < j < r.len() implies r[i].created_at
        <= r[j].created_at by {
        if i < k {
            assert(r[i] == s[i]);
        } else if i == k {
            assert(r[i] == m);
        } else {
            assert(r[i] == s[i - 1]);
        }
        if j < k {
            assert(r[j] == s[j]);
        } else if j == k {
            assert(r[j] == m);
        } else {
            assert(r[j] == s[j - 1]);
        }
    }
}

/// The time-ordered message history of one room.
pub struct Feed {
    messages: Vec<Message>,
}

impl View for Feed {
    type V = Seq<MessageV>;

    closed spec fn view(&self) -> Seq<MessageV> {
        self.messages.deep_view()
    }
}

impl Feed {
    pub fn new() -> (f: Feed)
        ensures
            f@ =~= Seq::<MessageV>::empty(),
    {
        Feed { messages: Vec::new() }
    }

    /// Inserts the message at its timestamp position; ties go after the
    /// messages already present, so arrival order breaks them.
    pub fn add_message(&mut self, message: Message)
        ensures
            final(self)@ == feed_add(old(self)@, message@),
            time_sorted(old(self)@) ==> time_sorted(final(self)@),
    {
        let ghost s = self@;
        let ghost mv = message@;
        proof {
            assert(s.take(s.len() as int) =~= s);
            assert(s.skip(s.len() as int) =~= Seq::<MessageV>::empty());
            assert(feed_add(s, mv) + s.skip(s.len() as int) =~= feed_add(s, mv));
        }
        let mut idx: usize = self.messages.len();
        while idx > 0 && self.messages[idx - 1].created_at > message.created_at
            invariant
                idx <= self.messages.len(),
                s == self.messages.deep_view(),
                mv == message@,
                feed_add(s, mv) == feed_add(s.take(idx as int), mv) + s.skip(idx as int),
            decreases idx,
        {
            proof {
                let t = s.take(idx as int);
                assert(t.last() == s[idx - 1]);
                assert(t.drop_last() =~= s.take(idx - 1));
                assert(feed_add(t, mv) == feed_add(s.take(idx - 1), mv).push(s[idx - 1]));
                assert(feed_add(s.take(idx - 1), mv).push(s[idx - 1]) + s.skip(idx as int)
                    =~= feed_add(s.take(idx - 1), mv) + s.skip(idx - 1));
            }
            idx = idx - 1;
        }
        proof {
            let t = s.take(idx as int);
            if idx == 0 {
                assert(t =~= Seq::<MessageV>::empty());
                assert(feed_add(t, mv) =~= seq![mv]);
            } else {
                assert(t.last() == s[idx - 1]);
                assert(feed_add(t, mv) == t.push(mv));
            }
            assert(feed_add(s, mv) =~= s.take(idx as int).push(mv) + s.skip(idx as int));
        }
        self.messages.insert(idx, message);
        proof {
            assert(self.messages.deep_view() =~= s.take(idx as int).push(mv) + s.skip(idx as int));
            if time_sorted(s) {
                lemma_feed_add_sorted(s, mv);
            }
        }
    }

    /// The current contents, oldest first. The caller reads under the
    /// owning hub, so the snapshot stays consistent.
    pub fn messages_iter(&self) -> (r: &Vec<Message>)
        ensures
            r.deep_view() == self@,
    {
        &self.messages
    }

    pub fn is_empty(&self) -> (r: bool)
        ensures
            r == (self@.len() == 0),
    {
        self.messages.len() == 0
    }

}

} // verus!
