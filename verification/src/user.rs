use vstd::prelude::*;

verus! {

/// Ghost model of a member: an id and the characters of the display name.
pub struct UserV {
    pub id: u128,
    pub name: Seq<char>,
}

/// A chat participant. Membership maps are keyed by `id`.
pub struct User {
    pub id: u128,
    pub name: String,
}

impl View for User {
    type V = UserV;

    open spec fn view(&self) -> UserV {
        UserV { id: self.id, name: self.name@ }
    }
}

impl DeepView for User {
    type V = UserV;

    open spec fn deep_view(&self) -> UserV {
        self@
    }
}

impl User {
    pub fn new(id: u128, name: &String) -> (u: User)
        ensures
            u@ == (UserV { id, name: name@ }),
    {
        User { id, name: name.clone() }
    }

    /// A verified copy: equal to `self` field by field.
    pub fn duplicate(&self) -> (u: User)
        ensures
            u == *self,
    {
        User { id: self.id, name: self.name.clone() }
    }
}

} // verus!
