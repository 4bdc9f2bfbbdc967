use vstd::prelude::*;

verus! {

/// The characters of a string after leading and trailing whitespace are
/// removed. The result depends on the characters alone; it is given a name
/// here because the set of whitespace characters is not restated.
pub uninterp spec fn trimmed(s: Seq<char>) -> Seq<char>;

/// Relies on str::trim: removes leading and trailing whitespace, a function
/// of the characters alone; an empty string stays empty.
#[verifier::external_body]
pub fn trim_str(s: &String) -> (r: String)
    ensures
        r@ == trimmed(s@),
        s@.len() == 0 ==> r@.len() == 0,
{
    s.trim().to_owned()
}

/// Relies on uuid::Uuid::new_v4: a freshly drawn random identifier. Nothing
/// is promised of the value.
#[verifier::external_body]
pub fn fresh_id() -> (r: u128)
{
    uuid::Uuid::new_v4().as_u128()
}

/// Relies on chrono::Utc::now / DateTime::timestamp_millis: the current time
/// as milliseconds since the epoch. Nothing is promised of the value.
#[verifier::external_body]
pub fn now_millis() -> (r: i64)
{
    chrono::Utc::now().timestamp_millis()
}

} // verus!
