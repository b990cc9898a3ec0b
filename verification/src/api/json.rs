//! JSON documents as plain data.

use vstd::prelude::*;

verus! {

/// A JSON value. A number is kept as the text that stands for it; the
/// members of an object are kept in the order in which the document gives
/// them out.
#[derive(Debug)]
pub enum Json {
    Null,
    Bool(bool),
    Number(String),
    Text(String),
    Array(Vec<Json>),
    Object(Vec<(String, Json)>),
}

/// Index of the first member with the given name at or behind `from`; the
/// number of members where there is none.
pub open spec fn member_at(members: Seq<(String, Json)>, name: Seq<char>, from: int) -> int
    decreases members.len() - from,
{
    if from < 0 || from >= members.len() {
        members.len() as int
    } else if members[from].0@ == name {
        from
    } else {
        member_at(members, name, from + 1)
    }
}

/// The first member with the given name, where there is one.
pub open spec fn member(members: Seq<(String, Json)>, name: Seq<char>) -> Option<Json> {
    if member_at(members, name, 0) < members.len() {
        Some(members[member_at(members, name, 0)].1)
    } else {
        None
    }
}

/// Finds the first member with the given name.
pub fn find_member<'a>(members: &'a Vec<(String, Json)>, name: &str) -> (found: Option<&'a Json>)
    ensures
        match found {
            Some(value) => member(members@, name@) == Some(*value),
            None => member(members@, name@) is None,
        },
{
    let wanted: String = name.to_owned();
    let mut i: usize = 0;
    while i < members.len()
        invariant
            i <= members@.len(),
            wanted@ == name@,
            member_at(members@, name@, 0) == member_at(members@, name@, i as int),
        decreases members@.len() - i,
    {
        if members[i].0 == wanted {
            return Some(&members[i].1);
        }
        i = i + 1;
    }
    None
}

} // verus!
