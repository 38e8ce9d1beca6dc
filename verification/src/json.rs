//! JSON values, as far as answers and documents are looked into.

use vstd::prelude::*;

use crate::text::same_text;

verus! {

/// A JSON value, as far as it is looked into.
#[derive(Debug)]
pub enum Json {
    /// Null, a boolean or a number: nothing that is looked into.
    Plain,
    /// A string.
    Text(String),
    /// An array.
    Array(Vec<Json>),
    /// An object: its members, each name once.
    Object(Vec<(String, Json)>),
}

/// The place of the first member with this name, or the number of members.
pub open spec fn member_at(members: Seq<(String, Json)>, name: Seq<char>, from: int) -> int
    decreases members.len() - from,
{
    if 0 <= from < members.len() && members[from].0@ != name {
        member_at(members, name, from + 1)
    } else {
        from
    }
}

/// The member of an object with this name.
pub open spec fn member(value: Json, name: Seq<char>) -> Option<Json> {
    match value {
        Json::Object(members) => {
            let at = member_at(members@, name, 0);
            if at < members@.len() {
                Some(members@[at].1)
            } else {
                None
            }
        },
        _ => None,
    }
}

/// The first element of an array.
pub open spec fn first_element(value: Json) -> Option<Json> {
    match value {
        Json::Array(elements) => if elements@.len() > 0 {
            Some(elements@[0])
        } else {
            None
        },
        _ => None,
    }
}

impl Json {
    /// The member of an object with this name.
    pub fn get(&self, name: &str) -> (found: Option<&Json>)
        ensures
            match found {
                Some(value) => member(*self, name@) == Some(*value),
                None => member(*self, name@) is None,
            },
    {
        match self {
            Json::Object(members) => {
                let mut i: usize = 0;
                while i < members.len()
                    invariant
                        *self == Json::Object(*members),
                        i <= members@.len(),
                        member_at(members@, name@, 0) == member_at(members@, name@, i as int),
                    decreases members@.len() - i,
                {
                    if same_text(members[i].0.as_str(), name) {
                        return Some(&members[i].1);
                    }
                    i += 1;
                }
                None
            },
            _ => None,
        }
    }

    /// The first element of an array.
    pub fn first(&self) -> (found: Option<&Json>)
        ensures
            match found {
                Some(value) => first_element(*self) == Some(*value),
                None => first_element(*self) is None,
            },
    {
        match self {
            Json::Array(elements) => if elements.len() > 0 {
                Some(&elements[0])
            } else {
                None
            },
            _ => None,
        }
    }
}

} // verus!
