//! The JSON values that the JSON-RPC exchange with rtorrent reads and writes.
use vstd::prelude::*;

verus! {

/// A JSON number as the reply parser classifies it: a non-negative integer, a
/// negative integer, or a floating-point number (kept only by its bit pattern,
/// since nothing here reads its value).
#[derive(Clone, Copy, Debug, PartialEq, Eq, Structural)]
pub enum JsonNumber {
    PosInt(u64),
    NegInt(i64),
    Float(u64),
}

/// A JSON value. An object keeps its members in order.
#[derive(Debug)]
pub enum Json {
    Null,
    Bool(bool),
    Number(JsonNumber),
    String(String),
    Array(Vec<Json>),
    Object(Vec<(String, Json)>),
}

/// The value of the first member of `members` named `key`.
pub open spec fn member_value(members: Seq<(String, Json)>, key: Seq<char>) -> Option<Json>
    decreases members.len(),
{
    if members.len() == 0 {
        None
    } else if members[0].0@ == key {
        Some(members[0].1)
    } else {
        member_value(members.drop_first(), key)
    }
}

/// What looking up `key` in a JSON value gives: a member's value for an object,
/// nothing for any other value.
pub open spec fn json_get(j: Json, key: Seq<char>) -> Option<Json> {
    match j {
        Json::Object(members) => member_value(members@, key),
        _ => None,
    }
}

/// The text of a JSON string.
pub open spec fn json_as_str(j: Json) -> Option<Seq<char>> {
    match j {
        Json::String(s) => Some(s@),
        _ => None,
    }
}

/// A JSON number as an unsigned 64-bit integer, where it is one.
pub open spec fn json_as_u64(j: Json) -> Option<u64> {
    match j {
        Json::Number(JsonNumber::PosInt(u)) => Some(u),
        _ => None,
    }
}

/// A JSON number as a signed 64-bit integer, where it is one.
pub open spec fn json_as_i64(j: Json) -> Option<i64> {
    match j {
        Json::Number(JsonNumber::PosInt(u)) => if u <= i64::MAX { Some(u as i64) } else { None },
        Json::Number(JsonNumber::NegInt(i)) => Some(i),
        _ => None,
    }
}

/// The elements of a JSON array.
pub open spec fn json_as_array(j: Json) -> Option<Seq<Json>> {
    match j {
        Json::Array(v) => Some(v@),
        _ => None,
    }
}

/// A JSON string holding exactly `s`.
pub open spec fn is_json_str(j: Json, s: Seq<char>) -> bool {
    json_as_str(j) == Some(s)
}

impl Json {
    /// Builds a JSON string from text.
    pub fn from_str(s: &str) -> (j: Json)
        ensures
            is_json_str(j, s@),
    {
        Json::String(String::from_str(s))
    }

    /// Looks up a member of an object by name; the first member of that name wins.
    pub fn get(&self, key: &str) -> (r: Option<&Json>)
        ensures
            match r {
                Some(v) => json_get(*self, key@) == Some(*v),
                None => json_get(*self, key@) is None,
            },
    {
        match self {
            Json::Object(members) => {
                let k = String::from_str(key);
                let mut i: usize = 0;
                assert(members@.skip(0) =~= members@);
                while i < members.len()
                    invariant
                        0 <= i <= members.len(),
                        k@ == key@,
                        json_get(*self, key@) == member_value(members@, key@),
                        member_value(members@, key@) == member_value(members@.skip(i as int), key@),
                    decreases members.len() - i,
                {
                    proof {
                        assert(members@.skip(i as int).drop_first() =~= members@.skip(i + 1));
                        assert(members@.skip(i as int)[0] == members@[i as int]);
                    }
                    if members[i].0 == k {
                        return Some(&members[i].1);
                    }
                    i = i + 1;
                }
                None
            },
            _ => None,
        }
    }

    /// The text of a string value.
    pub fn as_str(&self) -> (r: Option<&str>)
        ensures
            match r {
                Some(s) => json_as_str(*self) == Some(s@),
                None => json_as_str(*self) is None,
            },
    {
        match self {
            Json::String(s) => Some(s.as_str()),
            _ => None,
        }
    }

    /// The value of an unsigned integer that fits in 64 bits.
    pub fn as_u64(&self) -> (r: Option<u64>)
        ensures
            r == json_as_u64(*self),
    {
        match self {
            Json::Number(JsonNumber::PosInt(u)) => Some(*u),
            _ => None,
        }
    }

    /// The value of an integer that fits in a signed 64-bit integer.
    pub fn as_i64(&self) -> (r: Option<i64>)
        ensures
            r == json_as_i64(*self),
    {
        match self {
            Json::Number(JsonNumber::PosInt(u)) => if *u <= 9223372036854775807u64 { Some(*u as i64) } else { None },
            Json::Number(JsonNumber::NegInt(i)) => Some(*i),
            _ => None,
        }
    }

    /// The elements of an array.
    pub fn as_array(&self) -> (r: Option<&Vec<Json>>)
        ensures
            match r {
                Some(v) => json_as_array(*self) == Some(v@),
                None => json_as_array(*self) is None,
            },
    {
        match self {
            Json::Array(v) => Some(v),
            _ => None,
        }
    }
}

} // verus!
