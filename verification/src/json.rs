//! JSON values as `rledger` reports them, and field lookup on them.
use vstd::prelude::*;
use crate::bql::same_text;

verus! {

/// A JSON value. Numbers keep their text; an object keeps its members in
/// order, and a lookup finds the last member with the key (as a map that
/// is filled member by member would).
#[derive(Debug)]
pub enum Json {
    Null,
    Bool(bool),
    Number(String),
    Str(String),
    Array(Vec<Json>),
    Object(Vec<(String, Json)>),
}

/// The last member of `members` with key `k`.
pub open spec fn member(members: Seq<(String, Json)>, k: Seq<char>) -> Option<Json>
    decreases members.len(),
{
    if members.len() == 0 {
        None
    } else if members.last().0@ == k {
        Some(members.last().1)
    } else {
        member(members.drop_last(), k)
    }
}

/// `Value::get`: the member of an object with key `k`.
pub open spec fn field(j: Json, k: Seq<char>) -> Option<Json> {
    match j {
        Json::Object(m) => member(m@, k),
        _ => None,
    }
}

/// `value[k]`: the member with key `k`, or `null`.
pub open spec fn index(j: Json, k: Seq<char>) -> Json {
    match field(j, k) {
        Some(v) => v,
        None => Json::Null,
    }
}

/// `Value::as_str`.
pub open spec fn as_str(j: Json) -> Option<Seq<char>> {
    match j {
        Json::Str(s) => Some(s@),
        _ => None,
    }
}

/// `value[k].as_str()`.
pub open spec fn str_at(j: Json, k: Seq<char>) -> Option<Seq<char>> {
    as_str(index(j, k))
}

impl Json {
    /// `Value::get`: the member with key `k`, if this is an object that has one.
    pub fn get(&self, k: &str) -> (r: Option<&Json>)
        ensures
            match r {
                Some(v) => field(*self, k@) == Some(*v),
                None => field(*self, k@) is None,
            },
    {
        match self {
            Json::Object(members) => {
                let mut i: usize = members.len();
                assert(members@.take(i as int) =~= members@);
                while i > 0
                    invariant
                        i <= members.len(),
                        field(*self, k@) == member(members@, k@),
                        member(members@, k@) == member(members@.take(i as int), k@),
                    decreases i,
                {
                    assert(members@.take(i as int).drop_last() =~= members@.take(i - 1));
                    if same_text(members[i - 1].0.as_str(), k) {
                        assert(members@.take(i as int).last() == members@[i - 1]);
                        return Some(&members[i - 1].1);
                    }
                    i = i - 1;
                }
                None
            },
            _ => None,
        }
    }

    /// `value[k]`: the member with key `k`, or `null` (given as `null`).
    pub fn at<'a>(&'a self, k: &str, null: &'a Json) -> (r: &'a Json)
        requires
            *null == Json::Null,
        ensures
            *r == index(*self, k@),
    {
        match self.get(k) {
            Some(v) => v,
            None => null,
        }
    }

    /// `value[k].as_str()`: the member with key `k`, if it is a string.
    pub fn str_at(&self, k: &str) -> (r: Option<&String>)
        ensures
            match r {
                Some(s) => str_at(*self, k@) == Some(s@),
                None => str_at(*self, k@) is None,
            },
    {
        match self.get(k) {
            Some(Json::Str(s)) => Some(s),
            _ => None,
        }
    }

    /// `Value::as_array`.
    pub fn as_array(&self) -> (r: Option<&Vec<Json>>)
        ensures
            match r {
                Some(v) => *self == Json::Array(*v),
                None => !(*self is Array),
            },
    {
        match self {
            Json::Array(v) => Some(v),
            _ => None,
        }
    }
}

} // verus!
