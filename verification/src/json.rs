//! A JSON document as a tree of plain values.
//!
//! Text is kept as UTF-8 bytes. A number is an unsigned integer, a negative
//! integer, or a decimal fraction carried in thousandths.

use vstd::prelude::*;
use vstd::string::StringSliceAdditionalSpecFns;
use crate::text::bytes_eq;
use crate::numeral::{is_digit, all_digits, digits_value, parse_bounded};

verus! {

/// A JSON number.
#[derive(Debug, Clone, Copy)]
pub enum JsonNumber {
    /// A non-negative integer.
    Unsigned(u64),
    /// A negative integer.
    Negative(i64),
    /// A number written with a fraction or an exponent, in thousandths.
    Milli(i64),
}

/// One `"key": value` entry of an object.
#[derive(Debug)]
pub struct JsonMember {
    pub key: Vec<u8>,
    pub value: JsonValue,
}

/// A JSON value.
#[derive(Debug)]
pub enum JsonValue {
    Null,
    Bool(bool),
    Number(JsonNumber),
    Text(Vec<u8>),
    Array(Vec<JsonValue>),
    Object(Vec<JsonMember>),
}

/// Index of the first member at or after `from` whose key is `key`.
pub open spec fn first_member(members: Seq<JsonMember>, key: Seq<u8>, from: int) -> Option<int>
    decreases members.len() - from + 1,
{
    if from < 0 || from >= members.len() {
        None
    } else if members[from].key@ == key {
        Some(from)
    } else {
        first_member(members, key, from + 1)
    }
}

/// The array index that a path token spells: `0`, or digits without a
/// leading zero.
pub open spec fn index_token(token: Seq<u8>) -> Option<nat> {
    if token.len() > 0 && all_digits(token) && (token.len() == 1 || token[0] != 48)
        && digits_value(token) <= usize::MAX {
        Some(digits_value(token))
    } else {
        None
    }
}

/// The value reached from `v` by the steps of `path` from index `from` on.
pub open spec fn descend(v: JsonValue, path: Seq<&str>, from: int) -> Option<JsonValue>
    decreases path.len() - from,
{
    if from < 0 || from >= path.len() {
        Some(v)
    } else {
        match v.child(path[from].spec_bytes()) {
            Some(c) => descend(c, path, from + 1),
            None => None,
        }
    }
}

impl JsonValue {
    /// The value at the end of `path`, each step taken by [`JsonValue::child`].
    pub open spec fn at(&self, path: Seq<&str>) -> Option<JsonValue> {
        descend(*self, path, 0)
    }

    /// Follows `path` down from this value.
    pub fn pointer(&self, path: &[&str]) -> (r: Option<&JsonValue>)
        ensures
            match r {
                Some(v) => self.at(path@) == Some(*v),
                None => self.at(path@).is_none(),
            },
    {
        let mut cur: &JsonValue = self;
        let mut i: usize = 0;
        while i < path.len()
            invariant
                i <= path@.len(),
                self.at(path@) == descend(*cur, path@, i as int),
            decreases path@.len() - i,
        {
            match cur.step(path[i].as_bytes()) {
                Some(next) => {
                    cur = next;
                },
                None => {
                    return None;
                },
            }
            i += 1;
        }
        Some(cur)
    }

    /// The value of the first member named `key`, when `self` is an object
    /// that has one.
    pub open spec fn member(&self, key: Seq<u8>) -> Option<JsonValue> {
        match self {
            JsonValue::Object(members) => match first_member(members@, key, 0) {
                Some(i) => Some(members@[i].value),
                None => None,
            },
            _ => None,
        }
    }

    /// One step down a path: a member of an object by name, or an element of
    /// an array by index.
    pub open spec fn child(&self, token: Seq<u8>) -> Option<JsonValue> {
        match self {
            JsonValue::Object(_) => self.member(token),
            JsonValue::Array(items) => match index_token(token) {
                Some(i) => if i < items@.len() {
                    Some(items@[i as int])
                } else {
                    None
                },
                None => None,
            },
            _ => None,
        }
    }

    /// The bytes of a text value.
    pub open spec fn text(&self) -> Option<Seq<u8>> {
        match self {
            JsonValue::Text(t) => Some(t@),
            _ => None,
        }
    }

    /// The elements of an array value.
    pub open spec fn elements(&self) -> Option<Seq<JsonValue>> {
        match self {
            JsonValue::Array(items) => Some(items@),
            _ => None,
        }
    }

    /// Looks up a member of an object by name.
    pub fn get(&self, key: &[u8]) -> (r: Option<&JsonValue>)
        ensures
            match r {
                Some(v) => self.member(key@) == Some(*v),
                None => self.member(key@).is_none(),
            },
    {
        match self {
            JsonValue::Object(members) => {
                let mut i: usize = 0;
                while i < members.len()
                    invariant
                        i <= members@.len(),
                        self matches JsonValue::Object(m) && m == members,
                        first_member(members@, key@, 0) == first_member(members@, key@, i as int),
                    decreases members@.len() - i,
                {
                    if bytes_eq(members[i].key.as_slice(), key) {
                        return Some(&members[i].value);
                    }
                    i += 1;
                }
                None
            },
            _ => None,
        }
    }

    /// Takes one step down a path.
    pub fn step(&self, token: &[u8]) -> (r: Option<&JsonValue>)
        ensures
            match r {
                Some(v) => self.child(token@) == Some(*v),
                None => self.child(token@).is_none(),
            },
    {
        match self {
            JsonValue::Object(_) => self.get(token),
            JsonValue::Array(items) => {
                if token.len() == 0 || (token.len() > 1 && token[0] == 48) {
                    return None;
                }
                match parse_bounded(token, usize::MAX as u64) {
                    Some(i) => {
                        if token[0] == 43 {
                            assert(!is_digit(token@[0]));
                            return None;
                        }
                        if (i as usize) < items.len() {
                            Some(&items[i as usize])
                        } else {
                            None
                        }
                    },
                    None => {
                        None
                    },
                }
            },
            _ => None,
        }
    }

    /// The bytes of a text value.
    pub fn as_text(&self) -> (r: Option<&Vec<u8>>)
        ensures
            match r {
                Some(t) => self.text() == Some(t@),
                None => self.text().is_none(),
            },
    {
        match self {
            JsonValue::Text(t) => Some(t),
            _ => None,
        }
    }

    /// The elements of an array value.
    pub fn as_array(&self) -> (r: Option<&Vec<JsonValue>>)
        ensures
            match r {
                Some(items) => self.elements() == Some(items@),
                None => self.elements().is_none(),
            },
    {
        match self {
            JsonValue::Array(items) => Some(items),
            _ => None,
        }
    }
}

} // verus!
