//! Helpers of the access check at the HTTP boundary: who a request is
//! from, which signing key a token names, and how long a fetched key set
//! stays fresh.

use vstd::prelude::*;
use crate::numeral::{parse_bounded, parse_uint};
use crate::text::{bytes_eq, lit, split, split_on, strip_prefix, trim, trimmed, views, without_prefix};

verus! {

/// The user that a request is from.
#[derive(Clone, Debug)]
pub struct AuthContext {
    pub email: Vec<u8>,
}

/// One signing key of a key set.
#[derive(Clone, Debug)]
pub struct Jwk {
    pub kid: Vec<u8>,
    pub kty: Vec<u8>,
    pub n: Vec<u8>,
    pub e: Vec<u8>,
}

/// A key set.
#[derive(Clone, Debug)]
pub struct Jwks {
    pub keys: Vec<Jwk>,
}

/// Index of the first key at or after `from` whose identifier is `kid`.
pub open spec fn key_index(keys: Seq<Jwk>, kid: Seq<u8>, from: int) -> Option<int>
    decreases keys.len() - from + 1,
{
    if from < 0 || from >= keys.len() {
        None
    } else if keys[from].kid@ == kid {
        Some(from)
    } else {
        key_index(keys, kid, from + 1)
    }
}

impl Jwks {
    /// The first key with the identifier `kid`.
    pub fn key(&self, kid: &[u8]) -> (r: Option<&Jwk>)
        ensures
            match r {
                Some(k) => key_index(self.keys@, kid@, 0) matches Some(i) && self.keys@[i] == *k,
                None => key_index(self.keys@, kid@, 0).is_none(),
            },
    {
        let mut i: usize = 0;
        while i < self.keys.len()
            invariant
                i <= self.keys@.len(),
                key_index(self.keys@, kid@, 0) == key_index(self.keys@, kid@, i as int),
            decreases self.keys@.len() - i,
        {
            if bytes_eq(self.keys[i].kid.as_slice(), kid) {
                return Some(&self.keys[i]);
            }
            i += 1;
        }
        None
    }
}

/// Whether a key set that expires at `expires_at` is still fresh at `now`.
pub fn is_fresh(expires_at: Option<u64>, now: u64) -> (r: bool)
    ensures
        r == (expires_at matches Some(t) && now < t),
{
    match expires_at {
        Some(t) => now < t,
        None => false,
    }
}

/// The age limit after the first `n` directives of a `Cache-Control` value:
/// the number of the last `s-maxage=`, or else of the first `max-age=`
/// seen while no limit was known. A directive whose number cannot be read
/// leaves no limit.
pub open spec fn max_age_in(parts: Seq<Seq<u8>>, n: int) -> Option<u64>
    decreases n,
{
    if n <= 0 {
        None
    } else {
        let before = max_age_in(parts, n - 1);
        let part = trimmed(parts[n - 1]);
        match without_prefix(part, lit("s-maxage=")) {
            Some(v) => match parse_uint(v, 0xFFFF_FFFF_FFFF_FFFF) {
                Some(a) => Some(a as u64),
                None => None,
            },
            None => match without_prefix(part, lit("max-age=")) {
                Some(v) => if before.is_none() {
                    match parse_uint(v, 0xFFFF_FFFF_FFFF_FFFF) {
                        Some(a) => Some(a as u64),
                        None => None,
                    }
                } else {
                    before
                },
                None => before,
            },
        }
    }
}

/// How many seconds a fetched key set stays fresh: the age limit of its
/// `Cache-Control` header where that is above zero, else the default.
pub open spec fn cache_ttl(cache_control: Option<Seq<u8>>, default_ttl: u64) -> u64 {
    match cache_control {
        Some(v) => {
            let parts = split_on(v, seq![44u8]);
            match max_age_in(parts, parts.len() as int) {
                Some(a) => if a > 0 {
                    a
                } else {
                    default_ttl
                },
                None => default_ttl,
            }
        },
        None => default_ttl,
    }
}

/// Reads a number of seconds.
fn parse_age(v: &[u8]) -> (r: Option<u64>)
    ensures
        r == match parse_uint(v@, 0xFFFF_FFFF_FFFF_FFFF) {
            Some(a) => Some(a as u64),
            None => None,
        },
{
    parse_bounded(v, 0xFFFF_FFFF_FFFF_FFFF)
}

/// How many seconds a fetched key set stays fresh, from the value of the
/// `Cache-Control` header of the answer that carried it.
pub fn cache_ttl_from_headers(cache_control: Option<&[u8]>, default_ttl: u64) -> (r: u64)
    ensures
        r == cache_ttl(
            match cache_control {
                Some(v) => Some(v@),
                None => None,
            },
            default_ttl,
        ),
{
    let value = match cache_control {
        Some(v) => v,
        None => {
            return default_ttl;
        },
    };
    let comma: [u8; 1] = [44u8];
    assert(comma@ =~= seq![44u8]);
    let parts = split(value, comma.as_slice());
    let ghost all = views(parts@);
    let mut max_age: Option<u64> = None;
    let mut i: usize = 0;
    while i < parts.len()
        invariant
            i <= parts@.len(),
            all == views(parts@),
            max_age == max_age_in(all, i as int),
        decreases parts@.len() - i,
    {
        assert(all[i as int] == parts@[i as int]@);
        let part = trim(parts[i].as_slice());
        match strip_prefix(part.as_slice(), "s-maxage=".as_bytes()) {
            Some(v) => {
                max_age = parse_age(v.as_slice());
            },
            None => {
                match strip_prefix(part.as_slice(), "max-age=".as_bytes()) {
                    Some(v) => {
                        if max_age.is_none() {
                            max_age = parse_age(v.as_slice());
                        }
                    },
                    None => {},
                }
            },
        }
        i += 1;
    }
    match max_age {
        Some(a) => if a > 0 {
            a
        } else {
            default_ttl
        },
        None => default_ttl,
    }
}

} // verus!
