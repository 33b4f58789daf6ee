use vstd::prelude::*;

use crate::models::meta::Timestamp;
use rand::Rng;

verus! {

/// Relies on time's `OffsetDateTime::now_utc` and `unix_timestamp_nanos`:
/// the current time, in nanoseconds since the Unix epoch.
#[verifier::external_body]
pub(crate) fn current_time() -> (r: Timestamp) {
    time::OffsetDateTime::now_utc().unix_timestamp_nanos()
}

/// Relies on rand's `Rng::gen_range` on `thread_rng`: a value drawn from
/// `0..len`, which it panics on when empty.
#[verifier::external_body]
pub(crate) fn random_index(len: usize) -> (r: usize)
    requires
        len > 0,
    ensures
        r < len,
{
    rand::thread_rng().gen_range(0..len)
}

} // verus!

verus! {

/// Crockford's base 32 digits, as ULIDs are written: value `v` is the
/// character at position `v`.
pub open spec fn ulid_alphabet() -> Seq<char> {
    seq!['0', '1', '2', '3', '4', '5', '6', '7', '8', '9', 'A', 'B', 'C', 'D', 'E', 'F', 'G', 'H', 'J', 'K', 'M', 'N', 'P', 'Q', 'R', 'S', 'T', 'V', 'W', 'X', 'Y', 'Z']
}

/// The same digits with lower case letters.
pub open spec fn ulid_alphabet_lower() -> Seq<char> {
    seq!['0', '1', '2', '3', '4', '5', '6', '7', '8', '9', 'a', 'b', 'c', 'd', 'e', 'f', 'g', 'h', 'j', 'k', 'm', 'n', 'p', 'q', 'r', 's', 't', 'v', 'w', 'x', 'y', 'z']
}

/// The value of the digit `c`, in either case, searching from value `v` up.
pub open spec fn ulid_digit(c: char, v: int) -> Option<int>
    decreases 32 - v,
{
    if v < 0 || v >= 32 {
        None
    } else if ulid_alphabet()[v] == c || ulid_alphabet_lower()[v] == c {
        Some(v)
    } else {
        ulid_digit(c, v + 1)
    }
}

/// The first `k` characters of `s` read as base 32 digits, most significant
/// first, keeping the low 128 bits; `None` if one of them is no digit.
pub open spec fn ulid_prefix_value(s: Seq<char>, k: int) -> Option<int>
    decreases k,
{
    if k <= 0 {
        Some(0)
    } else {
        match (ulid_prefix_value(s, k - 1), ulid_digit(s[k - 1], 0)) {
            (Some(acc), Some(d)) => Some(
                (acc * 32 + d) % (u128::MAX as int + 1),
            ),
            _ => None,
        }
    }
}

/// The number that a ULID text encodes: 26 base 32 digits, most significant
/// first; `None` for any other text.
pub open spec fn ulid_decode(s: Seq<char>) -> Option<u128> {
    if s.len() != 26 {
        None
    } else {
        match ulid_prefix_value(s, 26) {
            Some(v) => Some(v as u128),
            None => None,
        }
    }
}

/// The canonical ULID text of a number: 26 upper case base 32 digits, the
/// digit at position `i` holding bits `5 * (25 - i)` and up.
pub open spec fn ulid_text(n: u128) -> Seq<char> {
    Seq::new(
        26,
        |i: int| ulid_alphabet()[((n >> ((125 - 5 * i) as u128)) & 31u128) as int],
    )
}

/// Relies on ulid's `Ulid::from_string`: decodes Crockford base 32 text of
/// 26 digits, as `ulid_decode` states.
#[verifier::external_body]
fn parse_ulid(s: &str) -> (r: Option<u128>)
    ensures
        r == ulid_decode(s@),
{
    ulid::Ulid::from_string(s).ok().map(|u| u.0)
}

/// Relies on ulid's `Ulid::to_string`: the canonical text, as `ulid_text`
/// states.
#[verifier::external_body]
fn ulid_to_string(n: u128) -> (r: String)
    ensures
        r@ == ulid_text(n),
{
    ulid::Ulid(n).to_string()
}

/// Relies on `str::split_once`: splits at the first `:`, if there is one.
#[verifier::external_body]
fn split_at_colon(s: &str) -> (r: Option<(&str, &str)>)
    ensures
        match r {
            Some((a, b)) => s@ == a@ + seq![':'] + b@ && !a@.contains(':'),
            None => !s@.contains(':'),
        },
{
    s.split_once(':')
}

/// A record id: the name of a table and a ULID key.
#[derive(Debug, Clone, PartialEq, Eq)]
pub struct Thing {
    pub tb: String,
    pub id: u128,
}

/// Why a text is not a record id.
#[derive(Debug, Clone, Copy, PartialEq, Eq, Structural)]
pub enum ThingError {
    /// The text is not two parts separated by one `:`.
    NotTwoParts,
    /// The second part is not a ULID.
    NotUlid,
}

/// `s` is `table`, a `:`, and `key`, neither part holding a `:`.
pub open spec fn record_parts(s: Seq<char>, table: Seq<char>, key: Seq<char>) -> bool {
    s == table + seq![':'] + key && !table.contains(':') && !key.contains(':')
}

/// Parses `table:ULID` into a record id.
pub fn thing_from_string(thing_string: &str) -> (r: Result<Thing, ThingError>)
    ensures
        match r {
            Ok(t) => exists|key: Seq<char>|
                record_parts(thing_string@, t.tb@, key) && ulid_decode(key) == Some(t.id),
            Err(ThingError::NotTwoParts) => !exists|table: Seq<char>, key: Seq<char>|
                record_parts(thing_string@, table, key),
            Err(ThingError::NotUlid) => exists|table: Seq<char>, key: Seq<char>|
                record_parts(thing_string@, table, key) && ulid_decode(key) is None,
        },
{
    let s = thing_string;
    match split_at_colon(s) {
        None => {
            proof {
                assert forall|table: Seq<char>, key: Seq<char>| !record_parts(s@, table, key) by {
                    if s@ == table + seq![':'] + key {
                        assert(s@[table.len() as int] == ':');
                    }
                }
            }
            Err(ThingError::NotTwoParts)
        },
        Some((table, rest)) => {
            match split_at_colon(rest) {
                Some((mid, tail)) => {
                    proof {
                        let i = table@.len() as int;
                        let j = i + 1 + mid@.len();
                        assert(s@[i] == ':');
                        assert(s@[j] == rest@[mid@.len() as int]);
                        assert(rest@[mid@.len() as int] == ':');
                        assert forall|ta: Seq<char>, key: Seq<char>| !record_parts(s@, ta, key) by {
                            if record_parts(s@, ta, key) {
                                let m = ta.len() as int;
                                assert forall|k: int| 0 <= k < s@.len() && s@[k] == ':' implies k
                                    == m by {
                                    if k < m {
                                        assert(ta[k] == s@[k]);
                                    } else if k > m {
                                        assert(key[k - m - 1] == s@[k]);
                                    }
                                }
                            }
                        }
                    }
                    Err(ThingError::NotTwoParts)
                },
                None => {
                    assert(record_parts(s@, table@, rest@));
                    match parse_ulid(rest) {
                        Some(id) => Ok(Thing { tb: table.to_owned(), id }),
                        None => Err(ThingError::NotUlid),
                    }
                },
            }
        },
    }
}

impl Thing {
    /// The text `table:ULID` of this record id.
    pub fn to_record_string(&self) -> (r: String)
        ensures
            r@ == self.tb@ + seq![':'] + ulid_text(self.id),
    {
        let mut r = self.tb.clone();
        r.append(":");
        let key = ulid_to_string(self.id);
        r.append(key.as_str());
        proof {
            reveal_strlit(":");
        }
        r
    }
}

} // verus!

verus! {

/// The reference text of person `id`: `person:` and the ULID text of the id.
pub open spec fn person_ref_text(id: usize) -> Seq<char> {
    "person"@ + seq![':'] + ulid_text(id as u128)
}

/// The reference of person `id`, as audit records and session tokens hold it.
pub fn person_ref(id: usize) -> (r: String)
    ensures
        r@ == person_ref_text(id),
{
    let t = Thing { tb: "person".to_owned(), id: id as u128 };
    t.to_record_string()
}

} // verus!
