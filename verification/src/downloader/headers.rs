//! The request headers: `reqwest`'s `HeaderMap`, seen as a map from the
//! canonical (lower-case) header name to the bytes of the values stored
//! under it, in order.

use reqwest::header::{HeaderMap, HeaderName, HeaderValue};
use vstd::prelude::*;
use vstd::string::*;

verus! {

#[verifier::external_type_specification]
#[verifier::external_body]
#[verifier::reject_recursive_types(T)]
pub struct ExHeaderMap<T>(HeaderMap<T>);

#[verifier::external_type_specification]
#[verifier::external_body]
pub struct ExHeaderValue(HeaderValue);

/// What a header map holds: each header name (canonical bytes) mapped to the
/// bytes of the values stored under it, in the order they were stored. A
/// name present in the map holds at least one value.
pub uninterp spec fn header_entries(m: HeaderMap) -> Map<Seq<u8>, Seq<Seq<u8>>>;

/// How `http` canonicalises one byte of a header name: letters are
/// lower-cased, the other token characters stay, every other byte maps to 0
/// (invalid).
pub open spec fn header_name_byte(b: u8) -> u8 {
    if 97 <= b <= 122 || 48 <= b <= 57 {
        b
    } else if 65 <= b <= 90 {
        (b + 32) as u8
    } else if b == 33 || b == 34 || b == 35 || b == 36 || b == 37 || b == 38 || b == 39
        || b == 42 || b == 43 || b == 45 || b == 46 || b == 94 || b == 95 || b == 96
        || b == 124 || b == 126 {
        b
    } else {
        0
    }
}

/// The canonical form of a header name given as raw bytes, or `None` when
/// those bytes are not a valid header name.
pub open spec fn header_name(raw: Seq<u8>) -> Option<Seq<u8>> {
    if 0 < raw.len() <= 65535 && forall|i: int| 0 <= i < raw.len() ==> header_name_byte(#[trigger] raw[i]) != 0 {
        Some(raw.map_values(|b: u8| header_name_byte(b)))
    } else {
        None
    }
}

/// Header names ignore case: an ASCII capital stands for its small letter;
/// small letters, digits and `-` stand for themselves; control bytes, space,
/// `:`, `/` and bytes beyond ASCII are not allowed in a name.
pub proof fn lemma_header_name_bytes(b: u8)
    ensures
        65 <= b <= 90 ==> header_name_byte(b) == b + 32,
        (97 <= b <= 122 || 48 <= b <= 57 || b == 45) ==> header_name_byte(b) == b,
        (b <= 32 || b == 58 || b == 47 || b >= 127) ==> header_name_byte(b) == 0,
{
}

/// The map that holds no header.
pub open spec fn empty_headers() -> Map<Seq<u8>, Seq<Seq<u8>>> {
    Map::empty()
}

/// A byte that may appear in a header value: visible or extended bytes and tab.
pub open spec fn header_value_byte(b: u8) -> bool {
    (b >= 32 && b != 127) || b == 9
}

pub open spec fn header_value_ok(v: Seq<u8>) -> bool {
    forall|i: int| 0 <= i < v.len() ==> header_value_byte(#[trigger] v[i])
}

/// The first value stored under the header named by `key`, if any (what
/// `HeaderMap::get` gives).
pub open spec fn header_lookup(m: Map<Seq<u8>, Seq<Seq<u8>>>, key: Seq<u8>) -> Option<Seq<u8>> {
    match header_name(key) {
        Some(k) => if m.contains_key(k) { Some(m[k][0]) } else { None },
        None => None,
    }
}

/// A header reads back as it was last set, setting it leaves that value
/// alone under its name, and the other headers stay as they were.
pub proof fn lemma_lookup_after_insert(m: Map<Seq<u8>, Seq<Seq<u8>>>, key: Seq<u8>, value: Seq<u8>, other: Seq<u8>)
    requires
        header_name(key) is Some,
    ensures
        header_lookup(m.insert(header_name(key)->0, seq![value]), key) == Some(value),
        m.insert(header_name(key)->0, seq![value])[header_name(key)->0] == seq![value],
        header_name(other) != header_name(key) ==> header_lookup(m.insert(header_name(key)->0, seq![value]), other) == header_lookup(m, other),
{
}

/// Why a header could not be stored.
#[derive(Debug, Clone, Copy, PartialEq, Eq, Structural)]
pub enum HeaderError {
    /// The name is not a valid header name.
    InvalidName,
    /// The value holds a byte that a header value may not hold.
    InvalidValue,
}

/// `HeaderMap::new`: the new map holds nothing.
#[verifier::external_body]
pub(crate) fn headers_new() -> (m: HeaderMap)
    ensures
        header_entries(m) == empty_headers(),
        header_entries(m).dom().finite(),
{
    HeaderMap::new()
}

/// `HeaderMap::clone` (derived): the copy holds the same entries.
#[verifier::external_body]
pub(crate) fn headers_clone(m: &HeaderMap) -> (c: HeaderMap)
    ensures
        header_entries(c) == header_entries(*m),
{
    m.clone()
}

/// The number of names below which `http` always finds room for one more:
/// its table refuses to grow past 32768 slots, which it only asks for once
/// more than a fifth of them are taken.
pub const HEADER_LIMIT: usize = 6553;

/// A map that has room for one more name.
pub open spec fn header_room(m: Map<Seq<u8>, Seq<Seq<u8>>>) -> bool {
    m.dom().finite() && m.len() < HEADER_LIMIT
}

/// `HeaderMap::insert`, with the name converted by `HeaderName::from_bytes`
/// and the value by `HeaderValue::from_bytes`. The name is canonicalised byte
/// by byte, the value is accepted when every byte is allowed, and an insert
/// replaces every value held under that name.
#[verifier::external_body]
pub(crate) fn headers_insert(m: &mut HeaderMap, key: &[u8], value: &[u8]) -> (r: Result<(), HeaderError>)
    requires
        header_room(header_entries(*old(m))),
    ensures
        header_name(key@) is None ==> (r is Err && r->Err_0 == HeaderError::InvalidName),
        header_name(key@) is Some && !header_value_ok(value@) ==> (r is Err && r->Err_0 == HeaderError::InvalidValue),
        header_name(key@) is Some && header_value_ok(value@) ==> r is Ok,
        r is Ok ==> header_entries(*final(m)) == header_entries(*old(m)).insert(header_name(key@)->0, seq![value@]),
        r is Err ==> header_entries(*final(m)) == header_entries(*old(m)),
{
    let name = match HeaderName::from_bytes(key) {
        Ok(n) => n,
        Err(_) => return Err(HeaderError::InvalidName),
    };
    let val = match HeaderValue::from_bytes(value) {
        Ok(v) => v,
        Err(_) => return Err(HeaderError::InvalidValue),
    };
    m.insert(name, val);
    Ok(())
}

/// `HeaderMap::keys_len`: the number of names in the map (which always
/// holds finitely many).
#[verifier::external_body]
pub(crate) fn headers_len(m: &HeaderMap) -> (n: usize)
    ensures
        n == header_entries(*m).len(),
        header_room(header_entries(*m)) <==> n < HEADER_LIMIT,
{
    m.keys_len()
}

/// `HeaderMap::get` with a name given as bytes, the value handed out as its
/// bytes (`HeaderValue::as_bytes`).
#[verifier::external_body]
pub(crate) fn headers_get(m: &HeaderMap, key: &str) -> (r: Option<Vec<u8>>)
    ensures
        r matches Some(v) ==> header_lookup(header_entries(*m), key.spec_bytes()) == Some(v@),
        r is None ==> header_lookup(header_entries(*m), key.spec_bytes()) is None,
{
    m.get(key).map(|v| v.as_bytes().to_vec())
}

/// `HeaderMap::contains_key` with a name given as a string.
#[verifier::external_body]
pub(crate) fn headers_contains(m: &HeaderMap, key: &str) -> (r: bool)
    ensures
        r == header_lookup(header_entries(*m), key.spec_bytes()) is Some,
{
    m.contains_key(key)
}

} // verus!
