//! What this library relies on of the `http` header types that `reqwest`
//! re-exports. Nothing in this file is proved; each item states what the
//! `http` source shows of the function or type it names.

use reqwest::header::{HeaderMap, HeaderValue, ToStrError};
use vstd::prelude::*;

verus! {

/// `http::HeaderMap`, a multimap from header names to header values.
#[verifier::external_type_specification]
#[verifier::external_body]
#[verifier::reject_recursive_types(T)]
pub struct ExHeaderMap<T>(HeaderMap<T>);

/// `http::HeaderValue`, the bytes of one header value.
#[verifier::external_type_specification]
#[verifier::external_body]
pub struct ExHeaderValue(HeaderValue);

/// `http::header::ToStrError`, returned when a header value is not visible ASCII.
#[verifier::external_type_specification]
#[verifier::external_body]
pub struct ExToStrError(ToStrError);

/// What a header map holds: for each header name it holds (in lower case, as
/// `http` stores names), the values stored under that name, oldest first.
pub uninterp spec fn header_entries(map: HeaderMap) -> Map<Seq<char>, Seq<Seq<u8>>>;

/// The bytes of a header value.
pub uninterp spec fn header_value_bytes(value: HeaderValue) -> Seq<u8>;

/// A header name as the library looks one up: non-empty, made of lower-case
/// ASCII letters, digits and `-`.
pub open spec fn is_lower_header_name(name: Seq<char>) -> bool {
    &&& name.len() > 0
    &&& forall|i: int|
        0 <= i < name.len() ==> {
            let c = #[trigger] name[i];
            ('a' <= c && c <= 'z') || ('0' <= c && c <= '9') || c == '-'
        }
}

/// A byte `http` accepts in a header value it turns into text: a tab or a
/// printable ASCII character.
pub open spec fn is_visible_ascii(b: u8) -> bool {
    (32 <= b && b < 127) || b == 9
}

pub open spec fn all_visible_ascii(bytes: Seq<u8>) -> bool {
    forall|i: int| 0 <= i < bytes.len() ==> is_visible_ascii(#[trigger] bytes[i])
}

/// The text that a run of ASCII bytes spells.
pub open spec fn ascii_text(bytes: Seq<u8>) -> Seq<char> {
    bytes.map_values(|b: u8| b as char)
}

/// Calls `HeaderMap::new`, which the `http` source documents as creating an
/// empty map; claimed: the map holds no entries.
#[verifier::external_body]
pub(crate) fn new_header_map() -> (map: HeaderMap)
    ensures
        header_entries(map).dom().is_empty(),
{
    HeaderMap::new()
}

/// Calls `HeaderMap::get` with a lower-case name given as text. The `http`
/// source looks such a name up as the header of that name and returns the
/// first value stored under it; claimed: the result is present exactly when
/// the map holds the name, and then it is the oldest value stored under it.
#[verifier::external_body]
pub(crate) fn header_get<'a>(map: &'a HeaderMap, name: &str) -> (value: Option<&'a HeaderValue>)
    requires
        is_lower_header_name(name@),
    ensures
        value is Some <==> header_entries(*map).dom().contains(name@),
        value matches Some(v) ==> header_entries(*map)[name@].len() > 0 && header_value_bytes(*v)
            == header_entries(*map)[name@][0],
{
    map.get(name)
}

/// Calls `HeaderValue::to_str`. The `http` source returns an error exactly
/// when some byte is neither a tab nor printable ASCII, and otherwise the bytes
/// themselves as text; claimed: exactly that.
#[verifier::external_body]
pub(crate) fn header_value_to_str(value: &HeaderValue) -> (text: Result<&str, ToStrError>)
    ensures
        text is Ok <==> all_visible_ascii(header_value_bytes(*value)),
        text matches Ok(s) ==> s@ == ascii_text(header_value_bytes(*value)),
{
    value.to_str()
}

} // verus!
