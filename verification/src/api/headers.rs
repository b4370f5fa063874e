//! Request headers.

use axum::http::{HeaderMap, HeaderValue};
use vstd::prelude::*;

verus! {

/// `axum::http::HeaderMap`, the headers of a request.
#[verifier::external_type_specification]
#[verifier::external_body]
#[verifier::reject_recursive_types(T)]
pub struct ExHeaderMap<T>(axum::http::HeaderMap<T>);

/// `axum::http::HeaderValue`, the bytes of a header.
#[verifier::external_type_specification]
#[verifier::external_body]
pub struct ExHeaderValue(axum::http::HeaderValue);

/// What the headers of a request hold: for each header, by its name in lower case,
/// the bytes of its first value.
pub uninterp spec fn header_fields(headers: HeaderMap) -> Map<Seq<char>, Seq<u8>>;

/// The bytes of a header value.
pub uninterp spec fn value_bytes(value: HeaderValue) -> Seq<u8>;

/// Whether a text is the name of a header in lower case: letters, digits and
/// hyphens.
pub open spec fn is_field_name(s: Seq<char>) -> bool {
    &&& 1 <= s.len() <= 64
    &&& forall|i: int|
        0 <= i < s.len() ==> {
            ||| 'a' <= #[trigger] s[i] <= 'z'
            ||| '0' <= s[i] <= '9'
            ||| s[i] == '-'
        }
}

/// Whether a byte is a visible ASCII character, a space or a tab.
pub open spec fn is_visible(b: u8) -> bool {
    32 <= b < 127 || b == 9
}

/// The text that bytes of visible ASCII stand for. Other bytes have none.
pub open spec fn visible_text(bytes: Seq<u8>) -> Option<Seq<char>> {
    if forall|i: int| 0 <= i < bytes.len() ==> is_visible(#[trigger] bytes[i]) {
        Some(Seq::new(bytes.len(), |i: int| bytes[i] as char))
    } else {
        None
    }
}

/// The text of the first header with a name, where it is visible ASCII.
pub open spec fn header_text(fields: Map<Seq<char>, Seq<u8>>, name: Seq<char>) -> Option<
    Seq<char>,
> {
    if fields.contains_key(name) {
        visible_text(fields[name])
    } else {
        None
    }
}

/// The view of an optional string.
pub open spec fn opt_view(s: Option<String>) -> Option<Seq<char>> {
    match s {
        Some(s) => Some(s@),
        None => None,
    }
}

/// `HeaderMap::get` gives the first value of the header with the name, or `None`
/// where the request has no such header.
#[verifier::external_body]
fn get_header<'a>(headers: &'a HeaderMap, name: &str) -> (r: Option<&'a HeaderValue>)
    requires
        is_field_name(name@),
    ensures
        match r {
            Some(v) => header_fields(*headers).contains_key(name@) && value_bytes(*v)
                == header_fields(*headers)[name@],
            None => !header_fields(*headers).contains_key(name@),
        },
{
    headers.get(name)
}

/// `HeaderValue::to_str` gives the value as text where every byte of it is visible
/// ASCII, a space or a tab, and fails otherwise.
#[verifier::external_body]
fn value_to_str(value: &HeaderValue) -> (r: Option<String>)
    ensures
        opt_view(r) == visible_text(value_bytes(*value)),
{
    match value.to_str() {
        Ok(s) => Some(s.to_string()),
        Err(_) => None,
    }
}

/// The text of the header with the name, where the request has one of visible ASCII.
pub fn get_text(headers: &HeaderMap, name: &str) -> (r: Option<String>)
    requires
        is_field_name(name@),
    ensures
        opt_view(r) == header_text(header_fields(*headers), name@),
{
    match get_header(headers, name) {
        Some(value) => value_to_str(value),
        None => None,
    }
}

} // verus!
