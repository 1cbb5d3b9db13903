//! The headers of a request.
use vstd::prelude::*;

verus! {

/// `axum::http::HeaderValue`, which the library passes around and never looks into.
#[verifier::external_type_specification]
#[verifier::external_body]
pub struct ExHeaderValue(axum::http::HeaderValue);

/// `axum::http::HeaderMap`, the headers of a request.
#[verifier::external_type_specification]
#[verifier::external_body]
#[verifier::reject_recursive_types(T)]
pub struct ExHeaderMap<T>(axum::http::HeaderMap<T>);

/// The names that a header map holds, in lower case, each with the first of its values.
pub uninterp spec fn first_values(headers: axum::http::HeaderMap) -> Map<Seq<char>, Seq<u8>>;

/// Whether `name` is the name of a header in lower case.
pub open spec fn is_header_name(name: Seq<char>) -> bool {
    &&& 0 < name.len() <= 64
    &&& forall|i: int| 0 <= i < name.len() ==> 'a' <= #[trigger] name[i] <= 'z' || name[i] == '-'
}

/// The first value under a name.
pub open spec fn header_value(headers: axum::http::HeaderMap, name: Seq<char>) -> Option<Seq<u8>> {
    if first_values(headers).contains_key(name) {
        Some(first_values(headers)[name])
    } else {
        None
    }
}

/// Calls `axum::http::HeaderMap::get`, which gives the first value under the name.
#[verifier::external_body]
pub(crate) fn read_header(headers: &axum::http::HeaderMap, name: &str) -> (value: Option<Vec<u8>>)
    requires
        is_header_name(name@),
    ensures
        match value {
            Some(bytes) => first_values(*headers).contains_key(name@) && bytes@ == first_values(
                *headers,
            )[name@],
            None => !first_values(*headers).contains_key(name@),
        },
{
    headers.get(name).map(|value| value.as_bytes().to_vec())
}

/// Whether a byte is a visible ASCII character, a space or a tab.
pub open spec fn is_visible(byte: u8) -> bool {
    32 <= byte < 127 || byte == 9
}

/// The text of a header value: only visible ASCII can be read as text.
pub open spec fn visible_text(value: Seq<u8>) -> Option<Seq<char>> {
    if forall|i: int| 0 <= i < value.len() ==> is_visible(#[trigger] value[i]) {
        Some(value.map_values(|byte: u8| byte as char))
    } else {
        None
    }
}

/// The text of a header, if it is there and can be read as text.
pub open spec fn header_text(value: Option<Seq<u8>>) -> Option<Seq<char>> {
    match value {
        Some(bytes) => visible_text(bytes),
        None => None,
    }
}

/// The text of a header value, if it can be read as text.
pub fn read_visible_text(value: &Vec<u8>) -> (text: Option<String>)
    ensures
        match text {
            Some(read) => visible_text(value@) == Some(read@),
            None => visible_text(value@) is None,
        },
{
    let mut text = String::new();
    let mut i: usize = 0;
    while i < value.len()
        invariant
            i <= value.len(),
            text@ == value@.take(i as int).map_values(|byte: u8| byte as char),
            forall|j: int| 0 <= j < i ==> is_visible(#[trigger] value[j]),
        decreases value.len() - i,
    {
        let byte = value[i];
        if !((32 <= byte && byte < 127) || byte == 9) {
            assert(!is_visible(value@[i as int]));
            return None;
        }
        text.push(byte as char);
        assert(text@ =~= value@.take(i + 1).map_values(|byte: u8| byte as char));
        i = i + 1;
    }
    assert(value@.take(i as int) =~= value@);
    Some(text)
}

/// The text of the header of this name, if it is there and can be read as text.
pub fn read_header_text(headers: &axum::http::HeaderMap, name: &str) -> (text: Option<String>)
    requires
        is_header_name(name@),
    ensures
        match text {
            Some(read) => header_text(header_value(*headers, name@)) == Some(read@),
            None => header_text(header_value(*headers, name@)) is None,
        },
{
    match read_header(headers, name) {
        Some(value) => read_visible_text(&value),
        None => None,
    }
}

/// A header is read as text just if all of its bytes are printable ASCII, spaces or tabs;
/// the text then has a character for each byte, with the same code. A header that is not
/// there has no text.
pub proof fn law_header_text_is_its_bytes(value: Seq<u8>)
    ensures
        header_text(Some(value)) is Some <==> forall|i: int|
            0 <= i < value.len() ==> #[trigger] value[i] == 9 || 32 <= value[i] <= 126,
        header_text(Some(value)) matches Some(text) ==> text.len() == value.len() && forall|i: int|
            0 <= i < value.len() ==> #[trigger] text[i] as u32 == value[i] as u32,
        header_text(None) is None,
{
    if header_text(Some(value)) is Some {
        assert forall|i: int| 0 <= i < value.len() implies #[trigger] value[i] == 9 || 32 <= value[i] <= 126 by {
            assert(is_visible(value[i]));
        }
    }
    if forall|i: int| 0 <= i < value.len() ==> #[trigger] value[i] == 9 || 32 <= value[i] <= 126 {
        assert forall|i: int| 0 <= i < value.len() implies is_visible(#[trigger] value[i]) by {
            assert(value[i] == 9 || 32 <= value[i] <= 126);
        }
    }
}

/// The value of a header is the first one under its name, if there is one.
pub proof fn law_header_value_is_the_first_under_its_name(headers: axum::http::HeaderMap, name: Seq<char>)
    ensures
        header_value(headers, name) is Some <==> first_values(headers).dom().contains(name),
        header_value(headers, name) matches Some(value) ==> value == first_values(headers)[name],
{
}

} // verus!
