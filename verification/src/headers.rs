//! `http::HeaderMap`, in which request and response headers are held.
use http::header::{
    HeaderMap, HeaderName, HeaderValue, InvalidHeaderName, InvalidHeaderValue, MaxSizeReached, ToStrError,
};
use vstd::prelude::*;
use vstd::utf8::encode_utf8;
use crate::percent::ascii_text;
use crate::text::lower;

verus! {

/// `http`'s header value: octets, of which a [`HeaderMap`] keeps several.
#[verifier::external_type_specification]
#[verifier::external_body]
pub struct ExHeaderValue(http::header::HeaderValue);

/// `http`'s header map: header names, each with one or more values.
#[verifier::external_type_specification]
#[verifier::external_body]
#[verifier::reject_recursive_types(T)]
pub struct ExHeaderMap<T>(http::header::HeaderMap<T>);

/// Header names in small letters, each with its values in the order in which
/// they were added.
pub type Fields = Map<Seq<char>, Seq<Seq<u8>>>;

/// What a header map holds.
pub uninterp spec fn header_fields(map: HeaderMap<HeaderValue>) -> Fields;

/// The characters of an HTTP token.
pub open spec fn is_token_char(c: char) -> bool {
    ||| 'a' <= c <= 'z'
    ||| 'A' <= c <= 'Z'
    ||| '0' <= c <= '9'
    ||| c == '!'
    ||| c == '#'
    ||| c == '$'
    ||| c == '%'
    ||| c == '&'
    ||| c == '\''
    ||| c == '*'
    ||| c == '+'
    ||| c == '-'
    ||| c == '.'
    ||| c == '^'
    ||| c == '_'
    ||| c == '`'
    ||| c == '|'
    ||| c == '~'
}

/// Whether a text is a header name: a token that is neither empty nor longer
/// than 65535 characters.
pub open spec fn is_header_name(s: Seq<char>) -> bool {
    &&& 0 < s.len() <= 65535
    &&& forall|i: int| 0 <= i < s.len() ==> is_token_char(#[trigger] s[i])
}

/// A header name in small letters is a header name, and is its own small form.
pub proof fn lemma_lower_name(name: Seq<char>)
    requires
        is_header_name(name),
    ensures
        is_header_name(lower(name)),
        lower(lower(name)) == lower(name),
{
    assert(lower(lower(name)) =~= lower(name));
}

/// Whether octets are a header value: a tab, or anything from the space on
/// except the delete character.
pub open spec fn is_header_value(octets: Seq<u8>) -> bool {
    forall|i: int|
        0 <= i < octets.len() ==> {
            let b = #[trigger] octets[i];
            b == 0x09u8 || b >= 0x20u8 && b != 0x7fu8
        }
}

/// Whether octets are visible ASCII: tabs, spaces and printed characters.
pub open spec fn is_visible(octets: Seq<u8>) -> bool {
    forall|i: int|
        0 <= i < octets.len() ==> {
            let b = #[trigger] octets[i];
            b == 0x09u8 || 0x20u8 <= b < 0x7fu8
        }
}

/// Whether all values of all headers are visible ASCII.
pub open spec fn all_visible(fields: Fields) -> bool {
    forall|name: Seq<char>, i: int|
        fields.contains_key(name) && 0 <= i < fields[name].len() ==> is_visible(
            #[trigger] fields[name][i],
        )
}

/// Whether a header map is sure to take one more header: below this count of
/// names `http` does not refuse.
pub open spec fn has_room(fields: Fields) -> bool {
    fields.dom().len() < 6554
}

/// The values of a header, of which there may be none.
pub open spec fn field_values(fields: Fields, name: Seq<char>) -> Seq<Seq<u8>> {
    if fields.contains_key(name) {
        fields[name]
    } else {
        Seq::empty()
    }
}

/// The values that a list of pairs gives to a name, in order.
pub open spec fn listed_values(pairs: Seq<(Seq<char>, Seq<u8>)>, name: Seq<char>) -> Seq<Seq<u8>>
    decreases pairs.len(),
{
    if pairs.len() == 0 {
        Seq::empty()
    } else if pairs.last().0 == name {
        listed_values(pairs.drop_last(), name).push(pairs.last().1)
    } else {
        listed_values(pairs.drop_last(), name)
    }
}

/// `pairs` lists `fields`: every value of every header once, the values of one
/// header in their order, the headers in any. Names are in small letters.
pub open spec fn lists(pairs: Seq<(Seq<char>, Seq<u8>)>, fields: Fields) -> bool {
    &&& forall|name: Seq<char>| #[trigger]
        listed_values(pairs, name) == field_values(fields, name)
    &&& forall|name: Seq<char>| #[trigger] fields.contains_key(name) ==> fields[name].len() > 0
    &&& forall|i: int| 0 <= i < pairs.len() ==> is_header_value((#[trigger] pairs[i]).1)
    &&& forall|i: int| 0 <= i < pairs.len() ==> lower((#[trigger] pairs[i]).0) == pairs[i].0
}

/// Names and values as the list of a header map gives them.
pub open spec fn list_view(pairs: Seq<(String, Vec<u8>)>) -> Seq<(Seq<char>, Seq<u8>)> {
    pairs.map_values(|p: (String, Vec<u8>)| (p.0@, p.1@))
}

/// A value that is listed under a name stands in a pair with that name.
pub proof fn lemma_listed_from(pairs: Seq<(Seq<char>, Seq<u8>)>, name: Seq<char>, j: int)
    requires
        0 <= j < listed_values(pairs, name).len(),
    ensures
        pairs.contains((name, listed_values(pairs, name)[j])),
    decreases pairs.len(),
{
    if pairs.len() > 0 {
        let front = pairs.drop_last();
        let value = listed_values(pairs, name)[j];
        if j < listed_values(front, name).len() {
            lemma_listed_from(front, name, j);
            let i = choose|i: int| 0 <= i < front.len() && front[i] == (name, value);
            assert(pairs[i] == (name, value));
        } else {
            assert(pairs[pairs.len() - 1] == (name, value));
        }
    }
}

/// A value that stands in a pair is listed under its name.
pub proof fn lemma_listed_has(pairs: Seq<(Seq<char>, Seq<u8>)>, i: int)
    requires
        0 <= i < pairs.len(),
    ensures
        listed_values(pairs, pairs[i].0).contains(pairs[i].1),
    decreases pairs.len(),
{
    let name = pairs[i].0;
    let front = pairs.drop_last();
    let before = listed_values(front, name);
    let values = listed_values(pairs, name);
    if i < pairs.len() - 1 {
        lemma_listed_has(front, i);
        let j = choose|j: int| 0 <= j < before.len() && before[j] == pairs[i].1;
        assert(values[j] == pairs[i].1);
    } else {
        assert(values[values.len() - 1] == pairs[i].1);
    }
}

/// Headers are all visible if all the pairs that list them are.
pub proof fn lemma_visible(pairs: Seq<(Seq<char>, Seq<u8>)>, fields: Fields)
    requires
        lists(pairs, fields),
        forall|k: int| 0 <= k < pairs.len() ==> is_visible((#[trigger] pairs[k]).1),
    ensures
        all_visible(fields),
{
    assert forall|name: Seq<char>, j: int|
        fields.contains_key(name) && 0 <= j < fields[name].len() implies is_visible(
        #[trigger] fields[name][j],
    ) by {
        assert(listed_values(pairs, name) == field_values(fields, name));
        lemma_listed_from(pairs, name, j);
        let k = choose|k: int| 0 <= k < pairs.len() && pairs[k] == (name, fields[name][j]);
        assert(is_visible(pairs[k].1));
    }
}

/// Headers are not all visible if one of the pairs that list them is not.
pub proof fn lemma_not_visible(pairs: Seq<(Seq<char>, Seq<u8>)>, fields: Fields, k: int)
    requires
        lists(pairs, fields),
        0 <= k < pairs.len(),
        !is_visible(pairs[k].1),
    ensures
        !all_visible(fields),
{
    let name = pairs[k].0;
    lemma_listed_has(pairs, k);
    let values = listed_values(pairs, name);
    let j = choose|j: int| 0 <= j < values.len() && values[j] == pairs[k].1;
    assert(values == field_values(fields, name));
    assert(fields[name][j] == pairs[k].1);
}

/// `HeaderName::from_str`: the name in small letters, or an error where the
/// text is no header name.
#[verifier::external_body]
pub(crate) fn header_name(text: &str) -> (r: Result<String, InvalidHeaderName>)
    ensures
        r is Ok <==> is_header_name(text@),
        r matches Ok(name) ==> name@ == lower(text@),
{
    let name: HeaderName = text.parse()?;
    Ok(name.as_str().to_owned())
}

/// `HeaderValue::from_str`: the UTF-8 octets of the text, or an error where
/// they are no header value.
#[verifier::external_body]
pub(crate) fn header_value(text: &str) -> (r: Result<Vec<u8>, InvalidHeaderValue>)
    ensures
        r is Ok <==> is_header_value(encode_utf8(text@)),
        r matches Ok(value) ==> value@ == encode_utf8(text@),
{
    let value = HeaderValue::from_str(text)?;
    Ok(value.as_bytes().to_vec())
}

/// `HeaderValue::to_str`: the value as text, or an error where it holds
/// anything but visible ASCII.
#[verifier::external_body]
pub(crate) fn header_text(value: &[u8]) -> (r: Result<String, ToStrError>)
    requires
        is_header_value(value@),
    ensures
        r is Ok <==> is_visible(value@),
        r matches Ok(text) ==> text@ == ascii_text(value@),
{
    let value = HeaderValue::from_bytes(value).expect("a header value");
    Ok(value.to_str()?.to_owned())
}

/// `HeaderMap::new`: no headers.
#[verifier::external_body]
pub(crate) fn no_headers() -> (r: HeaderMap)
    ensures
        header_fields(r) == Fields::empty(),
{
    HeaderMap::new()
}

/// `HeaderMap::clear`: takes every header out.
#[verifier::external_body]
pub(crate) fn clear_headers(map: &mut HeaderMap)
    ensures
        header_fields(*final(map)) == Fields::empty(),
{
    map.clear()
}

/// `HeaderMap::remove`: takes every value of the header out. The case of the
/// name does not matter.
#[verifier::external_body]
pub(crate) fn remove_header(map: &mut HeaderMap, name: &str)
    requires
        is_header_name(name@),
    ensures
        header_fields(*final(map)) == header_fields(*old(map)).remove(lower(name@)),
{
    map.remove(name);
}

/// `HeaderMap::contains_key`: whether the header has a value. The case of the
/// name does not matter.
#[verifier::external_body]
pub(crate) fn has_header(map: &HeaderMap, name: &str) -> (r: bool)
    requires
        is_header_name(name@),
    ensures
        r == header_fields(*map).contains_key(lower(name@)),
{
    map.contains_key(name)
}

/// `HeaderMap::get`: the first value of the header. The case of the name does
/// not matter.
#[verifier::external_body]
pub(crate) fn first_value(map: &HeaderMap, name: &str) -> (r: Option<Vec<u8>>)
    requires
        is_header_name(name@),
    ensures
        r is Some <==> header_fields(*map).contains_key(lower(name@)),
        r matches Some(value) ==> value@ == header_fields(*map)[lower(name@)][0],
        r matches Some(value) ==> is_header_value(value@),
{
    match map.get(name) {
        Some(value) => Some(value.as_bytes().to_vec()),
        None => None,
    }
}

/// `HeaderMap::try_insert`: gives the header this one value in place of those
/// that it had, or refuses and leaves the map as it was. It does not refuse
/// while the map has room.
#[verifier::external_body]
pub(crate) fn insert_header(map: &mut HeaderMap, name: &str, value: &[u8]) -> (r: Result<(), MaxSizeReached>)
    requires
        is_header_name(name@),
        is_header_value(value@),
    ensures
        has_room(header_fields(*old(map))) ==> r is Ok,
        r is Ok ==> header_fields(*final(map)) == header_fields(*old(map)).insert(lower(name@), seq![value@]),
        r is Err ==> header_fields(*final(map)) == header_fields(*old(map)),
{
    let name: HeaderName = name.parse().expect("a header name");
    let value = HeaderValue::from_bytes(value).expect("a header value");
    map.try_insert(name, value)?;
    Ok(())
}

/// `HeaderMap::try_append`: gives the header this value behind those that it
/// had, or refuses and leaves the map as it was. It does not refuse while the
/// map has room.
#[verifier::external_body]
pub(crate) fn append_header(map: &mut HeaderMap, name: &str, value: &[u8]) -> (r: Result<(), MaxSizeReached>)
    requires
        is_header_name(name@),
        is_header_value(value@),
    ensures
        has_room(header_fields(*old(map))) ==> r is Ok,
        r is Ok ==> header_fields(*final(map)) == header_fields(*old(map)).insert(
            lower(name@),
            field_values(header_fields(*old(map)), lower(name@)).push(value@),
        ),
        r is Err ==> header_fields(*final(map)) == header_fields(*old(map)),
{
    let name: HeaderName = name.parse().expect("a header name");
    let value = HeaderValue::from_bytes(value).expect("a header value");
    map.try_append(name, value)?;
    Ok(())
}

/// `HeaderMap::iter`: the headers and their values, the names in small letters.
/// The values of one header come in their order; nothing is said of the order
/// of the headers.
#[verifier::external_body]
pub(crate) fn list_headers(map: &HeaderMap) -> (r: Vec<(String, Vec<u8>)>)
    ensures
        lists(list_view(r@), header_fields(*map)),
{
    map.iter().map(|(name, value)| (name.as_str().to_owned(), value.as_bytes().to_vec())).collect()
}

} // verus!
