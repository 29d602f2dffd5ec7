//! What reading a response is for: what comes of its headers and its body.
use vstd::prelude::*;
use vstd::utf8::{decode_utf8, encode_utf8, valid_utf8};
use crate::error::ErrorView;
use crate::form::form_pairs;
use crate::headers::{all_visible, field_values, has_room, is_header_name, is_header_value, is_visible, Fields};
use crate::media_type::{mime_boundary, mime_text};
use crate::parameter::{ParameterType, ParameterView};
use crate::parts::{is_opened, mark, may_be_read, multipart_parts, parts_left, source, unread, PartView};
use crate::response::{
    body_parameters, content_gives, followed, found_media_type, found_name, last_texts, part_gives,
    part_headers, parts_give, text_map, HeadersView, Outcome,
};
use crate::text::{after, before, lower, trimmed};
use crate::transfer::{event_gives, line_gives, CollectorView, Event};
use bytes::buf::Reader;
use multipart::server::Multipart;

verus! {

/// Content that is neither made of parts nor a form, by the text of its media
/// type, is one file: it keeps its name, its media type and its octets.
pub proof fn law_other_content_is_one_file(name: Seq<char>, media_type: Seq<char>, body: Seq<u8>, r: Outcome)
    requires
        before(media_type, '/') != "multipart"@,
        before(media_type, ';') != "application/x-www-form-urlencoded"@,
    ensures
        content_gives(name, media_type, body, r) <==> (r matches Ok(parameters) && {
            &&& parameters.len() == 1
            &&& parameters[0] == ParameterView::Complex { name, mime_type: media_type, content: body }
        }),
{
    let file = ParameterView::Complex { name, mime_type: media_type, content: body };
    if let Ok(parameters) = r {
        if parameters.len() == 1 && parameters[0] == file {
            assert(parameters =~= seq![file]);
        }
    }
}

/// A form, by the text of its media type, is one named value for the body for each
/// pair in it, in order.
pub proof fn law_form_gives_its_pairs(name: Seq<char>, media_type: Seq<char>, body: Seq<u8>, r: Outcome)
    requires
        before(media_type, '/') != "multipart"@,
        before(media_type, ';') == "application/x-www-form-urlencoded"@,
        content_gives(name, media_type, body, r),
    ensures
        r matches Ok(parameters) && {
            &&& parameters.len() == form_pairs(body).len()
            &&& forall|i: int|
                0 <= i < parameters.len() ==> (#[trigger] parameters[i]) == (ParameterView::Simple {
                    name: form_pairs(body)[i].0,
                    value: form_pairs(body)[i].1,
                    param_type: ParameterType::Body,
                })
        },
{
}

/// Content that is made of parts is what comes of the parts that can be read of it
/// between the boundaries that its media type names. If it names none, there is an
/// error.
pub proof fn law_parts_need_a_boundary(name: Seq<char>, media_type: Seq<char>, body: Seq<u8>, r: Outcome)
    requires
        before(media_type, '/') == "multipart"@,
        content_gives(name, media_type, body, r),
    ensures
        mime_boundary(media_type) is None ==> r == Err::<Seq<ParameterView>, _>(
            ErrorView::HeaderParseError("Content type multipart misses boundary parameter"@),
        ),
        mime_boundary(media_type) matches Some(boundary) ==> exists|parts: Seq<PartView>, failed: bool| #[trigger]
            may_be_read(body, boundary, parts, failed) && parts_give(parts, failed, r),
{
}

/// What can be read of a body that is made of parts is all that a reader gives
/// which was made for the body and cuts it at two hyphens and the boundary, up to
/// its end or to its failure. Up to 8192 octets that is one thing only.
pub proof fn law_all_parts_are_read(body: Seq<u8>, boundary: Seq<char>, parts: Seq<PartView>, failed: bool)
    requires
        may_be_read(body, boundary, parts, failed),
    ensures
        exists|reader: Multipart<Reader<&[u8]>>|
            {
                &&& #[trigger] source(reader) == body
                &&& mark(reader) == seq![0x2du8, 0x2du8] + encode_utf8(boundary)
                &&& unread(reader) == body.len()
                &&& is_all(parts_left(reader), parts, failed)
            },
        body.len() <= 8192 ==> is_all(multipart_parts(body, boundary), parts, failed),
{
    let reader = choose|reader: Multipart<Reader<&[u8]>>| #[trigger]
        is_opened(reader, body, boundary) && parts_left(reader) == crate::parts::ended(parts, failed);
    assert(source(reader) == body);
}

/// Whether `all` is these parts and, if reading failed, one nothing behind them.
pub open spec fn is_all(all: Seq<Option<PartView>>, parts: Seq<PartView>, failed: bool) -> bool {
    &&& all.len() == parts.len() + if failed {
        1int
    } else {
        0int
    }
    &&& forall|i: int| 0 <= i < parts.len() ==> (#[trigger] all[i]) == Some(parts[i])
    &&& failed ==> all.last() is None
}

/// A part is content under its own name and its own media type. Without a name it
/// is called `result`; without a media type it is octets.
pub proof fn law_part_keeps_its_name(
    name: Seq<char>,
    content_type: Option<Seq<char>>,
    body: Seq<u8>,
    r: Outcome,
)
    ensures
        part_gives(HeadersView::PartHeaders { name, content_type }, body, r) <==> content_gives(
            if name.len() > 0 {
                name
            } else {
                "result"@
            },
            match content_type {
                Some(media_type) => media_type,
                None => "application/octet-stream"@,
            },
            body,
            r,
        ),
{
}

/// A part that is neither a form nor made of parts, and has a name, is one file
/// under exactly that name.
pub proof fn law_named_part_is_one_file(part: PartView, r: Outcome)
    requires
        part.name.len() > 0,
        part.content_type matches Some(media_type) && {
            &&& before(media_type, '/') != "multipart"@
            &&& before(media_type, ';') != "application/x-www-form-urlencoded"@
        },
        part_gives(
            HeadersView::PartHeaders { name: part.name, content_type: part.content_type },
            part.data,
            r,
        ),
    ensures
        r matches Ok(parameters) && {
            &&& parameters.len() == 1
            &&& parameters[0] == ParameterView::Complex {
                name: part.name,
                mime_type: part.content_type->0,
                content: part.data,
            }
        },
{
    law_part_keeps_its_name(part.name, part.content_type, part.data, r);
    law_other_content_is_one_file(part.name, part.content_type->0, part.data, r);
}

/// The octets of a value as characters.
pub open spec fn chars_of(value: Seq<u8>) -> Seq<char> {
    value.map_values(|b: u8| b as char)
}

/// A response is content under the name in its header `content-id`, without white
/// space around it and without quotes, and under the media type in its header
/// `content-type`. The first value of either counts. One that cannot be read is an
/// error.
pub proof fn law_response_has_name_and_type(fields: Fields, body: Seq<u8>, r: Outcome)
    requires
        part_gives(HeadersView::HeaderMap(fields), body, r),
    ensures
        ({
            let id = fields["content-id"@][0];
            let written = fields["content-type"@][0];
            let name = if fields.contains_key("content-id"@) {
                trimmed(chars_of(id)).filter(|c: char| c != '"')
            } else {
                "result"@
            };
            if fields.contains_key("content-id"@) && !is_visible(id) {
                r == Err::<Seq<ParameterView>, _>(ErrorView::ToStringError)
            } else if !fields.contains_key("content-type"@) {
                content_gives(name, "application/octet-stream"@, body, r)
            } else if !is_visible(written) {
                r == Err::<Seq<ParameterView>, _>(ErrorView::ToStringError)
            } else {
                match mime_text(trimmed(chars_of(written))) {
                    Some(media_type) => content_gives(name, media_type, body, r),
                    None => r == Err::<Seq<ParameterView>, _>(ErrorView::MimeParseError),
                }
            }
        }),
{
    let id = fields["content-id"@][0];
    let written = fields["content-type"@][0];
    assert(chars_of(id) =~= crate::percent::ascii_text(id));
    assert(chars_of(written) =~= crate::percent::ascii_text(written));
}

/// Whether `r` is what comes of some parts if `found` comes of the first of them:
/// all that was found, one behind the other, or the error that comes next.
pub open spec fn is_read_in_order(
    parts: Seq<PartView>,
    failed: bool,
    found: Seq<Seq<ParameterView>>,
    r: Outcome,
) -> bool {
    &&& found.len() <= parts.len()
    &&& forall|i: int|
        0 <= i < found.len() ==> part_gives(
            HeadersView::PartHeaders { name: parts[i].name, content_type: parts[i].content_type },
            parts[i].data,
            Ok(#[trigger] found[i]),
        )
    &&& if found.len() < parts.len() {
        let next = parts[found.len() as int];
        r is Err && part_gives(
            HeadersView::PartHeaders { name: next.name, content_type: next.content_type },
            next.data,
            r,
        )
    } else if failed {
        r == Err::<Seq<ParameterView>, _>(ErrorView::FileError)
    } else {
        r == Ok::<_, ErrorView>(found.flatten())
    }
}

/// Parts are read in order, each under its own headers. What comes of them all is
/// given, unless one gives an error, or reading on failed behind the last.
pub proof fn law_parts_are_read_in_order(parts: Seq<PartView>, failed: bool, r: Outcome)
    requires
        parts_give(parts, failed, r),
    ensures
        exists|found: Seq<Seq<ParameterView>>| is_read_in_order(parts, failed, found, r),
    decreases parts.len(),
{
    if parts.len() == 0 {
        let found = Seq::<Seq<ParameterView>>::empty();
        assert(is_read_in_order(parts, failed, found, r));
    } else {
        let (first, rest) = choose|first: Outcome, rest: Outcome|
            {
                &&& r == #[trigger] followed(first, rest)
                &&& part_gives(part_headers(parts[0]), parts[0].data, first)
                &&& first is Ok ==> parts_give(parts.skip(1), failed, rest)
            };
        match first {
            Err(_) => {
                assert(is_read_in_order(parts, failed, Seq::empty(), r));
            },
            Ok(parameters) => {
                let others = parts.skip(1);
                law_parts_are_read_in_order(others, failed, rest);
                let more = choose|more: Seq<Seq<ParameterView>>| is_read_in_order(others, failed, more, rest);
                let found = seq![parameters] + more;
                assert(found.drop_first() =~= more);
                assert forall|i: int| 0 <= i < found.len() implies part_gives(
                    HeadersView::PartHeaders { name: parts[i].name, content_type: parts[i].content_type },
                    parts[i].data,
                    Ok(#[trigger] found[i]),
                ) by {
                    if i > 0 {
                        assert(found[i] == more[i - 1]);
                        assert(parts[i] == others[i - 1]);
                    }
                }
                if more.len() < others.len() {
                    assert(parts[found.len() as int] == others[more.len() as int]);
                }
                assert(is_read_in_order(parts, failed, found, r));
            },
        }
    }
}

/// The name of a part is its own, unless it is empty; that of a response stands in
/// its first `content-id`.
pub proof fn law_name_is_found(name: Seq<char>, content_type: Option<Seq<char>>, fields: Fields)
    ensures
        found_name(HeadersView::PartHeaders { name, content_type }) == Ok::<_, ErrorView>(
            if name.len() > 0 {
                name
            } else {
                "result"@
            },
        ),
        !fields.contains_key("content-id"@) ==> found_name(HeadersView::HeaderMap(fields)) == Ok::<_, ErrorView>(
            "result"@,
        ),
        fields.contains_key("content-id"@) && is_visible(fields["content-id"@][0]) ==> found_name(
            HeadersView::HeaderMap(fields),
        ) == Ok::<_, ErrorView>(trimmed(chars_of(fields["content-id"@][0])).filter(|c: char| c != '"')),
        fields.contains_key("content-id"@) && !is_visible(fields["content-id"@][0]) ==> found_name(
            HeadersView::HeaderMap(fields),
        ) == Err::<Seq<char>, _>(ErrorView::ToStringError),
{
    assert(chars_of(fields["content-id"@][0]) =~= crate::percent::ascii_text(fields["content-id"@][0]));
}

/// The media type of a part is its own, if it has one; that of a response stands in
/// its first `content-type`.
pub proof fn law_media_type_is_found(name: Seq<char>, content_type: Option<Seq<char>>, fields: Fields)
    ensures
        found_media_type(HeadersView::PartHeaders { name, content_type }) == Ok::<_, ErrorView>(
            match content_type {
                Some(media_type) => media_type,
                None => "application/octet-stream"@,
            },
        ),
        !fields.contains_key("content-type"@) ==> found_media_type(HeadersView::HeaderMap(fields)) == Ok::<_, ErrorView>(
            "application/octet-stream"@,
        ),
        fields.contains_key("content-type"@) && is_visible(fields["content-type"@][0]) ==> found_media_type(
            HeadersView::HeaderMap(fields),
        ) == match mime_text(trimmed(chars_of(fields["content-type"@][0]))) {
            Some(media_type) => Ok(media_type),
            None => Err(ErrorView::MimeParseError),
        },
        fields.contains_key("content-type"@) && !is_visible(fields["content-type"@][0]) ==> found_media_type(
            HeadersView::HeaderMap(fields),
        ) == Err::<Seq<char>, _>(ErrorView::ToStringError),
{
    assert(chars_of(fields["content-type"@][0]) =~= crate::percent::ascii_text(fields["content-type"@][0]));
}

/// Each pair of a form is a named value for the body.
pub proof fn law_pairs_are_for_the_body(pairs: Seq<(Seq<char>, Seq<char>)>, i: int)
    ensures
        body_parameters(pairs).len() == pairs.len(),
        0 <= i < pairs.len() ==> body_parameters(pairs)[i] == (ParameterView::Simple {
            name: pairs[i].0,
            value: pairs[i].1,
            param_type: ParameterType::Body,
        }),
{
}

/// Headers can be read as text if and only if every octet of every value is a tab,
/// a space or a printed character of ASCII.
pub proof fn law_visible_headers(fields: Fields)
    ensures
        all_visible(fields) <==> forall|name: Seq<char>, i: int, k: int|
            fields.contains_key(name) && 0 <= i < fields[name].len() && 0 <= k < fields[name][i].len() ==> {
                let b = #[trigger] fields[name][i][k];
                b == 0x09u8 || 0x20u8 <= b < 0x7fu8
            },
{
    if all_visible(fields) {
        assert forall|name: Seq<char>, i: int, k: int|
            fields.contains_key(name) && 0 <= i < fields[name].len() && 0 <= k < fields[name][i].len() implies {
            let b = #[trigger] fields[name][i][k];
            b == 0x09u8 || 0x20u8 <= b < 0x7fu8
        } by {
            assert(is_visible(fields[name][i]));
        }
    }
}

/// The text of the headers: under each name that of its last value.
pub proof fn law_last_value_is_kept(fields: Fields, name: Seq<char>)
    ensures
        last_texts(fields).contains_key(name) <==> fields.contains_key(name),
        fields.contains_key(name) ==> last_texts(fields)[name] == chars_of(fields[name][fields[name].len() - 1]),
{
    if fields.contains_key(name) {
        assert(last_texts(fields)[name] =~= chars_of(fields[name][fields[name].len() - 1]));
    }
}

/// A map of strings is seen as the texts that it holds.
pub proof fn law_text_map(map: Map<Seq<char>, String>, name: Seq<char>)
    ensures
        text_map(map).contains_key(name) <==> map.contains_key(name),
        map.contains_key(name) ==> text_map(map)[name] == map[name]@,
{
}

/// What a line of the head of a response makes of the headers. One that is not
/// UTF-8 is refused. One that starts with `HTTP/` takes all headers away. Any other
/// with a `:` gives the header before it one more value, the text behind it, both
/// without white space around; it is refused if either is not permitted, and
/// otherwise only for want of room. A line that is refused, and one without a `:`,
/// changes nothing.
pub proof fn law_line(fields: Fields, octets: Seq<u8>, error: Option<ErrorView>, result: Fields)
    requires
        line_gives(fields, octets, error, result),
    ensures
        ({
            let line = decode_utf8(octets);
            let name = trimmed(before(line, ':'));
            let value = encode_utf8(trimmed(after(line, ':')));
            if !valid_utf8(octets) {
                error == Some(ErrorView::Utf8Error) && result == fields
            } else if line.contains('/') && before(line, '/') == "HTTP"@ {
                error is None && result == Fields::empty()
            } else if !line.contains(':') {
                error is None && result == fields
            } else if !is_header_name(name) {
                error == Some(ErrorView::InvalidHeaderName) && result == fields
            } else if !is_header_value(value) {
                error == Some(ErrorView::InvalidHeaderValue) && result == fields
            } else if error is None {
                &&& result.contains_key(lower(name))
                &&& result[lower(name)] == if fields.contains_key(lower(name)) {
                    fields[lower(name)].push(value)
                } else {
                    seq![value]
                }
                &&& result.remove(lower(name)) == fields.remove(lower(name))
            } else {
                error == Some(ErrorView::TooManyHeaders) && !has_room(fields) && result == fields
            }
        }),
{
    let line = decode_utf8(octets);
    let name = lower(trimmed(before(line, ':')));
    let value = encode_utf8(trimmed(after(line, ':')));
    if !fields.contains_key(name) {
        assert(Seq::<Seq<u8>>::empty().push(value) =~= seq![value]);
    }
    assert(fields.insert(name, field_values(fields, name).push(value)).remove(name) =~= fields.remove(name));
}

/// A block of the body is put behind the body and touches nothing else. A line of
/// the head touches the headers as long as no line was refused, and the body
/// never.
pub proof fn law_event(state: CollectorView, event: Event, result: CollectorView)
    requires
        event_gives(state, event, result),
    ensures
        event matches Event::Body(block) ==> {
            &&& result.body == state.body + block
            &&& result.fields == state.fields
            &&& result.error == state.error
        },
        event matches Event::Header(line) ==> {
            &&& result.body == state.body
            &&& state.error is None ==> line_gives(state.fields, line, result.error, result.fields)
            &&& state.error is Some ==> result.error == state.error && result.fields == state.fields
        },
{
}

} // verus!
