//! What is seen of a value is what it holds.
use bytes::Bytes;
use vstd::prelude::*;
use crate::error::{failure, Error, ErrorView};
use crate::form::pair_views;
use crate::headers::{header_fields, list_view};
use crate::media_type::{optional_view, MediaType};
use crate::octets::octets;
use crate::outgoing::{Payload, PayloadView};
use crate::parameter::{parameter_views, Parameter, ParameterType, ParameterView};
use crate::parts::{read_views, Part};
use crate::request::{part_views, MultipartPart, RequestBody, RequestBodyView};
use crate::response::{outcome, Headers, HeadersView};
use http::header::HeaderMap;

verus! {

/// A parameter is seen with its name, its value or its octets, and its kind or its
/// media type.
pub proof fn law_parameter_is_seen(
    name: String,
    value: String,
    param_type: ParameterType,
    mime_type: MediaType,
    content: Bytes,
)
    ensures
        (Parameter::SimpleParameter { name, value, param_type })@ == (ParameterView::Simple {
            name: name@,
            value: value@,
            param_type,
        }),
        (Parameter::ComplexParameter { name, mime_type, content })@ == (ParameterView::Complex {
            name: name@,
            mime_type: mime_type@,
            content: octets(content),
        }),
{
}

/// Lists are seen element by element.
pub proof fn law_lists_are_seen(
    parameters: Seq<Parameter>,
    parts: Seq<MultipartPart>,
    read: Seq<Part>,
    pairs: Seq<(String, String)>,
    listed: Seq<(String, Vec<u8>)>,
    i: int,
)
    ensures
        parameter_views(parameters).len() == parameters.len(),
        0 <= i < parameters.len() ==> parameter_views(parameters)[i] == parameters[i]@,
        part_views(parts).len() == parts.len(),
        0 <= i < parts.len() ==> part_views(parts)[i] == parts[i]@,
        read_views(read).len() == read.len(),
        0 <= i < read.len() ==> read_views(read)[i] == read[i]@,
        pair_views(pairs).len() == pairs.len(),
        0 <= i < pairs.len() ==> pair_views(pairs)[i] == (pairs[i].0@, pairs[i].1@),
        list_view(listed).len() == listed.len(),
        0 <= i < listed.len() ==> list_view(listed)[i] == (listed[i].0@, listed[i].1@),
{
}

/// What may be missing is seen if it is there.
pub proof fn law_optional_text_is_seen(text: Option<String>)
    ensures
        text is None <==> optional_view(text) is None,
        text matches Some(t) ==> optional_view(text) == Some(t@),
{
}

/// A part that is sent is seen with its name, its octets and its media type.
pub proof fn law_sent_part_is_seen(part: MultipartPart)
    ensures
        part@.name == part.name@,
        part@.data == octets(part.data),
        part.mime_type is None ==> part@.mime_type is None,
        part.mime_type matches Some(text) ==> part@.mime_type == Some(text@),
{
}

/// A part that was read is seen with its name, its octets and its media type.
pub proof fn law_read_part_is_seen(part: Part)
    ensures
        part@.name == part.name@,
        part@.data == octets(part.data),
        part.content_type is None ==> part@.content_type is None,
        part.content_type matches Some(media_type) ==> part@.content_type == Some(media_type@),
{
}

/// A body is seen with what it carries.
pub proof fn law_body_is_seen(
    data: Bytes,
    content_type: Option<String>,
    text: String,
    parts: Vec<MultipartPart>,
    i: int,
)
    ensures
        (RequestBody::Raw { data, content_type })@ == (RequestBodyView::Raw {
            data: octets(data),
            content_type: match content_type {
                Some(t) => Some(t@),
                None => None,
            },
        }),
        RequestBody::FormUrlEncoded(text)@ == RequestBodyView::FormUrlEncoded(text@),
        RequestBody::Multipart(parts)@ matches RequestBodyView::Multipart(views) && {
            &&& views.len() == parts@.len()
            &&& 0 <= i < parts@.len() ==> views[i] == parts@[i]@
        },
{
}

/// A payload is seen with what it carries.
pub proof fn law_payload_is_seen(data: Bytes, parts: Vec<MultipartPart>, i: int)
    ensures
        Payload::Nothing@ == PayloadView::Nothing,
        Payload::Fields(data)@ == PayloadView::Fields(octets(data)),
        Payload::Form(parts)@ matches PayloadView::Form(views) && {
            &&& views.len() == parts@.len()
            &&& 0 <= i < parts@.len() ==> views[i] == parts@[i]@
        },
{
}

/// Headers are seen with what they hold.
pub proof fn law_headers_are_seen(map: HeaderMap, name: String, content_type: Option<MediaType>)
    ensures
        Headers::HeaderMap(map)@ == HeadersView::HeaderMap(header_fields(map)),
        (Headers::PartHeaders { name, content_type })@ == (HeadersView::PartHeaders {
            name: name@,
            content_type: match content_type {
                Some(media_type) => Some(media_type@),
                None => None,
            },
        }),
{
}

/// An error is seen as the kind that it is.
pub proof fn law_error_is_seen(e: Error)
    ensures
        e is InvalidHeaderName <==> e@ is InvalidHeaderName,
        e is InvalidHeaderValue <==> e@ is InvalidHeaderValue,
        e is TooManyHeaders <==> e@ is TooManyHeaders,
        e is UrlParserError <==> e@ is UrlParserError,
        e is FileError <==> e@ is FileError,
        e is ToStringError <==> e@ is ToStringError,
        e matches Error::HeaderParseError(message) ==> e@ == ErrorView::HeaderParseError(message@),
        e is MimeParseError <==> e@ is MimeParseError,
        e is Utf8Error <==> e@ is Utf8Error,
{
}

/// Results are seen as success or as their error.
pub proof fn law_results_are_seen(done: Result<(), Error>, read: Result<Vec<Parameter>, Error>)
    ensures
        done is Ok ==> failure(done) is None,
        done matches Err(e) ==> failure(done) == Some(e@),
        read matches Ok(parameters) ==> outcome(read) == Ok::<_, ErrorView>(parameter_views(parameters@)),
        read matches Err(e) ==> outcome(read) == Err::<Seq<ParameterView>, _>(e@),
{
}

} // verus!
