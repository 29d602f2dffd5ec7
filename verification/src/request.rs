//! Requests: where they go and what they carry.
use bytes::Bytes;
use http::header::HeaderMap;
use vstd::prelude::*;
use vstd::utf8::encode_utf8;
use crate::error::{Error, ErrorView};
use crate::form::form_text;
use crate::headers::{has_header, header_fields, is_header_name, Fields};
use crate::media_type::optional_view;
use crate::octets::{octets, own_octets};
use crate::parameter::{lemma_views_push, parameter_views, Parameter, ParameterType, ParameterView};
use crate::percent::{encode_pair, encoded_pair, is_form_char};
use crate::text::{
    after, before, join_text, lemma_first_at, lemma_unmarked, lower, split_on, split_once, split_text, trim_end,
    trimmed_end,
};

verus! {

/// The method of a request.
#[derive(Debug, Clone, PartialEq)]
pub enum Method {
    GET,
    PUT,
    POST,
    HEAD,
    DELETE,
    PATCH,
}

/// The parameters that a query string spells: one for each piece between its
/// `&`s, the name before the first `=` and the value after it.
pub open spec fn query_parameters(query: Seq<char>) -> Seq<ParameterView> {
    split_on(query, '&').map_values(
        |piece: Seq<char>|
            ParameterView::Simple {
                name: before(piece, '='),
                value: after(piece, '='),
                param_type: ParameterType::Query,
            },
    )
}

/// Reads the query string of a URL, the part behind its `?`. Nothing is decoded.
pub fn parse_query_string(query: &str) -> (r: Vec<Parameter>)
    ensures
        parameter_views(r@) == query_parameters(query@),
{
    let pieces = split_text(query, '&');
    let ghost views = pieces@.map_values(|p: String| p@);
    let mut parameters: Vec<Parameter> = Vec::new();
    for piece in it: pieces
        invariant
            views == pieces@.map_values(|p: String| p@),
            views == split_on(query@, '&'),
            it.seq() == pieces@,
            parameter_views(parameters@) =~= query_parameters(query@).take(it.index() as int),
    {
        let parameter = match split_once(piece.as_str(), '=') {
            Some((name, value)) => Parameter::SimpleParameter {
                name: name.to_owned(),
                value: value.to_owned(),
                param_type: ParameterType::Query,
            },
            None => Parameter::SimpleParameter {
                name: piece.as_str().to_owned(),
                value: String::new(),
                param_type: ParameterType::Query,
            },
        };
        proof {
            let index = it.index() as int;
            assert(piece@ == views[index]);
            if !piece@.contains('=') {
                lemma_unmarked(piece@, '=');
            }
            assert(parameter@ == query_parameters(query@)[index]);
            lemma_views_push(parameters@, parameter);
            assert(query_parameters(query@).take(index + 1) =~= query_parameters(query@).take(index).push(
                parameter@,
            ));
        }
        parameters.push(parameter);
    }
    parameters
}

/// The text that `url` keeps of a URL that it reads; nothing where it reads no
/// URL.
pub uninterp spec fn url_text(s: Seq<char>) -> Option<Seq<char>>;

/// Whether a text holds only what a written form holds.
pub open spec fn is_form_text(text: Seq<char>) -> bool {
    forall|i: int| 0 <= i < text.len() ==> is_form_char(#[trigger] text[i])
}

/// Whether a URL is one of `http` or `https`, without a query and a fragment, no
/// longer than four gigabytes, and without a trace of a name that was encoded
/// for the host.
pub open spec fn is_web_url(text: Seq<char>) -> bool {
    &&& "http://"@.is_prefix_of(text) || "https://"@.is_prefix_of(text)
    &&& !text.contains('?')
    &&& !text.contains('#')
    &&& text.len() <= u32::MAX
    &&& forall|at: int| 0 <= at <= text.len() - 4 ==> #[trigger] text.subrange(at, at + 4) != "xn--"@
}

/// What is said of a URL in the form in which `url` writes it. If it is a URL as
/// [`is_web_url`] says, it has no white space at its end and is read again as
/// itself, also with a query behind it that needs no encoding.
pub open spec fn is_kept(text: Seq<char>) -> bool {
    is_web_url(text) ==> {
        &&& trimmed_end(text) == text
        &&& url_text(text) == Some(text)
        &&& forall|query: Seq<char>| #[trigger]
            is_form_text(query) ==> url_text(text.push('?') + query) == Some(text.push('?') + query)
    }
}

/// `Url::parse`: the URL in the form in which `url` writes it. What that form
/// is, and which texts are URLs, only the name says. A URL that is read without
/// a `?` is written without one, and [`is_kept`] says which URLs are read again
/// as they were written.
#[verifier::external_body]
pub(crate) fn read_url(s: &str) -> (r: Result<String, url::ParseError>)
    ensures
        r is Ok <==> url_text(s@) is Some,
        r matches Ok(text) ==> url_text(s@) == Some(text@),
        r matches Ok(text) ==> (!s@.contains('?') ==> !text@.contains('?')),
        r matches Ok(text) ==> is_kept(text@),
{
    let url = url::Url::parse(s)?;
    Ok(url.as_str().to_owned())
}

/// The parameters that a URL brings along behind its `?`.
pub open spec fn url_parameters(url: Seq<char>) -> Seq<ParameterView> {
    if url.contains('?') {
        query_parameters(after(url, '?'))
    } else {
        Seq::empty()
    }
}

/// Cuts a URL at its first `?`, white space at the end put aside, and reads
/// the parameters behind it. The front is not looked into.
pub fn split_url(url: &str) -> (r: (String, Vec<Parameter>))
    ensures
        r.0@ == before(trimmed_end(url@), '?'),
        parameter_views(r.1@) == url_parameters(trimmed_end(url@)),
{
    let url = trim_end(url);
    match split_once(url, '?') {
        Some((base, query)) => (base.to_owned(), parse_query_string(query)),
        None => {
            proof {
                lemma_unmarked(url@, '?');
            }
            let parameters: Vec<Parameter> = Vec::new();
            proof {
                assert(parameter_views(parameters@) =~= Seq::<ParameterView>::empty());
            }
            (url.to_owned(), parameters)
        },
    }
}

/// Reads a URL: the part before its `?` as a URL, and the parameters behind it.
pub fn generate_base_url(url: &str) -> (r: Result<(String, Vec<Parameter>), Error>)
    ensures
        match r {
            Ok((base, parameters)) => {
                &&& url_text(before(trimmed_end(url@), '?')) == Some(base@)
                &&& !base@.contains('?')
                &&& is_kept(base@)
                &&& parameter_views(parameters@) == url_parameters(trimmed_end(url@))
            },
            Err(e) => {
                &&& url_text(before(trimmed_end(url@), '?')) is None
                &&& e@ == ErrorView::UrlParserError
            },
        },
{
    let (front, parameters) = split_url(url);
    proof {
        lemma_first_at(trimmed_end(url@), '?');
        assert(!front@.contains('?'));
    }
    match read_url(front.as_str()) {
        Ok(base) => Ok((base, parameters)),
        Err(e) => Err(Error::UrlParserError(e)),
    }
}

/// The body of a request.
#[derive(Debug)]
pub enum RequestBody {
    /// Octets, and the content type to send with them unless one is set.
    Raw { data: Bytes, content_type: Option<String> },
    /// Named values, written as a form.
    FormUrlEncoded(String),
    /// Named parts.
    Multipart(Vec<MultipartPart>),
}

/// One part of a multipart body.
#[derive(Debug)]
pub struct MultipartPart {
    pub name: String,
    pub data: Bytes,
    pub mime_type: Option<String>,
}

/// What a [`RequestBody`] holds.
pub enum RequestBodyView {
    Raw { data: Seq<u8>, content_type: Option<Seq<char>> },
    FormUrlEncoded(Seq<char>),
    Multipart(Seq<MultipartPartView>),
}

/// What a [`MultipartPart`] holds.
pub struct MultipartPartView {
    pub name: Seq<char>,
    pub data: Seq<u8>,
    pub mime_type: Option<Seq<char>>,
}

impl View for MultipartPart {
    type V = MultipartPartView;

    open spec fn view(&self) -> MultipartPartView {
        MultipartPartView {
            name: self.name@,
            data: octets(self.data),
            mime_type: optional_view(self.mime_type),
        }
    }
}

/// What a list of parts holds.
pub open spec fn part_views(parts: Seq<MultipartPart>) -> Seq<MultipartPartView> {
    parts.map_values(|p: MultipartPart| p@)
}

impl View for RequestBody {
    type V = RequestBodyView;

    open spec fn view(&self) -> RequestBodyView {
        match self {
            RequestBody::Raw { data, content_type } => RequestBodyView::Raw {
                data: octets(*data),
                content_type: optional_view(*content_type),
            },
            RequestBody::FormUrlEncoded(text) => RequestBodyView::FormUrlEncoded(text@),
            RequestBody::Multipart(parts) => RequestBodyView::Multipart(part_views(parts@)),
        }
    }
}

/// The name of the header that says what a body is.
pub open spec fn content_type_name() -> Seq<char> {
    "content-type"@
}

/// The content type of a form.
pub open spec fn form_content_type() -> Seq<char> {
    "application/x-www-form-urlencoded"@
}

/// The name `content-type` is in small letters.
pub proof fn lemma_content_type_name()
    ensures
        lower(content_type_name()) == content_type_name(),
        is_header_name(content_type_name()),
{
    reveal_strlit("content-type");
    assert(lower(content_type_name()) =~= content_type_name());
}

/// A parameter that is sent alone: its octets as they are if it is a file, its
/// written form if it is a named value. It brings its content type along if no
/// header sets one.
pub open spec fn singular_body(fields: Fields, parameter: ParameterView) -> RequestBodyView {
    let (data, content_type) = match parameter {
        ParameterView::Simple { name, value, .. } => (
            encode_utf8(encoded_pair(name, value)),
            form_content_type(),
        ),
        ParameterView::Complex { mime_type, content, .. } => (content, mime_type),
    };
    RequestBodyView::Raw {
        data,
        content_type: if fields.contains_key(content_type_name()) {
            None
        } else {
            Some(content_type)
        },
    }
}

/// Builds the body for a parameter that is sent alone.
pub fn construct_singular_body(headers: &HeaderMap, parameter: Parameter) -> (r: Result<RequestBody, Error>)
    ensures
        r matches Ok(body) && body@ == singular_body(header_fields(*headers), parameter@),
{
    proof {
        lemma_content_type_name();
    }
    let is_set = has_header(headers, "content-type");
    match parameter {
        Parameter::SimpleParameter { name, value, .. } => {
            let text = encode_pair(name.as_str(), value.as_str());
            let content_type = if is_set {
                None
            } else {
                Some("application/x-www-form-urlencoded".to_owned())
            };
            Ok(RequestBody::Raw { data: own_octets(text.as_str().as_bytes_vec()), content_type })
        },
        Parameter::ComplexParameter { mime_type, content, .. } => {
            let content_type = if is_set {
                None
            } else {
                Some(mime_type.as_str().to_owned())
            };
            Ok(RequestBody::Raw { data: content, content_type })
        },
    }
}

/// The part that carries a parameter: a named value as it is, without a media
/// type, or a file with its media type.
pub open spec fn multipart_part(parameter: ParameterView) -> MultipartPartView {
    match parameter {
        ParameterView::Simple { name, value, .. } => MultipartPartView {
            name,
            data: encode_utf8(value),
            mime_type: None,
        },
        ParameterView::Complex { name, mime_type, content } => MultipartPartView {
            name,
            data: content,
            mime_type: Some(mime_type),
        },
    }
}

/// The multipart body that carries some parameters: one part for each, in order.
pub open spec fn multipart_body(parameters: Seq<ParameterView>) -> RequestBodyView {
    RequestBodyView::Multipart(parameters.map_values(|p: ParameterView| multipart_part(p)))
}

/// Builds a multipart body.
pub fn construct_multipart(parameters: Vec<Parameter>) -> (r: Result<RequestBody, Error>)
    ensures
        r matches Ok(body) && body@ == multipart_body(parameter_views(parameters@)),
{
    let ghost views = parameter_views(parameters@);
    let ghost expected = views.map_values(|p: ParameterView| multipart_part(p));
    let mut parts: Vec<MultipartPart> = Vec::new();
    for parameter in it: parameters
        invariant
            views == parameter_views(parameters@),
            expected == views.map_values(|p: ParameterView| multipart_part(p)),
            it.seq() == parameters@,
            part_views(parts@) =~= expected.take(it.index() as int),
    {
        let ghost view = parameter@;
        let part = match parameter {
            Parameter::SimpleParameter { name, value, .. } => MultipartPart {
                name,
                data: own_octets(value.as_str().as_bytes_vec()),
                mime_type: None,
            },
            Parameter::ComplexParameter { name, mime_type, content } => MultipartPart {
                name,
                data: content,
                mime_type: Some(mime_type.as_str().to_owned()),
            },
        };
        proof {
            let index = it.index() as int;
            assert(view == views[index]);
            assert(part@ == expected[index]);
            assert(part_views(parts@.push(part)) =~= part_views(parts@).push(part@));
            assert(expected.take(index + 1) =~= expected.take(index).push(part@));
        }
        parts.push(part);
    }
    proof {
        assert(part_views(parts@) =~= expected);
    }
    Ok(RequestBody::Multipart(parts))
}

/// Whether a parameter is a named value.
pub open spec fn is_simple(parameter: ParameterView) -> bool {
    parameter is Simple
}

/// Whether all of some parameters are named values.
pub open spec fn all_simple(parameters: Seq<ParameterView>) -> bool {
    forall|i: int| 0 <= i < parameters.len() ==> is_simple(#[trigger] parameters[i])
}

/// The name and the value of a parameter.
pub open spec fn named_value(parameter: ParameterView) -> (Seq<char>, Seq<char>) {
    (parameter->Simple_name, parameter->value)
}

/// The names and the values of some parameters.
pub open spec fn named_values(parameters: Seq<ParameterView>) -> Seq<(Seq<char>, Seq<char>)> {
    parameters.map_values(|p: ParameterView| named_value(p))
}

/// Builds a form of named values.
pub fn construct_form_url_encoded(parameters: Vec<Parameter>) -> (r: Result<RequestBody, Error>)
    requires
        all_simple(parameter_views(parameters@)),
    ensures
        r matches Ok(body) && body@ == RequestBodyView::FormUrlEncoded(
            form_text(named_values(parameter_views(parameters@))),
        ),
{
    let ghost views = parameter_views(parameters@);
    let ghost expected = named_values(views).map_values(|p: (Seq<char>, Seq<char>)| encoded_pair(p.0, p.1));
    let mut pieces: Vec<String> = Vec::new();
    for parameter in it: parameters
        invariant
            views == parameter_views(parameters@),
            all_simple(views),
            expected == named_values(views).map_values(|p: (Seq<char>, Seq<char>)| encoded_pair(p.0, p.1)),
            it.seq() == parameters@,
            pieces@.map_values(|p: String| p@) =~= expected.take(it.index() as int),
    {
        proof {
            assert(parameter@ == views[it.index() as int]);
            assert(is_simple(views[it.index() as int]));
        }
        if let Parameter::SimpleParameter { name, value, .. } = parameter {
            let piece = encode_pair(name.as_str(), value.as_str());
            proof {
                let index = it.index() as int;
                assert(piece@ == expected[index]);
                assert(pieces@.push(piece).map_values(|p: String| p@) =~= pieces@.map_values(|p: String| p@).push(
                    piece@,
                ));
                assert(expected.take(index + 1) =~= expected.take(index).push(piece@));
            }
            pieces.push(piece);
        }
    }
    proof {
        reveal_strlit("&");
        assert(pieces@.map_values(|p: String| p@) =~= expected);
    }
    Ok(RequestBody::FormUrlEncoded(join_text(&pieces, "&")))
}

} // verus!
