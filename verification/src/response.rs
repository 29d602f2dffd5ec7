//! Reading responses back into parameters.
use bytes::Bytes;
use http::header::HeaderMap;
use vstd::hash_map::StringHashMap;
use vstd::prelude::*;
use crate::error::{Error, ErrorView};
use crate::form::{form_pairs, pair_views, read_form, spells_pairs};
use crate::headers::{
    all_visible, field_values, first_value, header_fields, header_text, is_header_name, is_visible,
    lemma_not_visible, lemma_visible, list_headers, list_view, listed_values, lists, Fields,
};
use crate::media_type::{essence, mime_boundary, mime_text, octet_stream, top_level, MediaType};
use crate::octets::{octets, read_octets, share_octets};
use crate::parameter::{lemma_views_push, parameter_views, Parameter, ParameterType, ParameterView};
use crate::parts::{
    lemma_longest, lemma_longest_skip, longest, may_be_read, read_parts, read_views, Part, PartView,
};
use crate::percent::ascii_text;
use crate::request::{content_type_name, form_content_type, lemma_content_type_name};
use crate::text::{lower, same_text, trim, trimmed, without};

verus! {

/// The headers under which a body came: those of a response, or those of one
/// part of a multipart body.
pub enum Headers {
    HeaderMap(HeaderMap),
    PartHeaders { name: String, content_type: Option<MediaType> },
}

/// What [`Headers`] hold.
pub enum HeadersView {
    HeaderMap(Fields),
    PartHeaders { name: Seq<char>, content_type: Option<Seq<char>> },
}

impl View for Headers {
    type V = HeadersView;

    open spec fn view(&self) -> HeadersView {
        match self {
            Headers::HeaderMap(map) => HeadersView::HeaderMap(header_fields(*map)),
            Headers::PartHeaders { name, content_type } => HeadersView::PartHeaders {
                name: name@,
                content_type: match content_type {
                    Some(media_type) => Some(media_type@),
                    None => None,
                },
            },
        }
    }
}

/// A response as it came.
pub struct RawResponse {
    pub headers: HeaderMap,
    pub body: Bytes,
    pub status_code: u16,
}

/// A response with its headers as text and its body as parameters.
pub struct ParsedResponse {
    pub headers: StringHashMap<String>,
    pub content: Vec<Parameter>,
    pub status_code: u16,
    pub raw: Bytes,
}

/// Each header with the text of its last value.
pub open spec fn last_texts(fields: Fields) -> Map<Seq<char>, Seq<char>> {
    fields.map_values(|values: Seq<Seq<u8>>| ascii_text(values.last()))
}

/// A map of strings as a map of character sequences.
pub open spec fn text_map(map: Map<Seq<char>, String>) -> Map<Seq<char>, Seq<char>> {
    map.map_values(|text: String| text@)
}

/// Headers as text, by name. Where a header has several values, the last one
/// is kept.
pub fn header_map_to_hash_map(headers: &HeaderMap) -> (r: Result<StringHashMap<String>, Error>)
    ensures
        match r {
            Ok(map) => {
                &&& all_visible(header_fields(*headers))
                &&& text_map(map@) == last_texts(header_fields(*headers))
            },
            Err(e) => {
                &&& !all_visible(header_fields(*headers))
                &&& e@ == ErrorView::ToStringError
            },
        },
{
    let ghost fields = header_fields(*headers);
    let listed = list_headers(headers);
    let ghost pairs = list_view(listed@);
    let mut map: StringHashMap<String> = StringHashMap::new();
    let mut i: usize = 0;
    while i < listed.len()
        invariant
            i <= listed.len(),
            fields == header_fields(*headers),
            pairs == list_view(listed@),
            lists(pairs, fields),
            forall|name: Seq<char>| #[trigger]
                map@.contains_key(name) <==> listed_values(pairs.take(i as int), name).len() > 0,
            forall|name: Seq<char>| #[trigger]
                map@.contains_key(name) ==> map@[name]@ == ascii_text(
                    listed_values(pairs.take(i as int), name).last(),
                ),
            forall|k: int| 0 <= k < i ==> is_visible((#[trigger] pairs[k]).1),
        decreases listed.len() - i,
    {
        proof {
            assert(pairs[i as int] == (listed[i as int].0@, listed[i as int].1@));
        }
        match header_text(listed[i].1.as_slice()) {
            Ok(text) => {
                map.insert(listed[i].0.as_str().to_owned(), text);
                proof {
                    let taken = pairs.take(i + 1);
                    assert(taken.drop_last() =~= pairs.take(i as int));
                    assert(taken.last() == pairs[i as int]);
                }
            },
            Err(e) => {
                proof {
                    lemma_not_visible(pairs, fields, i as int);
                }
                return Err(Error::ToStringError(e));
            },
        }
        i += 1;
    }
    proof {
        assert(pairs.take(i as int) =~= pairs);
        lemma_visible(pairs, fields);
        assert forall|name: Seq<char>| #[trigger] map@.contains_key(name) <==> fields.contains_key(name) by {
            assert(listed_values(pairs, name) == field_values(fields, name));
        }
        assert forall|name: Seq<char>| #[trigger] map@.contains_key(name) implies map@[name]@ == ascii_text(
            fields[name].last(),
        ) by {
            assert(listed_values(pairs, name) == field_values(fields, name));
        }
        assert(text_map(map@) =~= last_texts(fields));
    }
    Ok(map)
}

/// The name of content that has none of its own.
pub open spec fn default_name() -> Seq<char> {
    "result"@
}

/// The media type of content that names none.
pub open spec fn default_media_type() -> Seq<char> {
    "application/octet-stream"@
}

/// The name of the header that names the content of a response.
pub open spec fn content_id_name() -> Seq<char> {
    "content-id"@
}

proof fn lemma_content_id_name()
    ensures
        lower(content_id_name()) == content_id_name(),
        is_header_name(content_id_name()),
{
    reveal_strlit("content-id");
    assert(lower(content_id_name()) =~= content_id_name());
}

/// The first value of a header as text without white space around it, or
/// nothing where the header has none.
pub open spec fn trimmed_text(fields: Fields, name: Seq<char>) -> Result<Option<Seq<char>>, ErrorView> {
    if !fields.contains_key(name) {
        Ok(None)
    } else if is_visible(fields[name][0]) {
        Ok(Some(trimmed(ascii_text(fields[name][0]))))
    } else {
        Err(ErrorView::ToStringError)
    }
}

/// The name that headers give to the content under them: that of the part, or
/// the content id of the response without its quotes.
pub open spec fn found_name(headers: HeadersView) -> Result<Seq<char>, ErrorView> {
    match headers {
        HeadersView::HeaderMap(fields) => match trimmed_text(fields, content_id_name()) {
            Ok(Some(id)) => Ok(id.filter(|c: char| c != '"')),
            Ok(None) => Ok(default_name()),
            Err(e) => Err(e),
        },
        HeadersView::PartHeaders { name, .. } => Ok(
            if name.len() == 0 {
                default_name()
            } else {
                name
            },
        ),
    }
}

/// The media type that headers give to the content under them.
pub open spec fn found_media_type(headers: HeadersView) -> Result<Seq<char>, ErrorView> {
    match headers {
        HeadersView::HeaderMap(fields) => match trimmed_text(fields, content_type_name()) {
            Ok(Some(text)) => match mime_text(text) {
                Some(media_type) => Ok(media_type),
                None => Err(ErrorView::MimeParseError),
            },
            Ok(None) => Ok(default_media_type()),
            Err(e) => Err(e),
        },
        HeadersView::PartHeaders { content_type, .. } => Ok(
            match content_type {
                Some(media_type) => media_type,
                None => default_media_type(),
            },
        ),
    }
}

/// Reads the first value of a header.
fn header_line_text(headers: &HeaderMap, name: &str) -> (r: Result<Option<String>, Error>)
    requires
        lower(name@) == name@,
        is_header_name(name@),
    ensures
        match r {
            Ok(Some(text)) => trimmed_text(header_fields(*headers), name@) == Ok::<_, ErrorView>(Some(text@)),
            Ok(None) => trimmed_text(header_fields(*headers), name@) == Ok::<_, ErrorView>(None::<Seq<char>>),
            Err(e) => trimmed_text(header_fields(*headers), name@) == Err::<Option<Seq<char>>, _>(e@),
        },
{
    match first_value(headers, name) {
        Some(value) => match header_text(value.as_slice()) {
            Ok(text) => Ok(Some(trim(text.as_str()).to_owned())),
            Err(e) => Err(Error::ToStringError(e)),
        },
        None => Ok(None),
    }
}

/// The name and the media type of the content under some headers.
pub fn get_name_and_content_type(headers: Headers) -> (r: Result<(String, MediaType), Error>)
    ensures
        match r {
            Ok((name, content_type)) => {
                &&& found_name(headers@) == Ok::<_, ErrorView>(name@)
                &&& found_media_type(headers@) == Ok::<_, ErrorView>(content_type@)
            },
            Err(e) => match found_name(headers@) {
                Err(owed) => e@ == owed,
                Ok(_) => found_media_type(headers@) == Err::<Seq<char>, _>(e@),
            },
        },
{
    match headers {
        Headers::HeaderMap(map) => {
            proof {
                lemma_content_id_name();
                lemma_content_type_name();
            }
            let name = match header_line_text(&map, "content-id") {
                Ok(Some(id)) => without(id.as_str(), '"'),
                Ok(None) => "result".to_owned(),
                Err(e) => {
                    return Err(e);
                },
            };
            let content_type = match header_line_text(&map, "content-type") {
                Ok(Some(text)) => match MediaType::parse(text.as_str()) {
                    Ok(media_type) => media_type,
                    Err(e) => {
                        return Err(e);
                    },
                },
                Ok(None) => octet_stream(),
                Err(e) => {
                    return Err(e);
                },
            };
            Ok((name, content_type))
        },
        Headers::PartHeaders { name, content_type } => {
            let name = if name.as_str().is_empty() {
                "result".to_owned()
            } else {
                name
            };
            let content_type = match content_type {
                Some(media_type) => media_type,
                None => octet_stream(),
            };
            Ok((name, content_type))
        },
    }
}

/// Content that is neither a form nor made of parts is one file.
pub fn parse_flat_data(content_type: MediaType, body: Bytes, name: &str) -> (r: Result<Vec<Parameter>, Error>)
    ensures
        r matches Ok(parameters) && parameter_views(parameters@) == seq![
            ParameterView::Complex { name: name@, mime_type: content_type@, content: octets(body) },
        ],
{
    let parameter = Parameter::ComplexParameter {
        name: name.to_owned(),
        mime_type: content_type,
        content: body,
    };
    let ghost view = parameter@;
    let mut parameters: Vec<Parameter> = Vec::new();
    parameters.push(parameter);
    proof {
        assert(parameter_views(parameters@) =~= seq![view]);
    }
    Ok(parameters)
}

/// Named values as parameters of a body.
pub open spec fn body_parameters(pairs: Seq<(Seq<char>, Seq<char>)>) -> Seq<ParameterView> {
    pairs.map_values(
        |p: (Seq<char>, Seq<char>)|
            ParameterView::Simple { name: p.0, value: p.1, param_type: ParameterType::Body },
    )
}

/// Turns named values into parameters of a body, in order.
pub fn form_parameters(pairs: Vec<(String, String)>) -> (r: Vec<Parameter>)
    ensures
        parameter_views(r@) == body_parameters(pair_views(pairs@)),
{
    let ghost expected = body_parameters(pair_views(pairs@));
    let mut parameters: Vec<Parameter> = Vec::new();
    for pair in it: pairs
        invariant
            expected == body_parameters(pair_views(pairs@)),
            it.seq() == pairs@,
            parameter_views(parameters@) =~= expected.take(it.index() as int),
    {
        let (name, value) = pair;
        let parameter = Parameter::SimpleParameter { name, value, param_type: ParameterType::Body };
        proof {
            let index = it.index() as int;
            assert(parameter@ == expected[index]);
            lemma_views_push(parameters@, parameter);
            assert(expected.take(index + 1) =~= expected.take(index).push(parameter@));
        }
        parameters.push(parameter);
    }
    proof {
        assert(parameter_views(parameters@) =~= expected);
    }
    parameters
}

/// Reads a form into parameters of a body.
pub fn parse_form_urlencoded(body: &[u8]) -> (r: Result<Vec<Parameter>, Error>)
    ensures
        r matches Ok(parameters) && parameter_views(parameters@) == body_parameters(form_pairs(body@)),
        spells_pairs(body@, form_pairs(body@)),
{
    Ok(form_parameters(read_form(body)))
}

/// What reading gives: the parameters, or which error.
pub type Outcome = Result<Seq<ParameterView>, ErrorView>;

/// What reading gave.
pub open spec fn outcome(r: Result<Vec<Parameter>, Error>) -> Outcome {
    match r {
        Ok(parameters) => Ok(parameter_views(parameters@)),
        Err(e) => Err(e@),
    }
}

/// An outcome with some parameters put before those that it gives.
pub open spec fn prefixed(parameters: Seq<ParameterView>, rest: Outcome) -> Outcome {
    match rest {
        Ok(more) => Ok(parameters + more),
        Err(e) => Err(e),
    }
}

/// One outcome and, if it is no error, another one behind it.
pub open spec fn followed(first: Outcome, rest: Outcome) -> Outcome {
    match first {
        Ok(parameters) => prefixed(parameters, rest),
        Err(e) => Err(e),
    }
}

/// Whether content is made of parts.
pub open spec fn is_multipart(media_type: Seq<char>) -> bool {
    top_level(media_type) == "multipart"@
}

/// Whether content is a form.
pub open spec fn is_form(media_type: Seq<char>) -> bool {
    essence(media_type) == form_content_type()
}

/// The error for content that is made of parts and does not say what stands
/// between them.
pub open spec fn no_boundary() -> ErrorView {
    ErrorView::HeaderParseError("Content type multipart misses boundary parameter"@)
}

/// Whether `r` can come of a body under some headers.
pub open spec fn part_gives(headers: HeadersView, body: Seq<u8>, r: Outcome) -> bool
    decreases body.len(), 2nat, 0nat,
{
    match found_name(headers) {
        Err(e) => r == Err::<Seq<ParameterView>, _>(e),
        Ok(name) => match found_media_type(headers) {
            Err(e) => r == Err::<Seq<ParameterView>, _>(e),
            Ok(media_type) => content_gives(name, media_type, body, r),
        },
    }
}

/// Whether `r` can come of a body with this name and this media type: the
/// parameters of its parts, those of a form, or one file. Only how a body is
/// cut into parts can leave more than one outcome.
pub open spec fn content_gives(name: Seq<char>, media_type: Seq<char>, body: Seq<u8>, r: Outcome) -> bool
    decreases body.len(), 1nat, 0nat,
{
    if is_multipart(media_type) {
        match mime_boundary(media_type) {
            None => r == Err::<Seq<ParameterView>, _>(no_boundary()),
            Some(boundary) => exists|parts: Seq<PartView>, failed: bool| #[trigger]
                may_be_read(body, boundary, parts, failed) && parts_give(parts, failed, r),
        }
    } else if is_form(media_type) {
        &&& r == Ok::<_, ErrorView>(body_parameters(form_pairs(body)))
        &&& spells_pairs(body, form_pairs(body))
    } else {
        r == Ok::<_, ErrorView>(
            seq![ParameterView::Complex { name, mime_type: media_type, content: body }],
        )
    }
}

/// Whether `r` can come of some parts, behind which reading failed or not: what
/// comes of each, in order, up to the first error.
pub open spec fn parts_give(parts: Seq<PartView>, failed: bool, r: Outcome) -> bool
    decreases longest(parts), 0nat, parts.len(),
    via parts_give_ends
{
    if parts.len() == 0 {
        r == if failed {
            Err::<Seq<ParameterView>, _>(ErrorView::FileError)
        } else {
            Ok(Seq::empty())
        }
    } else {
        exists|first: Outcome, rest: Outcome|
            {
                &&& r == #[trigger] followed(first, rest)
                &&& part_gives(part_headers(parts[0]), parts[0].data, first)
                &&& first is Ok ==> parts_give(parts.skip(1), failed, rest)
            }
    }
}

/// The headers of a part.
pub open spec fn part_headers(part: PartView) -> HeadersView {
    HeadersView::PartHeaders { name: part.name, content_type: part.content_type }
}

#[via_fn]
proof fn parts_give_ends(parts: Seq<PartView>, failed: bool, r: Outcome) {
    if parts.len() > 0 {
        lemma_longest(parts, 0);
        lemma_longest_skip(parts);
    }
}

/// What comes of the first part, and what comes of the others, is what comes of
/// all.
proof fn lemma_first_part(parts: Seq<PartView>, failed: bool, first: Outcome, rest: Outcome)
    requires
        parts.len() > 0,
        part_gives(part_headers(parts[0]), parts[0].data, first),
        first is Ok ==> parts_give(parts.skip(1), failed, rest),
    ensures
        parts_give(parts, failed, followed(first, rest)),
{
}

/// What comes of the parts of a body is what comes of the body.
proof fn lemma_content(
    name: Seq<char>,
    media_type: Seq<char>,
    body: Seq<u8>,
    parts: Seq<PartView>,
    failed: bool,
    r: Outcome,
)
    requires
        is_multipart(media_type),
        mime_boundary(media_type) matches Some(boundary) && may_be_read(body, boundary, parts, failed),
        parts_give(parts, failed, r),
    ensures
        content_gives(name, media_type, body, r),
{
}

/// Reads a body under its headers. A body that is not made of parts is read in
/// one step; one that is has each of its parts read in the same way.
pub fn parse_part(headers: Headers, body: Bytes) -> (r: Result<Vec<Parameter>, Error>)
    ensures
        part_gives(headers@, octets(body), outcome(r)),
    decreases octets(body).len(), 3nat, 0nat,
{
    match get_name_and_content_type(headers) {
        Ok((name, content_type)) => parse_content(name.as_str(), content_type, body),
        Err(e) => Err(e),
    }
}

/// Reads a body of which the name and the media type are known.
pub fn parse_content(name: &str, content_type: MediaType, body: Bytes) -> (r: Result<Vec<Parameter>, Error>)
    ensures
        content_gives(name@, content_type@, octets(body), outcome(r)),
    decreases octets(body).len(), 2nat, 0nat,
{
    if same_text(content_type.type_(), "multipart") {
        match content_type.boundary() {
            Some(boundary) => {
                let r = parse_multipart(read_octets(&body), boundary.as_str());
                proof {
                    let (parts, failed) = choose|parts: Seq<PartView>, failed: bool| #[trigger]
                        may_be_read(octets(body), boundary@, parts, failed) && parts_give(parts, failed, outcome(r));
                    lemma_content(name@, content_type@, octets(body), parts, failed, outcome(r));
                }
                r
            },
            None => Err(
                Error::HeaderParseError("Content type multipart misses boundary parameter".to_owned()),
            ),
        }
    } else if same_text(content_type.essence_str(), "application/x-www-form-urlencoded") {
        parse_form_urlencoded(read_octets(&body))
    } else {
        parse_flat_data(content_type, body, name)
    }
}

/// Reads a body that is made of parts.
pub fn parse_multipart(body: &[u8], boundary: &str) -> (r: Result<Vec<Parameter>, Error>)
    ensures
        exists|parts: Seq<PartView>, failed: bool| #[trigger]
            may_be_read(body@, boundary@, parts, failed) && parts_give(parts, failed, outcome(r)),
    decreases body@.len(), 1nat, 0nat,
{
    let (parts, failure) = read_parts(body, boundary);
    parse_parts(parts, failure)
}

/// Reads the bodies of some parts, in order, up to the first error. The failure
/// with which the reading of the parts themselves ended comes behind them all.
pub fn parse_parts(parts: Vec<Part>, failure: Option<std::io::Error>) -> (r: Result<Vec<Parameter>, Error>)
    ensures
        parts_give(read_views(parts@), failure is Some, outcome(r)),
    decreases longest(read_views(parts@)), 0nat, 0nat,
{
    let ghost views = read_views(parts@);
    let ghost failed = failure is Some;
    let mut parameters: Vec<Parameter> = Vec::new();
    proof {
        assert(views.skip(0) =~= views);
        assert forall|rest: Outcome| #[trigger] parts_give(views.skip(0), failed, rest) implies parts_give(
            views,
            failed,
            prefixed(parameter_views(parameters@), rest),
        ) by {
            assert(prefixed(parameter_views(parameters@), rest) == rest) by {
                if let Ok(more) = rest {
                    assert(parameter_views(parameters@) + more =~= more);
                }
            }
        }
    }
    for part in it: parts
        invariant
            views == read_views(parts@),
            failed == (failure is Some),
            it.seq() == parts@,
            forall|rest: Outcome| #[trigger]
                parts_give(views.skip(it.index() as int), failed, rest) ==> parts_give(
                    views,
                    failed,
                    prefixed(parameter_views(parameters@), rest),
                ),
    {
        let ghost index = it.index() as int;
        let ghost left = views.skip(index);
        let ghost so_far = parameter_views(parameters@);
        let ghost part_view = part@;
        proof {
            assert(part_view == views[index]);
            assert(left[0] == part_view);
            lemma_longest(views, index);
        }
        let Part { name, content_type, data } = part;
        let headers = Headers::PartHeaders { name, content_type };
        proof {
            assert(headers@ == part_headers(left[0]));
        }
        match parse_part(headers, data) {
            Ok(more) => {
                let mut more = more;
                let ghost found = parameter_views(more@);
                parameters.append(&mut more);
                proof {
                    assert(parameter_views(parameters@) =~= so_far + found);
                    assert(left.skip(1) =~= views.skip(index + 1));
                    assert forall|rest: Outcome| #[trigger]
                        parts_give(views.skip(index + 1), failed, rest) implies parts_give(
                        views,
                        failed,
                        prefixed(parameter_views(parameters@), rest),
                    ) by {
                        let both = prefixed(found, rest);
                        assert(part_gives(part_headers(left[0]), left[0].data, Ok(found)));
                        assert(parts_give(left.skip(1), failed, rest));
                        lemma_first_part(left, failed, Ok(found), rest);
                        assert(prefixed(so_far, both) == prefixed(so_far + found, rest)) by {
                            if let Ok(last) = rest {
                                assert(so_far + (found + last) =~= so_far + found + last);
                            }
                        }
                    }
                }
            },
            Err(e) => {
                proof {
                    let owed: Outcome = Err(e@);
                    assert(part_gives(part_headers(left[0]), left[0].data, owed));
                    lemma_first_part(left, failed, owed, owed);
                    assert(parts_give(left, failed, owed));
                    assert(prefixed(so_far, owed) == owed);
                }
                return Err(e);
            },
        }
    }
    proof {
        assert(views.skip(views.len() as int).len() == 0);
    }
    match failure {
        Some(e) => {
            proof {
                assert(parts_give(views.skip(views.len() as int), failed, Err(ErrorView::FileError)));
            }
            Err(Error::FileError(e))
        },
        None => {
            proof {
                assert(parts_give(views.skip(views.len() as int), failed, Ok(Seq::empty())));
                assert(parameter_views(parameters@) + Seq::empty() =~= parameter_views(parameters@));
            }
            Ok(parameters)
        },
    }
}

impl RawResponse {
    /// Reads the response: its headers as text, and its body as parameters.
    pub fn parse_response(self) -> (r: Result<ParsedResponse, Error>)
        ensures
            match r {
                Ok(parsed) => {
                    &&& all_visible(header_fields(self.headers))
                    &&& text_map(parsed.headers@) == last_texts(header_fields(self.headers))
                    &&& part_gives(
                        HeadersView::HeaderMap(header_fields(self.headers)),
                        octets(self.body),
                        Ok(parameter_views(parsed.content@)),
                    )
                    &&& parsed.status_code == self.status_code
                    &&& octets(parsed.raw) == octets(self.body)
                },
                Err(e) => if all_visible(header_fields(self.headers)) {
                    part_gives(HeadersView::HeaderMap(header_fields(self.headers)), octets(self.body), Err(e@))
                } else {
                    e@ == ErrorView::ToStringError
                },
            },
    {
        match header_map_to_hash_map(&self.headers) {
            Ok(headers) => match parse_part(Headers::HeaderMap(self.headers), share_octets(&self.body)) {
                Ok(content) => Ok(
                    ParsedResponse { headers, content, status_code: self.status_code, raw: self.body },
                ),
                Err(e) => Err(e),
            },
            Err(e) => Err(e),
        }
    }
}

} // verus!
