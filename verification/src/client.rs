//! Requests: what they carry, and what is handed to the transfer.
use http::header::HeaderMap;
use std::collections::HashMap;
use vstd::prelude::*;
use vstd::utf8::encode_utf8;
use crate::error::{failure, Error, ErrorView};
use crate::form::{form_text, pair_views};
use crate::headers::{
    all_visible, has_room, header_fields, header_name, header_text, header_value, insert_header,
    is_header_name, is_header_value, is_visible, lemma_lower_name, no_headers,
    remove_header, Fields,
};
use crate::media_type::{optional_view, MediaType};
use crate::octets::{copy_octets, own_octets, read_octets};
use crate::outgoing::{are_lines_of, header_lines, method_text, payload_of, Payload, PreparedRequest};
use crate::parameter::{lemma_views_push, parameter_views, Parameter, ParameterType, ParameterView};
use crate::percent::{encode_pair, encoded_pair, lemma_encode_ascii_char};
use crate::request::{
    all_simple, construct_form_url_encoded, construct_multipart, construct_singular_body,
    content_type_name, form_content_type, generate_base_url, is_kept, is_simple, lemma_content_type_name,
    multipart_body, named_value, named_values, read_url, singular_body, url_parameters,
    url_text, Method, RequestBody, RequestBodyView,
};
use crate::text::{before, join_text, lemma_first_at, lemma_unmarked, lower, split_once, trimmed_end};

verus! {

/// A request in the making.
///
///  - Named values go into the query or into a form, where name and value are
///    percent-encoded.
///  - Files bring the content type of their body or of their part.
///  - One parameter in the body is sent as it is. Several are sent as a form,
///    or as a multipart body if there is a file among them.
///  - Parameters in the query of the URL are taken over as named values.
pub struct Client {
    method: Method,
    base_url: String,
    pub headers: HeaderMap,
    parameters: Vec<Parameter>,
    form_url_encoded: bool,
}

/// What a [`Client`] holds.
pub struct ClientView {
    pub method: Method,
    pub base_url: Seq<char>,
    pub fields: Fields,
    pub parameters: Seq<ParameterView>,
    /// Whether no file was added.
    pub form_url_encoded: bool,
}

impl View for Client {
    type V = ClientView;

    closed spec fn view(&self) -> ClientView {
        ClientView {
            method: self.method,
            base_url: self.base_url@,
            fields: header_fields(self.headers),
            parameters: parameter_views(self.parameters@),
            form_url_encoded: self.form_url_encoded,
        }
    }
}

impl Client {
    /// A client that takes itself for free of files holds none.
    pub open spec fn wf(&self) -> bool {
        self@.form_url_encoded ==> all_simple(self@.parameters)
    }

    /// Starts a request to a URL. The parameters in its query are taken over.
    pub fn new(url: &str, method: Method) -> (r: Result<Client, Error>)
        ensures
            match r {
                Ok(client) => {
                    &&& client.wf()
                    &&& url_text(before(trimmed_end(url@), '?')) == Some(client@.base_url)
                    &&& !client@.base_url.contains('?')
                    &&& is_kept(client@.base_url)
                    &&& client@ == started(client@.base_url, url_parameters(trimmed_end(url@)), method)
                },
                Err(e) => {
                    &&& url_text(before(trimmed_end(url@), '?')) is None
                    &&& e@ == ErrorView::UrlParserError
                },
            },
    {
        match generate_base_url(url) {
            Ok((base_url, parameters)) => Ok(Client::with_base_url(base_url, parameters, method)),
            Err(e) => Err(e),
        }
    }

    /// Starts a request to a URL that was read and cut from its query already.
    pub fn with_base_url(base_url: String, parameters: Vec<Parameter>, method: Method) -> (r: Client)
        ensures
            r.wf(),
            r@ == started(base_url@, parameter_views(parameters@), method),
    {
        let mut client = Client {
            method,
            base_url,
            headers: no_headers(),
            parameters: Vec::new(),
            form_url_encoded: true,
        };
        let ghost views = parameter_views(parameters@);
        proof {
            assert(client@.parameters =~= Seq::<ParameterView>::empty());
        }
        client.add_parameters(parameters);
        proof {
            assert(Seq::<ParameterView>::empty() + views =~= views);
        }
        client
    }

    /// Adds a parameter behind those that the request carries. With a file
    /// among them they can no longer be sent as a form.
    pub fn add_parameter(&mut self, parameter: Parameter)
        ensures
            old(self).wf() ==> final(self).wf(),
            final(self)@ == with_parameters(old(self)@, seq![parameter@]),
    {
        if let Parameter::ComplexParameter { .. } = &parameter {
            self.form_url_encoded = false;
        }
        proof {
            lemma_views_push(self.parameters@, parameter);
            assert(old(self)@.parameters.push(parameter@) =~= old(self)@.parameters + seq![parameter@]);
            assert(is_simple(parameter@) ==> all_simple(seq![parameter@]));
            assert(all_simple(seq![parameter@]) ==> is_simple(seq![parameter@][0]));
        }
        self.parameters.push(parameter);
    }

    /// Adds a file. Its octets are copied.
    pub fn add_complex_parameter(&mut self, name: &str, mime_type: MediaType, data: &[u8]) -> (r: Result<(), Error>)
        ensures
            r is Ok,
            old(self).wf() ==> final(self).wf(),
            final(self)@ == with_parameters(
                old(self)@,
                seq![ParameterView::Complex { name: name@, mime_type: mime_type@, content: data@ }],
            ),
    {
        let content = copy_octets(data);
        self.add_parameter(Parameter::ComplexParameter { name: name.to_owned(), mime_type, content });
        Ok(())
    }

    /// Adds parameters, in order.
    pub fn add_parameters(&mut self, parameters: Vec<Parameter>)
        ensures
            old(self).wf() ==> final(self).wf(),
            final(self)@ == with_parameters(old(self)@, parameter_views(parameters@)),
    {
        let ghost views = parameter_views(parameters@);
        proof {
            lemma_no_parameters(self@);
            assert(views.take(0) =~= Seq::<ParameterView>::empty());
        }
        for parameter in it: parameters
            invariant
                it.seq() == parameters@,
                views == parameter_views(parameters@),
                old(self).wf() ==> self.wf(),
                self@ == with_parameters(old(self)@, views.take(it.index() as int)),
        {
            proof {
                let index = it.index() as int;
                assert(parameter@ == views[index]);
                lemma_more_parameters(old(self)@, views.take(index), seq![parameter@]);
                assert(views.take(index + 1) =~= views.take(index) + seq![parameter@]);
            }
            self.add_parameter(parameter);
        }
        proof {
            assert(views.take(views.len() as int) =~= views);
        }
    }

    /// Replaces all headers.
    pub fn set_request_headers(&mut self, request_headers: HeaderMap)
        ensures
            old(self).wf() ==> final(self).wf(),
            final(self)@ == with_fields(old(self)@, header_fields(request_headers)),
    {
        self.headers = request_headers;
    }
}

/// A request as it is started.
pub open spec fn started(base_url: Seq<char>, parameters: Seq<ParameterView>, method: Method) -> ClientView {
    ClientView {
        method,
        base_url,
        fields: Map::empty(),
        parameters,
        form_url_encoded: all_simple(parameters),
    }
}

/// A client with some parameters added.
pub open spec fn with_parameters(client: ClientView, parameters: Seq<ParameterView>) -> ClientView {
    ClientView {
        parameters: client.parameters + parameters,
        form_url_encoded: client.form_url_encoded && all_simple(parameters),
        ..client
    }
}

/// A client with its headers replaced.
pub open spec fn with_fields(client: ClientView, fields: Fields) -> ClientView {
    ClientView { fields, ..client }
}

/// Adding nothing changes nothing.
proof fn lemma_no_parameters(client: ClientView)
    ensures
        with_parameters(client, Seq::empty()) == client,
{
    assert(client.parameters + Seq::<ParameterView>::empty() =~= client.parameters);
}

/// Adding some parameters and then more is adding them all.
proof fn lemma_more_parameters(client: ClientView, first: Seq<ParameterView>, more: Seq<ParameterView>)
    ensures
        with_parameters(with_parameters(client, first), more) == with_parameters(client, first + more),
{
    assert(client.parameters + first + more =~= client.parameters + (first + more));
    lemma_all_simple_concat(first, more);
}

/// Two lists are all simple if and only if the one behind the other is.
pub proof fn lemma_all_simple_concat(first: Seq<ParameterView>, more: Seq<ParameterView>)
    ensures
        all_simple(first + more) == (all_simple(first) && all_simple(more)),
{
    if all_simple(first + more) {
        assert forall|i: int| 0 <= i < first.len() implies is_simple(#[trigger] first[i]) by {
            assert((first + more)[i] == first[i]);
        }
        assert forall|i: int| 0 <= i < more.len() implies is_simple(#[trigger] more[i]) by {
            assert((first + more)[first.len() + i] == more[i]);
        }
    }
}

/// What is wrong with a header that is to be sent, if anything. Only visible
/// ASCII is permitted in its value.
pub open spec fn header_error(name: Seq<char>, value: Seq<char>) -> Option<ErrorView> {
    if !is_header_name(name) {
        Some(ErrorView::InvalidHeaderName)
    } else if !is_visible(encode_utf8(value)) {
        Some(ErrorView::InvalidHeaderValue)
    } else {
        None
    }
}

/// What adding a header can make of the headers. It takes the place of what was
/// there under its name. If it is refused, be it for its value or for want of
/// room, what was there is gone all the same; what is no header name takes
/// nothing away.
pub open spec fn header_added(
    fields: Fields,
    name: Seq<char>,
    value: Seq<char>,
    error: Option<ErrorView>,
    result: Fields,
) -> bool {
    let others = fields.remove(lower(name));
    if header_error(name, value) is Some {
        &&& error == header_error(name, value)
        &&& result == if is_header_name(name) {
            others
        } else {
            fields
        }
    } else if error is None {
        result == fields.insert(lower(name), seq![encode_utf8(value)])
    } else {
        &&& !has_room(others)
        &&& error == Some(ErrorView::TooManyHeaders)
        &&& result == others
    }
}

/// What adding headers one after the other, up to the first error, can make of
/// the headers.
pub open spec fn headers_added(
    fields: Fields,
    pairs: Seq<(Seq<char>, Seq<char>)>,
    error: Option<ErrorView>,
    result: Fields,
) -> bool
    decreases pairs.len(),
{
    if pairs.len() == 0 {
        error is None && result == fields
    } else {
        exists|between: Fields, earlier: Option<ErrorView>|
            {
                &&& headers_added(fields, pairs.drop_last(), earlier, between)
                &&& #[trigger] then_added(between, earlier, pairs.last(), error, result)
            }
    }
}

/// What one more header can make of the headers, if there was no error before it.
pub open spec fn then_added(
    fields: Fields,
    earlier: Option<ErrorView>,
    pair: (Seq<char>, Seq<char>),
    error: Option<ErrorView>,
    result: Fields,
) -> bool {
    if earlier is Some {
        error == earlier && result == fields
    } else {
        header_added(fields, pair.0, pair.1, error, result)
    }
}

/// `pairs` is a walk through a map: every entry once, in any order.
pub open spec fn walks(pairs: Seq<(String, String)>, map: Map<String, String>) -> bool {
    &&& forall|i: int|
        0 <= i < pairs.len() ==> map.contains_key((#[trigger] pairs[i]).0) && map[pairs[i].0] == pairs[i].1
    &&& forall|name: String| #[trigger]
        map.contains_key(name) ==> exists|i: int| 0 <= i < pairs.len() && (#[trigger] pairs[i]).0 == name
    &&& forall|i: int, j: int| 0 <= i < j < pairs.len() ==> (#[trigger] pairs[i]).0@ != (#[trigger] pairs[j]).0@
}

/// `HashMap::into_iter`: every entry once, in an order of which nothing is said.
#[verifier::external_body]
fn walk(map: HashMap<String, String>) -> (r: Vec<(String, String)>)
    ensures
        walks(r@, map@),
{
    map.into_iter().collect()
}

/// The error for a value that is not permitted. Only `http` can make one: this is
/// the one that it gives for the delete character.
fn invalid_value() -> http::header::InvalidHeaderValue {
    proof {
        reveal_strlit("\u{7f}");
        assert("\u{7f}"@ =~= seq!['\u{7f}']);
        lemma_encode_ascii_char('\u{7f}');
        assert(!is_header_value(encode_utf8("\u{7f}"@))) by {
            assert(encode_utf8("\u{7f}"@)[0] == 0x7fu8);
        }
    }
    header_value("\u{7f}").unwrap_err()
}

impl Client {
    /// Adds a header in place of what is there under its name. There is one
    /// value to a header here; parameters of a header are part of its value,
    /// behind a `;`.
    ///
    /// Only visible ASCII is permitted in the value. A header with other octets
    /// can be set with [`Client::set_request_headers`].
    pub fn add_request_header(&mut self, name: &str, value: &str) -> (r: Result<(), Error>)
        ensures
            old(self).wf() ==> final(self).wf(),
            final(self)@ == with_fields(old(self)@, final(self)@.fields),
            header_added(old(self)@.fields, name@, value@, failure(r), final(self)@.fields),
    {
        let text = match header_name(name) {
            Ok(text) => text,
            Err(e) => {
                return Err(Error::InvalidHeaderName(e));
            },
        };
        remove_header(&mut self.headers, name);
        let octets = match header_value(value) {
            Ok(octets) => octets,
            Err(e) => {
                return Err(Error::InvalidHeaderValue(e));
            },
        };
        if let Err(_) = header_text(octets.as_slice()) {
            return Err(Error::InvalidHeaderValue(invalid_value()));
        }
        proof {
            lemma_lower_name(name@);
            let fields = old(self)@.fields;
            let values = seq![encode_utf8(value@)];
            assert(fields.remove(lower(name@)).insert(lower(name@), values) =~= fields.insert(lower(name@), values));
        }
        match insert_header(&mut self.headers, text.as_str(), octets.as_slice()) {
            Ok(()) => Ok(()),
            Err(e) => Err(Error::TooManyHeaders(e)),
        }
    }

    /// Adds headers, each as [`Client::add_request_header`] does, in an order of
    /// which nothing is said, up to the first error.
    pub fn add_request_headers(&mut self, headers: HashMap<String, String>) -> (r: Result<(), Error>)
        ensures
            old(self).wf() ==> final(self).wf(),
            final(self)@ == with_fields(old(self)@, final(self)@.fields),
            exists|pairs: Seq<(String, String)>| #[trigger]
                walks(pairs, headers@) && headers_added(
                    old(self)@.fields,
                    pair_views(pairs),
                    failure(r),
                    final(self)@.fields,
                ),
    {
        let pairs = walk(headers);
        self.add_listed_headers(pairs)
    }

    /// Adds headers, each as [`Client::add_request_header`] does, in order, up to
    /// the first error.
    pub fn add_listed_headers(&mut self, headers: Vec<(String, String)>) -> (r: Result<(), Error>)
        ensures
            old(self).wf() ==> final(self).wf(),
            final(self)@ == with_fields(old(self)@, final(self)@.fields),
            headers_added(old(self)@.fields, pair_views(headers@), failure(r), final(self)@.fields),
    {
        let ghost pairs = pair_views(headers@);
        let ghost fields = self@.fields;
        let mut i: usize = 0;
        while i < headers.len()
            invariant
                i <= headers.len(),
                pairs == pair_views(headers@),
                fields == old(self)@.fields,
                old(self).wf() ==> self.wf(),
                self@ == with_fields(old(self)@, self@.fields),
                headers_added(fields, pairs.take(i as int), None, self@.fields),
            decreases headers.len() - i,
        {
            let ghost between = self@.fields;
            let r = self.add_request_header(headers[i].0.as_str(), headers[i].1.as_str());
            proof {
                let taken = pairs.take(i + 1);
                assert(taken.drop_last() =~= pairs.take(i as int));
                assert(taken.last() == pairs[i as int]);
                assert(then_added(between, None, taken.last(), failure(r), self@.fields));
                assert(headers_added(fields, taken, failure(r), self@.fields));
            }
            if let Err(e) = r {
                proof {
                    lemma_rest_after_error(fields, pairs, i + 1, Some(e@), self@.fields);
                }
                return Err(e);
            }
            i += 1;
        }
        proof {
            assert(pairs.take(i as int) =~= pairs);
        }
        Ok(())
    }
}

/// Behind an error nothing more is added.
proof fn lemma_rest_after_error(
    fields: Fields,
    pairs: Seq<(Seq<char>, Seq<char>)>,
    count: int,
    error: Option<ErrorView>,
    result: Fields,
)
    requires
        0 <= count <= pairs.len(),
        error is Some,
        headers_added(fields, pairs.take(count), error, result),
    ensures
        headers_added(fields, pairs, error, result),
    decreases pairs.len(),
{
    if count == pairs.len() {
        assert(pairs.take(count) =~= pairs);
    } else {
        let front = pairs.drop_last();
        assert(front.take(count) =~= pairs.take(count));
        lemma_rest_after_error(fields, front, count, error, result);
        assert(then_added(result, error, pairs.last(), error, result));
    }
}

/// Whether a parameter goes into the query.
pub open spec fn is_query(parameter: ParameterView) -> bool {
    parameter matches ParameterView::Simple { param_type, .. } && param_type is Query
}

/// Whether a parameter goes into the body.
pub open spec fn is_body(parameter: ParameterView) -> bool {
    !is_query(parameter)
}

/// The parameters that go into the query.
pub open spec fn query_parts(parameters: Seq<ParameterView>) -> Seq<ParameterView> {
    parameters.filter(|p: ParameterView| is_query(p))
}

/// The query of a request: its parameters as a form writes them.
pub open spec fn query_text(parameters: Seq<ParameterView>) -> Seq<char> {
    form_text(named_values(query_parts(parameters)))
}

/// A URL with a query behind a `?`, if it is not empty. A fragment stays at the
/// end.
pub open spec fn with_query(base_url: Seq<char>, query: Seq<char>) -> Seq<char> {
    let front = before(base_url, '#');
    if query.len() == 0 {
        base_url
    } else {
        front.push('?') + query + base_url.skip(front.len() as int)
    }
}

/// The URL of a request as it is put together.
pub open spec fn target(client: ClientView) -> Seq<char> {
    with_query(client.base_url, query_text(client.parameters))
}

/// One more element, filtered.
proof fn lemma_filter_take<T>(s: Seq<T>, pred: spec_fn(T) -> bool, i: int)
    requires
        0 <= i < s.len(),
    ensures
        s.take(i + 1).filter(pred) == if pred(s[i]) {
            s.take(i).filter(pred).push(s[i])
        } else {
            s.take(i).filter(pred)
        },
{
    reveal(Seq::filter);
    assert(s.take(i + 1).drop_last() =~= s.take(i));
}

impl Client {
    /// Puts the URL of the request together.
    pub fn url_with_query(&self) -> (r: String)
        ensures
            r@ == target(self@),
    {
        let ghost views = self@.parameters;
        let ghost pred = |p: ParameterView| is_query(p);
        let ghost pair_text = |p: (Seq<char>, Seq<char>)| encoded_pair(p.0, p.1);
        let mut pieces: Vec<String> = Vec::new();
        let mut i: usize = 0;
        proof {
            assert(views.take(0).filter(pred) =~= Seq::<ParameterView>::empty()) by {
                reveal(Seq::filter);
            }
        }
        while i < self.parameters.len()
            invariant
                i <= self.parameters.len(),
                views == parameter_views(self.parameters@),
                pred == (|p: ParameterView| is_query(p)),
                pair_text == (|p: (Seq<char>, Seq<char>)| encoded_pair(p.0, p.1)),
                pieces@.map_values(|p: String| p@) =~= named_values(views.take(i as int).filter(pred)).map_values(
                    pair_text,
                ),
            decreases self.parameters.len() - i,
        {
            proof {
                lemma_filter_take(views, pred, i as int);
            }
            let ghost so_far = pieces@.map_values(|p: String| p@);
            let ghost chosen = views.take(i as int).filter(pred);
            if let Parameter::SimpleParameter { name, value, param_type: ParameterType::Query } = &self.parameters[i] {
                let piece = encode_pair(name.as_str(), value.as_str());
                pieces.push(piece);
                proof {
                    assert(pred(views[i as int]));
                    assert(pieces@.map_values(|p: String| p@) =~= so_far.push(piece@));
                    assert(named_values(chosen.push(views[i as int])) =~= named_values(chosen).push(
                        named_value(views[i as int]),
                    ));
                }
            } else {
                proof {
                    assert(!pred(views[i as int]));
                }
            }
            i += 1;
        }
        proof {
            reveal_strlit("&");
            assert(views.take(i as int) =~= views);
        }
        let query = join_text(&pieces, "&");
        if query.as_str().is_empty() {
            return self.base_url.as_str().to_owned();
        }
        let ghost base = self.base_url@;
        proof {
            reveal_strlit("?");
            reveal_strlit("#");
            lemma_first_at(base, '#');
        }
        match split_once(self.base_url.as_str(), '#') {
            Some((front, fragment)) => {
                let mut url = front.to_owned();
                url.append("?");
                url.append(query.as_str());
                url.append("#");
                url.append(fragment);
                proof {
                    assert(base.skip(front@.len() as int) =~= seq!['#'] + fragment@);
                    assert(url@ =~= front@.push('?') + query@ + base.skip(front@.len() as int));
                }
                url
            },
            None => {
                let mut url = self.base_url.as_str().to_owned();
                url.append("?");
                url.append(query.as_str());
                proof {
                    lemma_unmarked(base, '#');
                    assert(url@ =~= base.push('?') + query@ + base.skip(base.len() as int));
                }
                url
            },
        }
    }

    /// The URL of the request, of which it is known that it can be read.
    pub fn generate_url(&self) -> (r: String)
        requires
            url_text(target(self@)) is Some,
        ensures
            url_text(target(self@)) == Some(r@),
    {
        read_url(self.url_with_query().as_str()).unwrap()
    }

    /// The URL of the request, or an error if what was put together is no URL.
    pub fn try_generate_url(&self) -> (r: Result<String, Error>)
        ensures
            match r {
                Ok(url) => url_text(target(self@)) == Some(url@),
                Err(e) => url_text(target(self@)) is None && e@ == ErrorView::UrlParserError,
            },
    {
        match read_url(self.url_with_query().as_str()) {
            Ok(_) => Ok(self.generate_url()),
            Err(e) => Err(Error::UrlParserError(e)),
        }
    }
}

/// The parameters that go into the body.
pub open spec fn body_parts(parameters: Seq<ParameterView>) -> Seq<ParameterView> {
    parameters.filter(|p: ParameterView| is_body(p))
}

/// The body of a request. One parameter is sent as it is, several as a form, or
/// as a multipart body if a file was added.
pub open spec fn body_of(client: ClientView) -> RequestBodyView {
    let parameters = body_parts(client.parameters);
    if parameters.len() == 1 {
        singular_body(client.fields, parameters[0])
    } else if client.form_url_encoded {
        RequestBodyView::FormUrlEncoded(form_text(named_values(parameters)))
    } else {
        multipart_body(parameters)
    }
}

/// The headers of a request once its body is made. Unless one parameter is sent
/// as it is, a content type of the caller's own is dropped.
pub open spec fn fields_beside_body(client: ClientView) -> Fields {
    if body_parts(client.parameters).len() == 1 {
        client.fields
    } else {
        client.fields.remove(content_type_name())
    }
}

/// Choosing from parameters that are all simple leaves them all simple.
pub proof fn lemma_filter_simple(parameters: Seq<ParameterView>, pred: spec_fn(ParameterView) -> bool)
    requires
        all_simple(parameters),
    ensures
        all_simple(parameters.filter(pred)),
    decreases parameters.len(),
{
    reveal(Seq::filter);
    if parameters.len() > 0 {
        let front = parameters.drop_last();
        assert forall|i: int| 0 <= i < front.len() implies is_simple(#[trigger] front[i]) by {
            assert(is_simple(parameters[i]));
        }
        lemma_filter_simple(front, pred);
        assert(is_simple(parameters[parameters.len() - 1]));
    }
}

impl Client {
    /// Makes the body of the request, and takes the parameters out.
    pub fn generate_body(&mut self) -> (r: Result<RequestBody, Error>)
        requires
            old(self).wf(),
        ensures
            final(self).wf(),
            r matches Ok(body) && body@ == body_of(old(self)@),
            final(self)@ == (ClientView {
                fields: fields_beside_body(old(self)@),
                parameters: Seq::empty(),
                ..old(self)@
            }),
    {
        let ghost views = self@.parameters;
        let ghost pred = |p: ParameterView| is_body(p);
        let ghost given = self.parameters@;
        let mut parameters: Vec<Parameter> = Vec::new();
        std::mem::swap(&mut self.parameters, &mut parameters);
        let mut chosen: Vec<Parameter> = Vec::new();
        proof {
            assert(self@.parameters =~= Seq::<ParameterView>::empty());
            assert(views.take(0).filter(pred) =~= Seq::<ParameterView>::empty()) by {
                reveal(Seq::filter);
            }
            if self.form_url_encoded {
                lemma_filter_simple(views, pred);
            }
        }
        for parameter in it: parameters
            invariant
                it.seq() == given,
                views == parameter_views(given),
                pred == (|p: ParameterView| is_body(p)),
                parameter_views(chosen@) =~= views.take(it.index() as int).filter(pred),
        {
            proof {
                assert(parameter@ == views[it.index() as int]);
                lemma_filter_take(views, pred, it.index() as int);
                lemma_views_push(chosen@, parameter);
            }
            let goes_into_body = match &parameter {
                Parameter::SimpleParameter { param_type, .. } => match param_type {
                    ParameterType::Query => false,
                    ParameterType::Body => true,
                },
                Parameter::ComplexParameter { .. } => true,
            };
            proof {
                assert(goes_into_body == pred(parameter@));
            }
            if goes_into_body {
                chosen.push(parameter);
            }
        }
        proof {
            assert(views.take(views.len() as int) =~= views);
            lemma_content_type_name();
        }
        if chosen.len() == 1 {
            let ghost only = parameter_views(chosen@)[0];
            let parameter = chosen.pop().unwrap();
            proof {
                assert(parameter@ == only);
            }
            construct_singular_body(&self.headers, parameter)
        } else {
            remove_header(&mut self.headers, "content-type");
            if self.form_url_encoded {
                construct_form_url_encoded(chosen)
            } else {
                construct_multipart(chosen)
            }
        }
    }
}

/// The content type that is sent with a body. That of a multipart body is left
/// to the transfer, which knows the boundary.
pub open spec fn sent_content_type(body: RequestBodyView) -> Option<Seq<char>> {
    match body {
        RequestBodyView::Raw { content_type, .. } => content_type,
        RequestBodyView::FormUrlEncoded(_) => Some(form_content_type()),
        RequestBodyView::Multipart(_) => None,
    }
}

/// The headers that are sent with a request.
pub open spec fn sent_fields(client: ClientView) -> Fields {
    match sent_content_type(body_of(client)) {
        Some(content_type) => fields_beside_body(client).insert(
            content_type_name(),
            seq![encode_utf8(content_type)],
        ),
        None => fields_beside_body(client),
    }
}

/// What is wrong with the headers of a request, if anything.
pub open spec fn request_error(client: ClientView) -> Option<ErrorView> {
    if sent_content_type(body_of(client)) matches Some(content_type) && !is_header_value(encode_utf8(content_type)) {
        Some(ErrorView::InvalidHeaderValue)
    } else if !all_visible(sent_fields(client)) {
        Some(ErrorView::ToStringError)
    } else {
        None
    }
}

/// Whether the headers of a request leave no room for the content type that is
/// to be sent.
pub open spec fn is_crowded(client: ClientView) -> bool {
    &&& request_error(client) != Some(ErrorView::InvalidHeaderValue)
    &&& sent_content_type(body_of(client)) is Some
    &&& !has_room(fields_beside_body(client))
}

/// Whether a prepared request is what becomes of a client, sent to `url`.
pub open spec fn is_prepared(request: PreparedRequest, url: Seq<char>, client: ClientView) -> bool {
    &&& request.url@ == url
    &&& request.method@ == method_text(client.method)
    &&& request.head_only == (client.method is HEAD)
    &&& request.timeout_seconds == 20
    &&& request.follow_location
    &&& request.max_redirections == 10
    &&& request.payload@ == payload_of(body_of(client))
    &&& are_lines_of(request.header_lines@.map_values(|line: String| line@), sent_fields(client))
}

impl Client {
    /// Makes the request ready to be sent.
    pub fn prepare(self) -> (r: Result<PreparedRequest, Error>)
        requires
            self.wf(),
        ensures
            match r {
                Ok(request) => {
                    &&& url_text(target(self@)) is Some
                    &&& request_error(self@) is None
                    &&& is_prepared(request, url_text(target(self@))->0, self@)
                },
                Err(e) => if url_text(target(self@)) is None {
                    e@ == ErrorView::UrlParserError
                } else {
                    ||| request_error(self@) == Some(e@)
                    ||| is_crowded(self@) && e@ == ErrorView::TooManyHeaders
                },
            },
    {
        match self.try_generate_url() {
            Ok(url) => self.prepare_for(url),
            Err(e) => Err(e),
        }
    }

    /// Makes the request ready to be sent to `url`.
    pub fn prepare_for(self, url: String) -> (r: Result<PreparedRequest, Error>)
        requires
            self.wf(),
        ensures
            match r {
                Ok(request) => {
                    &&& request_error(self@) is None
                    &&& is_prepared(request, url@, self@)
                },
                Err(e) => {
                    ||| request_error(self@) == Some(e@)
                    ||| is_crowded(self@) && e@ == ErrorView::TooManyHeaders
                },
            },
    {
        let mut client = self;
        let method = client.method.as_str().to_owned();
        let head_only = match client.method {
            Method::HEAD => true,
            _ => false,
        };
        let body = match client.generate_body() {
            Ok(body) => body,
            Err(e) => {
                return Err(e);
            },
        };
        let ghost view = body@;
        let (payload, content_type) = match body {
            RequestBody::Raw { data, content_type } => if read_octets(&data).len() == 0 {
                (Payload::Nothing, content_type)
            } else {
                (Payload::Fields(data), content_type)
            },
            RequestBody::FormUrlEncoded(text) => (
                Payload::Fields(own_octets(text.as_str().as_bytes_vec())),
                Some("application/x-www-form-urlencoded".to_owned()),
            ),
            RequestBody::Multipart(parts) => (Payload::Form(parts), None),
        };
        proof {
            assert(optional_view(content_type) == sent_content_type(view));
            assert(payload@ == payload_of(view));
        }
        if let Some(text) = content_type {
            let value = match header_value(text.as_str()) {
                Ok(value) => value,
                Err(e) => {
                    return Err(Error::InvalidHeaderValue(e));
                },
            };
            proof {
                lemma_content_type_name();
            }
            if let Err(e) = insert_header(&mut client.headers, "content-type", value.as_slice()) {
                return Err(Error::TooManyHeaders(e));
            }
        }
        proof {
            assert(header_fields(client.headers) == sent_fields(self@));
        }
        match header_lines(&client.headers) {
            Ok(header_lines) => Ok(
                PreparedRequest {
                    url,
                    method,
                    head_only,
                    timeout_seconds: 20,
                    follow_location: true,
                    max_redirections: 10,
                    payload,
                    header_lines,
                },
            ),
            Err(e) => Err(e),
        }
    }

    /// The headers of the request, which are those in the field `headers`.
    pub fn request_headers(&self) -> (r: &HeaderMap)
        ensures
            header_fields(*r) == self@.fields,
    {
        &self.headers
    }

    /// The method of the request.
    pub fn method(&self) -> (r: &Method)
        ensures
            *r == self@.method,
    {
        &self.method
    }

    /// The parameters that the request carries.
    pub fn parameters(&self) -> (r: &Vec<Parameter>)
        ensures
            parameter_views(r@) == self@.parameters,
    {
        &self.parameters
    }

    /// Whether no file was added.
    pub fn form_url_encoded(&self) -> (r: bool)
        ensures
            r == self@.form_url_encoded,
    {
        self.form_url_encoded
    }
}

} // verus!
